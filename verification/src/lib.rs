//! Turns polled game-controller snapshots into a discrete stream of
//! semantic events: button edges, stick motion and trigger motion, with
//! per-axis deadzone thresholds and edge/level classification.

pub mod controller;
pub mod events;
pub mod laws;

pub use controller::all_buttons;
pub use controller::Button;
pub use controller::Buttons;
pub use controller::Controller;
pub use controller::ControllerValues;
pub use controller::Coordinate;
pub use events::ButtonEvt;
pub use events::ControllerHandler;
pub use events::HidEvent;
pub use events::StickEvt;
pub use events::TriggerEvt;
pub use events::LR;
pub use events::derive_events;
