//! Input-to-report pipeline of a small USB keyboard controller.
//!
//! The crate turns the sampled state of a fixed set of switch lines into HID
//! keyboard reports and decides, step by step, what a cooperative firmware loop
//! has to do next. Everything here is pure: reading the bus, talking to the USB
//! stack and driving the indicator are left to the caller.

pub mod fault;
pub mod indicator;
pub mod key_buffer;
pub mod keycode;
pub mod keymap;
pub mod report;
pub mod scan;
pub mod scheduler;
pub mod timer;
pub mod transport;

pub use fault::Fault;
pub use indicator::Indicator;
pub use key_buffer::{KeyBuffer, MAX_LINES};
pub use keymap::Keyboard;
pub use report::{encode, Report, BOOT_REPORT_CAPACITY};
pub use scan::{scan, LineRead, Scan};
pub use scheduler::{Action, Event, Phase, Scheduler, SCAN_PERIOD_MS, SERVICE_PERIOD_MS};
pub use timer::PeriodicTimer;
pub use transport::{HostReadOutcome, ServiceOutcome, SubmitOutcome};
