//! Headless multi-channel video mixer core.
//!
//! Each channel composites an ordered list of RGBA layers (a network video
//! input and any number of browser overlays) onto a reusable canvas at a
//! fixed cadence, converts the result to BGRA and hands it to a non-blocking
//! sender. This crate holds the verified core: the compositor, the
//! single-slot frame mailbox, the sender handoff discipline, the render-loop
//! timing arithmetic, configuration validation, and the pure parts of the
//! capture and GPU paths. Process wiring, network, browser and GPU device
//! I/O live outside the library.

pub mod blend;
pub mod capture;
pub mod compositor;
pub mod config;
pub mod frame;
pub mod gpu;
pub mod mailbox;
pub mod render;
pub mod resize;
pub mod sender;
pub mod state;
pub mod text;
pub mod timing;
