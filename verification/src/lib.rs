//! The verified core of a Linux dictation helper.
//!
//! The helper speaks a framed JSON protocol with the application that launched
//! it, injects key chords, tracks the focused application and streams key presses.
//! This library holds its decisions: how messages are framed and read, what is
//! answered, which events are written in which order, and what each reply of the
//! desktop means. Reading, writing and waiting are left to the program around it.

pub mod backend;
pub mod capture;
pub mod dispatch;
pub mod input_device;
pub mod ipc;
pub mod json;
pub mod keymap;
pub mod proto;
pub mod text;
