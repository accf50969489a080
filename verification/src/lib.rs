//! A text-mode console library for a freestanding environment.
//!
//! The library verifies the logic of a memory-mapped text display: packing
//! foreground/background colors into hardware attribute bytes, a screen
//! writer that appends characters to a fixed 80x25 grid with line wrap and
//! scrolling, and a check-running harness that reports per-check status and
//! an exit signal to a host. Hardware access itself (the memory-mapped
//! display region, the serial port, the exit I/O port) lives outside the
//! library, in the surrounding application, which drives these verified
//! state machines.

pub mod color;
pub mod harness;
pub mod render;
pub mod screen;

pub use color::Color;
pub use color::ColorCode;
pub use harness::Check;
pub use harness::CheckOutcome;
pub use harness::Harness;
pub use harness::HarnessEvent;
pub use harness::QemuExitCode;
pub use harness::Testable;
pub use harness::test_runner;
pub use render::render_count;
pub use render::render_event;
pub use render::render_transcript;
pub use screen::Buffer;
pub use screen::ScreenChar;
pub use screen::Writer;
pub use screen::BUFFER_HEIGHT;
pub use screen::BUFFER_WIDTH;
pub use screen::_print;
pub use screen::report_fatal;
