//! Core of an interactive serial console: the line-wrapping and scrolling
//! engine of the output pane, the byte parser that turns device bytes into
//! display lines, the sample series of the live graph, the decisions of the
//! event loop, and the startup rules for the serial device.

pub mod console;
pub mod device;
pub mod text;
pub mod wraptext;
