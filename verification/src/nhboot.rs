//! The boot loader: the image container, the serial upload protocol, and what it asks of
//! the card, the UART and the firmware mailbox.

pub mod crc;
pub mod image;
pub mod mailbox;
pub mod persist;
pub mod start;
pub mod time;
pub mod uart;
pub mod xfer;
