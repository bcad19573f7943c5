//! A panic-free APRS packet parser and the decision logic of a terminal
//! APRS tracker: packet decoding and line rendering, configuration
//! resolution, the APRS-IS login line, command-line filters and the
//! keyboard handling of the live table.

pub mod text;
pub mod position;
pub mod mice;
pub mod weather;
pub mod packet;
pub mod config;
pub mod cli;
pub mod aprsis;
pub mod table;
pub mod aprsfi;
