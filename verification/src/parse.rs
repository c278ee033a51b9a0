//! Parsing of the `/create` command text.
pub mod parser;
pub mod reparse;
pub mod flags;
pub mod parse_to_channel;

pub use self::parse_to_channel::parse_to_channel;
pub mod parse_to_text;

pub use self::parse_to_text::parse_to_text;
pub mod text_from_channels;

pub use self::text_from_channels::text_from_channels;
