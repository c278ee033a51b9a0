//! The data the bot keeps about channels, categories and users, and its event
//! handler's decisions.
pub mod bot_data;
pub mod channel_data;
pub mod start_bot;

pub use self::bot_data::{ParsedData, PermissionData, PermissionSetup};
pub use self::channel_data::{CategoryInfo, ChannelInfo, ChannelKind};
pub use self::start_bot::Handler;
