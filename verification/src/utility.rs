//! Helpers shared by the commands.
pub mod permissions;
pub mod sub_func;

pub use self::sub_func::{get_perm_list, normal_button, polish_channel};
