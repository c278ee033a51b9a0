//! Discord permission bits, as the gateway and serenity's `Permissions` number them.
use vstd::prelude::*;

verus! {

pub const MANAGE_CHANNELS: u64 = 0x10;

pub const MANAGE_GUILD: u64 = 0x20;

pub const VIEW_CHANNEL: u64 = 0x400;

pub const SEND_MESSAGES: u64 = 0x800;

pub const MANAGE_MESSAGES: u64 = 0x2000;

pub const ATTACH_FILES: u64 = 0x8000;

pub const READ_MESSAGE_HISTORY: u64 = 0x10000;

pub const MENTION_EVERYONE: u64 = 0x20000;

pub const CONNECT: u64 = 0x100000;

pub const MANAGE_ROLES: u64 = 0x10000000;

pub const USE_SLASH_COMMANDS: u64 = 0x80000000;

pub const CREATE_PUBLIC_THREADS: u64 = 0x800000000;

pub const CREATE_PRIVATE_THREADS: u64 = 0x1000000000;

} // verus!
