//! The error taxonomy of the proxy core and the numeric codes its
//! control-plane calls return.

use vstd::prelude::*;

verus! {

/// No error.
pub const ERR_OK: i32 = 0;

/// Config path error.
pub const ERR_CONFIG_PATH: i32 = 1;

/// Config parsing error.
pub const ERR_CONFIG: i32 = 2;

/// IO error.
pub const ERR_IO: i32 = 3;

/// Config file watcher error.
pub const ERR_WATCHER: i32 = 4;

/// Async channel send error.
pub const ERR_ASYNC_CHANNEL_SEND: i32 = 5;

/// Sync channel receive error.
pub const ERR_SYNC_CHANNEL_RECV: i32 = 6;

/// Runtime manager error.
pub const ERR_RUNTIME_MANAGER: i32 = 7;

/// No associated config file.
pub const ERR_NO_CONFIG_FILE: i32 = 8;

/// The error taxonomy used throughout the core.
///
/// `Config` is fatal at construction; `Io` is non-fatal per flow and
/// fatal at startup; `Watcher` is logged; the channel errors are fatal
/// to the owning task; `RuntimeManager` and `NoConfigFile` are surfaced
/// to control-plane callers.
#[derive(Debug)]
pub enum Error {
    Config(String),
    NoConfigFile,
    Io(String),
    Watcher(String),
    AsyncChannelSend(String),
    SyncChannelRecv(String),
    RuntimeManager,
}

/// Maps an error to the numeric code a control-plane caller receives.
pub fn to_errno(e: &Error) -> (code: i32)
    ensures
        code == match e {
            Error::Config(_) => ERR_CONFIG,
            Error::NoConfigFile => ERR_NO_CONFIG_FILE,
            Error::Io(_) => ERR_IO,
            Error::Watcher(_) => ERR_WATCHER,
            Error::AsyncChannelSend(_) => ERR_ASYNC_CHANNEL_SEND,
            Error::SyncChannelRecv(_) => ERR_SYNC_CHANNEL_RECV,
            Error::RuntimeManager => ERR_RUNTIME_MANAGER,
        },
{
    match e {
        Error::Config(_) => ERR_CONFIG,
        Error::NoConfigFile => ERR_NO_CONFIG_FILE,
        Error::Io(_) => ERR_IO,
        Error::Watcher(_) => ERR_WATCHER,
        Error::AsyncChannelSend(_) => ERR_ASYNC_CHANNEL_SEND,
        Error::SyncChannelRecv(_) => ERR_SYNC_CHANNEL_RECV,
        Error::RuntimeManager => ERR_RUNTIME_MANAGER,
    }
}

} // verus!
