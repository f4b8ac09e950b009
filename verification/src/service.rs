//! The errors of the service.
use vstd::prelude::*;
use crate::config::ConfigError;
use crate::winsys::WinError;

verus! {

/// Why an operation of the service failed.
#[derive(Debug)]
pub enum AppError {
    Message(String),
    Config(ConfigError),
    Io(String),
    Reqwest(String),
    TomlSer(String),
    TomlDe(String),
    Windows(WinError),
    Service(String),
}

impl AppError {
    /// An error with a message of its own.
    pub fn msg(message: String) -> (e: AppError)
        ensures
            e == AppError::Message(message),
    {
        AppError::Message(message)
    }
}

} // verus!
