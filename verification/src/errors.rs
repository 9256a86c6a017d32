//! Error types of the coordinator and its clients.

use vstd::prelude::*;

verus! {

/// Application-level errors of the coordinator binary.
#[derive(Debug)]
pub enum AppError {
    /// A required configuration file cannot be found.
    ConfigNotFound(String),
    /// A configuration file cannot be parsed.
    ConfigParse(String),
    /// A port number is invalid.
    InvalidPort(String),
    /// A required environment variable is missing.
    MissingEnvVar(String),
    /// A socket operation failed.
    SocketError(String),
    /// An input/output operation failed; the text carries the description.
    IoError(String),
    /// Anything else.
    Other(String),
}

/// The printed description of each application error.
pub open spec fn spec_app_error_message(e: AppError) -> Seq<char> {
    match e {
        AppError::ConfigNotFound(m) => "Configuration error: "@ + m@,
        AppError::ConfigParse(m) => "Failed to parse config: "@ + m@,
        AppError::InvalidPort(m) => "Invalid port: "@ + m@,
        AppError::MissingEnvVar(m) => "Missing environment variable: "@ + m@,
        AppError::SocketError(m) => "Socket error: "@ + m@,
        AppError::IoError(m) => "I/O error: "@ + m@,
        AppError::Other(m) => "Internal/Other error: "@ + m@,
    }
}

impl AppError {
    /// The single-line description a hook prints before it exits nonzero.
    pub fn message(&self) -> (r: String)
        ensures
            r@ == spec_app_error_message(*self),
    {
        let mut out = String::new();
        match self {
            AppError::ConfigNotFound(m) => {
                out.append("Configuration error: ");
                out.append(m.as_str());
            },
            AppError::ConfigParse(m) => {
                out.append("Failed to parse config: ");
                out.append(m.as_str());
            },
            AppError::InvalidPort(m) => {
                out.append("Invalid port: ");
                out.append(m.as_str());
            },
            AppError::MissingEnvVar(m) => {
                out.append("Missing environment variable: ");
                out.append(m.as_str());
            },
            AppError::SocketError(m) => {
                out.append("Socket error: ");
                out.append(m.as_str());
            },
            AppError::IoError(m) => {
                out.append("I/O error: ");
                out.append(m.as_str());
            },
            AppError::Other(m) => {
                out.append("Internal/Other error: ");
                out.append(m.as_str());
            },
        }
        out
    }
}

/// Errors of the logging setup.
#[derive(Debug)]
pub enum LoggerError {
    /// Opening or writing the log file failed.
    IoError(String),
    /// A log path could not be turned into text.
    PathConversion(String),
    /// The logger could not be installed.
    LoggerInitError(String),
}

/// The printed description of each logger error.
pub open spec fn spec_logger_error_message(e: LoggerError) -> Seq<char> {
    match e {
        LoggerError::IoError(m) => "IO Error: "@ + m@,
        LoggerError::PathConversion(m) => "Path conversion error: "@ + m@,
        LoggerError::LoggerInitError(m) => "Logger initialization error: "@ + m@,
    }
}

impl LoggerError {
    pub fn message(&self) -> (r: String)
        ensures
            r@ == spec_logger_error_message(*self),
    {
        let mut out = String::new();
        match self {
            LoggerError::IoError(m) => {
                out.append("IO Error: ");
                out.append(m.as_str());
            },
            LoggerError::PathConversion(m) => {
                out.append("Path conversion error: ");
                out.append(m.as_str());
            },
            LoggerError::LoggerInitError(m) => {
                out.append("Logger initialization error: ");
                out.append(m.as_str());
            },
        }
        out
    }
}

/// Errors of the hook client.
#[derive(Debug)]
pub enum ClientError {
    /// Connecting, reading or writing failed; the text carries the
    /// description.
    Connection(String),
    /// The coordinator's reply could not be read as text.
    ResponseParse(String),
    /// The coordinator replied with something other than an
    /// acknowledgment.
    ServerError(String),
    /// The image streamer failed.
    StreamerError(String),
}

/// The printed description of each client error.
pub open spec fn spec_client_error_message(e: ClientError) -> Seq<char> {
    match e {
        ClientError::Connection(m) => "Connection error: "@ + m@,
        ClientError::ResponseParse(m) => "Failed to parse response: "@ + m@,
        ClientError::ServerError(m) => "Server returned error response: "@ + m@,
        ClientError::StreamerError(m) => "Streamer error: "@ + m@,
    }
}

impl ClientError {
    pub fn message(&self) -> (r: String)
        ensures
            r@ == spec_client_error_message(*self),
    {
        let mut out = String::new();
        match self {
            ClientError::Connection(m) => {
                out.append("Connection error: ");
                out.append(m.as_str());
            },
            ClientError::ResponseParse(m) => {
                out.append("Failed to parse response: ");
                out.append(m.as_str());
            },
            ClientError::ServerError(m) => {
                out.append("Server returned error response: ");
                out.append(m.as_str());
            },
            ClientError::StreamerError(m) => {
                out.append("Streamer error: ");
                out.append(m.as_str());
            },
        }
        out
    }
}

} // verus!
