//! The verbosity switch and the failures that an import can meet.

use crate::client::{Message, MessageView};
use vstd::prelude::*;
use vstd::string::StringExecFns;

verus! {

/// How much is reported while an import runs.
#[derive(Debug, Clone, Copy, PartialEq, Eq, Structural)]
pub enum Level {
    /// Everything, the diagnostic lines included.
    Debug,
    /// Notices and failures only.
    Info,
}

/// The verbosity switch. It is handed to whoever reports, and starts out at
/// `Level::Info`.
#[derive(Debug)]
pub struct Logger(pub Level);

impl Default for Logger {
    fn default() -> (logger: Logger)
        ensures
            logger.0 == Level::Info,
    {
        Logger(Level::Info)
    }
}

impl Logger {
    /// Turns the diagnostic lines on.
    pub fn set_debug(&mut self)
        ensures
            final(self).0 == Level::Debug,
    {
        self.0 = Level::Debug;
    }

    /// Whether diagnostic lines are reported. Notices and failures always are.
    pub fn is_debug(&self) -> (on: bool)
        ensures
            on == (self.0 == Level::Debug),
    {
        self.0 == Level::Debug
    }
}

/// What went wrong.
#[derive(Debug)]
pub enum ConvertError {
    /// A required column is not named in the header row. Holds the name that
    /// was looked for.
    NotFound(String),
    /// A source could not be read, or holds no header row. Holds the reason.
    Import(String),
    /// The background writer could not be started. Holds the reason.
    Influx(String),
    /// The background writer ended abnormally. Holds what it left behind.
    Join(String),
    /// The writer takes no more items. Holds the item that was turned away:
    /// a message, or `None` for the shutdown signal.
    Send(Option<Message>),
}

/// The result of an operation that can fail with a `ConvertError`.
pub type ConvertResult<T> = Result<T, ConvertError>;

/// What a `ConvertError` holds, as plain values.
pub enum ErrorView {
    NotFound(Seq<char>),
    Import(Seq<char>),
    Influx(Seq<char>),
    Join(Seq<char>),
    Send(Option<MessageView>),
}

impl ErrorView {
    /// The line shown to the user for this failure.
    pub open spec fn text(self) -> Seq<char> {
        match self {
            ErrorView::NotFound(name) => "Header "@ + name + " not found in top row."@,
            ErrorView::Import(reason) => reason + "."@,
            ErrorView::Influx(reason) => reason,
            ErrorView::Join(left) => "Failed to gracefully shutdown the client: "@ + left,
            ErrorView::Send(_) => "sending on a closed channel"@,
        }
    }

    /// A short description of this failure.
    pub open spec fn description(self) -> Seq<char> {
        match self {
            ErrorView::NotFound(name) => name,
            ErrorView::Import(reason) => reason,
            ErrorView::Influx(reason) => reason,
            ErrorView::Join(_) => "Failed to gracefully shutdown the influx client"@,
            ErrorView::Send(_) => "sending on a closed channel"@,
        }
    }
}

impl View for ConvertError {
    type V = ErrorView;

    open spec fn view(&self) -> ErrorView {
        match self {
            ConvertError::NotFound(name) => ErrorView::NotFound(name@),
            ConvertError::Import(reason) => ErrorView::Import(reason@),
            ConvertError::Influx(reason) => ErrorView::Influx(reason@),
            ConvertError::Join(left) => ErrorView::Join(left@),
            ConvertError::Send(item) => ErrorView::Send(
                match item {
                    Some(message) => Some(message@),
                    None => None,
                },
            ),
        }
    }
}

impl ConvertError {
    /// The line shown to the user for this failure.
    pub fn to_string(&self) -> (line: String)
        ensures
            line@ == self@.text(),
    {
        match self {
            ConvertError::NotFound(name) => {
                let mut line = String::from_str("Header ");
                line.append(name.as_str());
                line.append(" not found in top row.");
                line
            },
            ConvertError::Import(reason) => {
                let mut line = reason.clone();
                line.append(".");
                line
            },
            ConvertError::Influx(reason) => reason.clone(),
            ConvertError::Join(left) => {
                let mut line = String::from_str("Failed to gracefully shutdown the client: ");
                line.append(left.as_str());
                line
            },
            ConvertError::Send(_) => String::from_str("sending on a closed channel"),
        }
    }

    /// A short description of this failure.
    pub fn description(&self) -> (short: &str)
        ensures
            short@ == self@.description(),
    {
        match self {
            ConvertError::NotFound(name) => name.as_str(),
            ConvertError::Import(reason) => reason.as_str(),
            ConvertError::Influx(reason) => reason.as_str(),
            ConvertError::Join(_) => "Failed to gracefully shutdown the influx client",
            ConvertError::Send(_) => "sending on a closed channel",
        }
    }
}

} // verus!
