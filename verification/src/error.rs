//! The errors of the dispute coordinator: which of them end the subsystem,
//! and how loudly the others are reported.

use vstd::prelude::*;

verus! {

/// An error of the database layer.
#[derive(Debug, PartialEq, Eq)]
pub enum DbError {
    Io(String),
    Codec(String),
}

/// An error that ends the subsystem.
#[derive(Debug, PartialEq, Eq)]
pub enum FatalError {
    /// Accessing runtime information failed for good.
    Runtime(String),
    /// The subsystem's context reported an error.
    SubsystemContext(String),
    /// Spawning a task failed.
    SpawnFailed(String),
    /// The receiver of the participation worker is exhausted.
    ParticipationWorkerReceiverExhausted,
    /// Receiving a message from the overseer failed.
    SubsystemReceive(String),
    /// Writing to the database failed.
    DbWriteFailed(String),
    /// The request for a block number was dropped.
    CanceledBlockNumber,
    /// The chain API failed to give a block number.
    ChainApiBlockNumber(String),
}

/// An error that is reported and otherwise passed over.
#[derive(Debug, PartialEq, Eq)]
pub enum JfyiError {
    RuntimeApi(String),
    ChainApi(String),
    Io(String),
    Oneshot,
    /// Confirming the import of a dispute failed: the receiver is gone.
    DisputeImportOneshotSend,
    Subsystem(String),
    Codec(String),
    /// The window of sessions could not get the session's information.
    RollingSessionWindow(String),
    /// Accessing runtime information failed this time.
    Runtime(String),
    QueueError(String),
}

/// Any error of the dispute coordinator.
#[derive(Debug, PartialEq, Eq)]
pub enum Error {
    Fatal(FatalError),
    Jfyi(JfyiError),
}

/// How loudly an error is reported.
#[derive(Clone, Copy, Debug, PartialEq, Eq, Structural)]
pub enum LogLevel {
    Debug,
    Warn,
}

/// An error that is to be written to the log, and at which level.
#[derive(Debug, PartialEq, Eq)]
pub struct LogRecord {
    pub level: LogLevel,
    pub error: JfyiError,
}

/// The level at which an error is reported: failures of the runtime API and
/// dropped requests are common and go to the debug log, everything else is a
/// warning.
pub open spec fn log_level(error: JfyiError) -> LogLevel {
    match error {
        JfyiError::RuntimeApi(_) | JfyiError::Oneshot => LogLevel::Debug,
        _ => LogLevel::Warn,
    }
}

/// The error that a database error becomes.
pub open spec fn db_error_as_error(error: DbError) -> Error {
    match error {
        DbError::Io(io) => Error::Jfyi(JfyiError::Io(io)),
        DbError::Codec(codec) => Error::Jfyi(JfyiError::Codec(codec)),
    }
}

/// What `log_error` makes of a result: a fatal error stays an error; any
/// other error becomes a record for the log; success stays success.
pub open spec fn logged(result: Result<(), Error>) -> Result<Option<LogRecord>, FatalError> {
    match result {
        Ok(()) => Ok(None),
        Err(Error::Fatal(fatal)) => Err(fatal),
        Err(Error::Jfyi(jfyi)) => Ok(Some(LogRecord { level: log_level(jfyi), error: jfyi })),
    }
}

impl Error {
    /// Whether the error ends the subsystem.
    pub fn is_fatal(&self) -> (fatal: bool)
        ensures
            fatal == (self is Fatal),
    {
        match self {
            Error::Fatal(_) => true,
            Error::Jfyi(_) => false,
        }
    }

    /// Parts a result into what ends the subsystem and what does not.
    pub fn into_nested(result: Result<(), Error>) -> (nested: Result<
        Result<(), JfyiError>,
        FatalError,
    >)
        ensures
            nested == (match result {
                Ok(()) => Ok(Ok(())),
                Err(Error::Fatal(fatal)) => Err(fatal),
                Err(Error::Jfyi(jfyi)) => Ok(Err(jfyi)),
            }),
    {
        match result {
            Ok(()) => Ok(Ok(())),
            Err(Error::Fatal(fatal)) => Err(fatal),
            Err(Error::Jfyi(jfyi)) => Ok(Err(jfyi)),
        }
    }
}

impl From<DbError> for Error {
    /// A database error is never fatal.
    fn from(error: DbError) -> (out: Self) {
        match error {
            DbError::Io(io) => Error::Jfyi(JfyiError::Io(io)),
            DbError::Codec(codec) => Error::Jfyi(JfyiError::Codec(codec)),
        }
    }
}

impl vstd::std_specs::convert::FromSpecImpl<DbError> for Error {
    open spec fn obeys_from_spec() -> bool {
        true
    }

    open spec fn from_spec(error: DbError) -> Error {
        db_error_as_error(error)
    }
}

impl JfyiError {
    /// The record with which the error goes to the log.
    pub fn log(self) -> (record: LogRecord)
        ensures
            record.level == log_level(self),
            record.error == self,
    {
        let level = match &self {
            JfyiError::RuntimeApi(_) => LogLevel::Debug,
            JfyiError::Oneshot => LogLevel::Debug,
            _ => LogLevel::Warn,
        };
        LogRecord { level, error: self }
    }
}

/// Eats an error at the top level: a fatal error is handed on; any other
/// error is turned into a record for the log, and the result is a success.
pub fn log_error(result: Result<(), Error>) -> (out: Result<Option<LogRecord>, FatalError>)
    ensures
        out == logged(result),
{
    match Error::into_nested(result) {
        Err(fatal) => Err(fatal),
        Ok(Ok(())) => Ok(None),
        Ok(Err(jfyi)) => Ok(Some(jfyi.log())),
    }
}

} // verus!
