use availability_recovery::error::{
    log_error, DbError, Error, FatalError, JfyiError, LogLevel, LogRecord,
};

#[test]
fn log_error_hands_on_fatal_errors() {
    assert_eq!(
        log_error(Err(Error::Fatal(FatalError::CanceledBlockNumber))),
        Err(FatalError::CanceledBlockNumber)
    );
    assert_eq!(
        log_error(Err(Error::Fatal(FatalError::SpawnFailed("no room".to_string())))),
        Err(FatalError::SpawnFailed("no room".to_string()))
    );
}

#[test]
fn log_error_eats_other_errors() {
    assert_eq!(log_error(Ok(())), Ok(None));
    assert_eq!(
        log_error(Err(Error::Jfyi(JfyiError::Oneshot))),
        Ok(Some(LogRecord { level: LogLevel::Debug, error: JfyiError::Oneshot }))
    );
    assert_eq!(
        log_error(Err(Error::Jfyi(JfyiError::Codec("bad".to_string())))),
        Ok(Some(LogRecord { level: LogLevel::Warn, error: JfyiError::Codec("bad".to_string()) }))
    );
}

#[test]
fn common_errors_go_to_the_debug_log() {
    assert_eq!(JfyiError::RuntimeApi("x".to_string()).log().level, LogLevel::Debug);
    assert_eq!(JfyiError::Oneshot.log().level, LogLevel::Debug);
    assert_eq!(JfyiError::ChainApi("x".to_string()).log().level, LogLevel::Warn);
    assert_eq!(JfyiError::Io("x".to_string()).log().level, LogLevel::Warn);
    assert_eq!(JfyiError::DisputeImportOneshotSend.log().level, LogLevel::Warn);
    assert_eq!(JfyiError::Subsystem("x".to_string()).log().level, LogLevel::Warn);
    assert_eq!(JfyiError::RollingSessionWindow("x".to_string()).log().level, LogLevel::Warn);
    assert_eq!(JfyiError::Runtime("x".to_string()).log().level, LogLevel::Warn);
    assert_eq!(JfyiError::QueueError("x".to_string()).log().level, LogLevel::Warn);
    let record = JfyiError::Io("disk".to_string()).log();
    assert_eq!(record.error, JfyiError::Io("disk".to_string()));
}

#[test]
fn database_errors_are_not_fatal() {
    let io = Error::from(DbError::Io("disk".to_string()));
    assert_eq!(io, Error::Jfyi(JfyiError::Io("disk".to_string())));
    assert!(!io.is_fatal());
    let codec = Error::from(DbError::Codec("bytes".to_string()));
    assert_eq!(codec, Error::Jfyi(JfyiError::Codec("bytes".to_string())));
    assert!(Error::Fatal(FatalError::ParticipationWorkerReceiverExhausted).is_fatal());
}

#[test]
fn results_are_parted_by_fatality() {
    assert_eq!(Error::into_nested(Ok(())), Ok(Ok(())));
    assert_eq!(
        Error::into_nested(Err(Error::Jfyi(JfyiError::Oneshot))),
        Ok(Err(JfyiError::Oneshot))
    );
    assert_eq!(
        Error::into_nested(Err(Error::Fatal(FatalError::DbWriteFailed("full".to_string())))),
        Err(FatalError::DbWriteFailed("full".to_string()))
    );
}
