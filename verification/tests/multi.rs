//! Logging to several sinks at once.
use tttt::event::{Direction, LogEvent};
use tttt::logging::{LogError, LogSink, MultiLogger};

/// A sink that keeps what it gets, or fails.
enum Sink {
    Failing,
    Recording(Vec<LogEvent>),
}

impl LogSink for Sink {
    fn log_event(&mut self, event: &LogEvent) -> Result<(), LogError> {
        match self {
            Sink::Failing => Err(LogError::Io("test failure".to_string())),
            Sink::Recording(events) => {
                events.push(event.clone());
                Ok(())
            }
        }
    }

    fn flush(&mut self) -> Result<(), LogError> {
        match self {
            Sink::Failing => Err(LogError::Io("test flush failure".to_string())),
            Sink::Recording(_) => Ok(()),
        }
    }
}

#[test]
fn test_multi_logger_empty() {
    let mut logger: MultiLogger<Sink> = MultiLogger::new();
    assert_eq!(logger.sink_count(), 0);
    let event = LogEvent::with_timestamp(1, "s1".to_string(), Direction::Input, b"a".to_vec());
    logger.log_event(&event).unwrap(); // no sinks, no error
}

#[test]
fn test_multi_logger_dispatches_to_all() {
    let mut logger = MultiLogger::new();
    logger.add_sink(Sink::Recording(Vec::new()));
    logger.add_sink(Sink::Recording(Vec::new()));
    assert_eq!(logger.sink_count(), 2);

    let event = LogEvent::with_timestamp(1, "s1".to_string(), Direction::Input, b"hello".to_vec());
    logger.log_event(&event).unwrap();
}

#[test]
fn test_multi_logger_survives_one_sink_error() {
    let mut logger = MultiLogger::new();
    logger.add_sink(Sink::Failing);
    logger.add_sink(Sink::Recording(Vec::new()));

    let event = LogEvent::with_timestamp(1, "s1".to_string(), Direction::Input, b"a".to_vec());
    // The error of the failing sink comes back, though the other sink got the event.
    let result = logger.log_event(&event);
    assert!(result.is_err());
}

#[test]
fn test_multi_logger_flush() {
    let mut logger = MultiLogger::new();
    logger.add_sink(Sink::Recording(Vec::new()));
    logger.flush().unwrap();
}

#[test]
fn test_multi_logger_default() {
    let logger: MultiLogger<Sink> = MultiLogger::default();
    assert_eq!(logger.sink_count(), 0);
}
