//! A process-local structured-event logger: console output filtered by level,
//! and a shipping pipeline that queues events, renders them as CLEF records,
//! packs the records into size-bounded chunks and decides how each upload is
//! retried.
//!
//! The library decides and computes; it performs no input or output. The
//! process around it reads the clock, prints what the console is to show,
//! sleeps, and uploads the chunks.

pub mod console_printer;
pub mod date_time;
pub mod log_event;
pub mod log_event_ctx;
pub mod log_events_queue;
pub mod log_readers;
pub mod log_statistics;
pub mod logger;
pub mod logger_reader;
pub mod my_logger_inner;
pub mod populated_params;
pub mod seq_logger;
pub mod seq_logger_inner;
pub mod seq_utils;
pub mod serializer;
pub mod settings;
pub mod text;
pub mod upload_logs_chunk;

pub use console_printer::{ConsoleFilter, ConsoleOutput};
pub use date_time::{CivilDateTime, Timestamp};
pub use log_event::{LogLevel, MyLogEvent};
pub use log_event_ctx::LogEventCtx;
pub use log_events_queue::{InFlight, LogEventsQueue, QueuedEvent};
pub use log_readers::LogReaders;
pub use log_statistics::LogsStatistics;
pub use logger::MyLogger;
pub use logger_reader::MyLoggerReader;
pub use my_logger_inner::MyLoggerInner;
pub use populated_params::PopulatedParams;
pub use seq_logger::{on_fatal, panic_wait, PanicWait, SeqLogger};
pub use seq_logger_inner::{SeqLoggerInner, ShippingCycle, TickAction, UploadAction, UploadStep};
pub use seq_utils::{format_seq_string, format_value};
pub use serializer::{compile_body, serialize, ContextType};
pub use settings::{SeqLoggerSettings, SeqSettings, SettingsError};
pub use upload_logs_chunk::{
    is_status_code_ok, pack_chunks, upload_request, upload_verdict, LogsChunk, UploadOutcome,
    UploadRequest, UploadVerdict,
};
