//! Running subprocesses with their output captured as structured log records, and reading
//! those records back.

pub mod client;
pub mod identity;
mod io;
pub mod jobs;
pub mod log;
pub mod log_reader;
pub mod record;
pub mod resource;
pub mod service;
pub mod supervisor;
pub mod text;

pub use log::{encode_header, encode_record, LogWriter};
pub use log_reader::{read_record, ReadError, Reader};
pub use record::{Record, RecordType, HEADER_LENGTH};
pub use resource::{pid_to_name, NoOpController, ResourceController};
pub use supervisor::Supervisor;
