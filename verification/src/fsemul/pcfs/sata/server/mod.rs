//! State that a PCFS SATA server keeps per connection, and what it decides
//! while answering requests.

pub mod connection_flags;
pub mod decisions;
pub mod query_answers;
pub mod wal;
pub mod wal_lines;
