//! Packet bodies of the PCFS SATA protocol.

pub mod close_folder;
pub mod read_directory;
pub mod read_folder;
pub mod rewind_directory;
pub mod rewind_folder;
pub mod stat_file;
pub mod ping;
pub mod location;
pub mod read_file;
pub mod write_file;
pub mod set_file_position;
pub mod path_field;
pub mod remove;
pub mod create_directory;
pub mod create_folder;
pub mod get_info_by_query;
pub mod rename;
pub mod open_file;
