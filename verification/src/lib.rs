pub mod alias_merger;
pub mod alias_parser;
pub mod alias_runtime;
pub mod alias_writer;
pub mod error;
pub mod line_regex;
pub mod text;
pub mod types;
pub mod writer_laws;
pub mod block_laws;
pub mod config_paths;
pub mod scan_laws;
pub mod round_trip;
pub mod backup;
pub mod shell_detect;
