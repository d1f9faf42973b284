//! The memcached text protocol: commands, parser and response builder.
pub mod command;
pub mod parser;
pub mod response;

pub use command::{is_valid_key, Command, MAX_KEY_LENGTH};
pub use parser::{
    parse, parse_storage_command_line, parse_storage_data, ParseResult, PendingStorageCommand,
};
pub use response::ResponseWriter;
