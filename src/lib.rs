//! A small command-line tokenizer: each raw token is classified as a
//! positional value, an option (short `-x` or long `--xxx`, with or without an
//! inline argument) or the `--` separator, together with how many tokens that
//! reading consumes.
pub mod arg;
pub mod collector;
pub mod dispatch;
pub mod tokenizer;

pub use arg::{Arg, ArgView};
pub use collector::{arg_parse_a, collect_arguments};
pub use dispatch::{handle_terminal_option, Dispatch};
pub use tokenizer::{arg_parse, Parsed};
