//! Parser for message, service and action interface definitions.
//!
//! A definition is line-oriented text.  Each line declares a field
//! (`<type> <name> [<default>]`) or a constant (`<type> <NAME> = <value>`);
//! service and action documents hold several message bodies separated by
//! lines that read exactly `---`.  The parser turns such text into the plain
//! data of [`message`], built on the type model of [`types`].

pub mod error;
pub mod foreign;
pub mod message;
pub mod names;
pub mod parser;
pub mod text;
pub mod types;
