//! A library for reading SubRip (SRT) subtitles: blocks of a position, a time
//! range and lines of text, separated by blank lines.
pub use self::{
    error::Error,
    item::{Item, ItemFactoryError},
    parser::{ParseError, Parser},
    reader::{from_str, ReaderError},
    subtitle::Subtitle,
    time::{ParseTimeError, Time},
};

pub mod error;
pub mod item;
pub mod parser;
pub mod reader;
pub mod subtitle;
pub mod text;
pub mod time;
pub mod laws;
