//! Reading a whole text of subtitles at once.
use vstd::prelude::*;

use crate::item::{Item, ItemModel};
use crate::parser::{io_error_text, parse_text, ParseError, ParseFault, Parser};

verus! {

/// An error when reading subtitles
#[derive(Debug)]
pub enum ReaderError {
    /// Could not open a file
    OpenFile(std::io::Error),
    /// Failed to parse subtitles
    Parse(ParseError),
}

/// The records of `items`, each as a successful pull.
pub open spec fn pulled(items: Seq<Item>) -> Seq<Result<ItemModel, ParseFault>> {
    items.map_values(|i: Item| Ok::<ItemModel, ParseFault>(i@))
}

/// Read subtitles from a string: every record, or the first error.
pub fn from_str(input: &str) -> (r: Result<Vec<Item>, ReaderError>)
    ensures
        match r {
            Ok(items) => parse_text(input@) == pulled(items@),
            Err(ReaderError::Parse(e)) => exists|items: Seq<Item>|
                #![trigger pulled(items)]
                parse_text(input@) == pulled(items).push(Err(e@)),
            Err(ReaderError::OpenFile(_)) => false,
        },
{
    let mut parser = Parser::new(input);
    let mut result: Vec<Item> = Vec::new();
    loop
        invariant
            parser.wf(),
            parse_text(input@) == pulled(result@) + parser.pending(),
        decreases parser.pending().len(),
    {
        let ghost before = parser.pending();
        match parser.next() {
            None => {
                assert(pulled(result@) + parser.pending() =~= pulled(result@));
                return Ok(result);
            },
            Some(Ok(item)) => {
                let ghost seen = result@;
                result.push(item);
                assert(pulled(result@) =~= pulled(seen).push(Ok(item@)));
                assert(pulled(result@) + parser.pending() =~= pulled(seen) + before);
            },
            Some(Err(e)) => {
                assert(parse_text(input@) =~= pulled(result@).push(Err(e@))) by {
                    assert(before =~= seq![before[0]]);
                }
                return Err(ReaderError::Parse(e));
            },
        }
    }
}

impl ReaderError {
    /// Whether `t` is this error in words, the wrapped error's own words last.
    pub open spec fn message_is(&self, t: Seq<char>) -> bool {
        match self {
            ReaderError::OpenFile(e) => exists|u: Seq<char>|
                #![trigger io_error_text(e, u)]
                io_error_text(e, u) && t == "could not open a file: "@ + u,
            ReaderError::Parse(e) => exists|u: Seq<char>|
                #![trigger e.message_is(u)]
                e.message_is(u) && t == "parse error: "@ + u,
        }
    }

    /// What went wrong, in words.
    pub fn to_string(&self) -> (r: String)
        ensures
            self.message_is(r@),
    {
        match self {
            ReaderError::OpenFile(e) => {
                let words = e.to_string();
                let mut out = "could not open a file: ".to_owned();
                out.append(words.as_str());
                assert(io_error_text(e, words@));
                out
            },
            ReaderError::Parse(e) => {
                let words = e.to_string();
                let mut out = "parse error: ".to_owned();
                out.append(words.as_str());
                assert(e.message_is(words@));
                out
            },
        }
    }
}

impl From<ParseError> for ReaderError {
    fn from(err: ParseError) -> ReaderError {
        ReaderError::Parse(err)
    }
}

impl vstd::std_specs::convert::FromSpecImpl<ParseError> for ReaderError {
    open spec fn obeys_from_spec() -> bool {
        true
    }

    open spec fn from_spec(err: ParseError) -> ReaderError {
        ReaderError::Parse(err)
    }
}

} // verus!
