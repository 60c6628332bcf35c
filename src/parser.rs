//! The parsing state machine: lines in, one subtitle record at a time out.
use vstd::prelude::*;

use core::num::ParseIntError;

use crate::item::{factory_message, Item, ItemFactory, ItemFactoryError, ItemModel, Partial};
use crate::text::{
    chars_of, copy_range, find_arrow, lemma_split_arrow_step, lines_of, read_usize,
    reads_within, split_arrow, split_lines, string_of, trim, trim_bounds, unsigned_value, views,
    BOM,
};
use crate::time::{int_error_text, time_of, ParseTimeError, Time, TimeFault};
use vstd::string::to_string_from_display_ensures;

verus! {

/// std's I/O error, carried as an opaque value.
#[verifier::external_type_specification]
#[verifier::external_body]
pub struct ExIoError(std::io::Error);

/// An error when parsing a subtitle
#[derive(Debug)]
pub enum ParseError {
    /// An error when parsing subtitle position
    BadPosition(ParseIntError),
    /// Can not create subtitle item
    CreateSubtitle(ItemFactoryError),
    /// An extra time part found in subtitle, there should be start and end only
    ExtraTimePart(String),
    /// Could not parse start time
    ParseTimeStart(ParseTimeError),
    /// Could not parse end time
    ParseTimeEnd(ParseTimeError),
    /// Could not read a line
    ReadLine(std::io::Error),
    /// Input ends unexpectedly
    UnexpectedEnd,
}

/// What went wrong in parsing, without the integer and I/O errors' detail.
pub enum ParseFault {
    BadPosition,
    CreateSubtitle(ItemFactoryError),
    ExtraTimePart(Seq<char>),
    ParseTimeStart(TimeFault),
    ParseTimeEnd(TimeFault),
    ReadLine,
    UnexpectedEnd,
}

impl View for ParseError {
    type V = ParseFault;

    open spec fn view(&self) -> ParseFault {
        match self {
            ParseError::BadPosition(_) => ParseFault::BadPosition,
            ParseError::CreateSubtitle(e) => ParseFault::CreateSubtitle(*e),
            ParseError::ExtraTimePart(part) => ParseFault::ExtraTimePart(part@),
            ParseError::ParseTimeStart(e) => ParseFault::ParseTimeStart(e@),
            ParseError::ParseTimeEnd(e) => ParseFault::ParseTimeEnd(e@),
            ParseError::ReadLine(_) => ParseFault::ReadLine,
            ParseError::UnexpectedEnd => ParseFault::UnexpectedEnd,
        }
    }
}

/// One pull of the parser, as a value: a record or what went wrong.
pub type Outcome = Result<ItemModel, ParseFault>;

/// The view of one pull's result.
pub open spec fn outcome(r: Result<Item, ParseError>) -> Outcome {
    match r {
        Ok(i) => Ok(i@),
        Err(e) => Err(e@),
    }
}

/// `l` without one leading byte-order mark.
pub open spec fn strip_bom(l: Seq<char>) -> Seq<char> {
    if l.len() > 0 && l[0] == BOM {
        l.drop_first()
    } else {
        l
    }
}

/// The position line at `i`, trimmed; the first line of all loses a
/// byte-order mark first.
pub open spec fn pos_line(lines: Seq<Seq<char>>, i: int) -> Seq<char> {
    if i == 0 {
        trim(strip_bom(lines[0]))
    } else {
        trim(lines[i])
    }
}

/// The position that a trimmed line reads as.
pub open spec fn position_of(s: Seq<char>) -> Option<usize> {
    if reads_within(s, usize::MAX as nat) {
        Some(unsigned_value(s)->0 as usize)
    } else {
        None
    }
}

/// A time-range line: its trimmed text split at `-->` into the start, the end
/// if there is one, and no third part.
pub open spec fn time_range(line: Seq<char>) -> Result<(Time, Option<Time>), ParseFault> {
    let parts = split_arrow(trim(line));
    match time_of(parts[0]) {
        Err(f) => Err(ParseFault::ParseTimeStart(f)),
        Ok(start) => if parts.len() < 2 {
            Ok((start, None))
        } else {
            match time_of(parts[1]) {
                Err(f) => Err(ParseFault::ParseTimeEnd(f)),
                Ok(end) => if parts.len() > 2 {
                    Err(ParseFault::ExtraTimePart(parts[2]))
                } else {
                    Ok((start, Some(end)))
                },
            }
        },
    }
}

/// The record gathered so far, finished.
pub open spec fn finished(b: Partial) -> Outcome {
    match b.finish() {
        Ok(m) => Ok(m),
        Err(e) => Err(ParseFault::CreateSubtitle(e)),
    }
}

/// The builder with a position and a time range, and no text yet.
pub open spec fn timed(p: usize, start: Time, end: Option<Time>) -> Partial {
    Partial { pos: Some(p), start_time: Some(start), end_time: end, text: None }
}

/// What the parser yields from the position line at `i` on. A pull ends at
/// the first error: nothing follows one.
pub open spec fn records_from(lines: Seq<Seq<char>>, i: int) -> Seq<Outcome>
    decreases lines.len() - i, 1nat,
{
    if 0 <= i < lines.len() {
        match position_of(pos_line(lines, i)) {
            None => seq![Err(ParseFault::BadPosition)],
            Some(p) => if i + 1 >= lines.len() {
                seq![Err(ParseFault::UnexpectedEnd)]
            } else {
                match time_range(lines[i + 1]) {
                    Err(f) => seq![Err(f)],
                    Ok((start, end)) => text_from(lines, i + 2, timed(p, start, end)),
                }
            },
        }
    } else {
        seq![]
    }
}

/// What the parser yields from the text line at `k` on, with `b` gathered: text
/// lines up to a blank line or the end, then the record, then, where a line
/// follows the blank one, the records from that line on.
pub open spec fn text_from(lines: Seq<Seq<char>>, k: int, b: Partial) -> Seq<Outcome>
    decreases lines.len() - k, 0nat,
{
    if k < 0 || k >= lines.len() {
        seq![finished(b)]
    } else if trim(lines[k]).len() == 0 {
        if k + 1 < lines.len() {
            if finished(b) is Ok {
                seq![finished(b)] + records_from(lines, k + 1)
            } else {
                seq![finished(b)]
            }
        } else {
            seq![finished(b)]
        }
    } else {
        text_from(lines, k + 1, b.append(trim(lines[k])))
    }
}

/// What the parser yields from a list of lines.
pub open spec fn records(lines: Seq<Seq<char>>) -> Seq<Outcome> {
    records_from(lines, 0)
}

/// What the parser yields from a text.
pub open spec fn parse_text(s: Seq<char>) -> Seq<Outcome> {
    records(lines_of(s))
}

/// What follows a position line at `i` whose record is to be handed out first.
pub open spec fn at_pos(lines: Seq<Seq<char>>, i: int, b: Partial) -> Seq<Outcome> {
    if finished(b) is Ok {
        seq![finished(b)] + records_from(lines, i)
    } else {
        seq![finished(b)]
    }
}

/// What follows once the position `p` is read and the time line is at `t`.
pub open spec fn after_pos(lines: Seq<Seq<char>>, t: int, p: usize) -> Seq<Outcome> {
    if t >= lines.len() {
        seq![Err(ParseFault::UnexpectedEnd)]
    } else {
        match time_range(lines[t]) {
            Err(f) => seq![Err(f)],
            Ok((start, end)) => text_from(lines, t + 1, timed(p, start, end)),
        }
    }
}

/// An error is the last thing yielded, and something is always yielded.
pub proof fn lemma_text_from_first(lines: Seq<Seq<char>>, k: int, b: Partial)
    ensures
        text_from(lines, k, b).len() > 0,
        text_from(lines, k, b)[0] is Err ==> text_from(lines, k, b).len() == 1,
    decreases lines.len() - k,
{
    if 0 <= k < lines.len() && trim(lines[k]).len() != 0 {
        lemma_text_from_first(lines, k + 1, b.append(trim(lines[k])));
    }
}

/// An error is the last thing yielded.
pub proof fn lemma_records_from_first(lines: Seq<Seq<char>>, i: int)
    ensures
        records_from(lines, i).len() > 0 && records_from(lines, i)[0] is Err ==> records_from(
            lines,
            i,
        ).len() == 1,
{
    if 0 <= i < lines.len() {
        match position_of(pos_line(lines, i)) {
            None => {},
            Some(p) => if i + 1 < lines.len() {
                match time_range(lines[i + 1]) {
                    Err(f) => {},
                    Ok((start, end)) => lemma_text_from_first(lines, i + 2, timed(p, start, end)),
                }
            },
        }
    }
}

enum State {
    Start,
    Pos(Vec<char>),
    Time,
    Text,
    Stop,
}

/// Subtitles parser: yields the records of a text one at a time.
pub struct Parser {
    lines: Vec<Vec<char>>,
    next: usize,
    state: State,
    factory: ItemFactory,
}

impl Parser {
    /// The lines that the parser reads.
    pub closed spec fn lines(&self) -> Seq<Seq<char>> {
        views(self.lines@)
    }

    /// What the parser has yet to yield.
    pub closed spec fn pending(&self) -> Seq<Outcome> {
        let lines = self.lines();
        let b = self.factory@;
        match self.state {
            State::Start => records(lines),
            State::Pos(_) => if b.pos is Some {
                at_pos(lines, self.next - 1, b)
            } else {
                records_from(lines, self.next - 1)
            },
            State::Time => after_pos(lines, self.next as int, b.pos->0),
            State::Text => text_from(lines, self.next as int, b),
            State::Stop => seq![],
        }
    }

    /// The parser's own consistency.
    pub closed spec fn wf(&self) -> bool {
        let lines = self.lines();
        let b = self.factory@;
        &&& self.next <= lines.len()
        &&& match self.state {
            State::Start => self.next == 0 && b == Partial::empty(),
            State::Pos(line) => {
                &&& 1 <= self.next
                &&& line@ == pos_line(lines, self.next - 1)
                &&& (b.pos is Some || b == Partial::empty())
            },
            State::Time => b == (Partial { pos: b.pos, ..Partial::empty() }) && b.pos is Some,
            State::Text => b.pos is Some,
            State::Stop => true,
        }
    }

    /// Creates a new parser over a text.
    pub fn new(input: &str) -> (r: Parser)
        ensures
            r.wf(),
            r.pending() == parse_text(input@),
    {
        let chars = chars_of(input);
        let lines = split_lines(&chars);
        Parser { lines, next: 0, state: State::Start, factory: ItemFactory::new() }
    }

    fn read_line(&mut self) -> (r: Option<usize>)
        ensures
            final(self).lines == old(self).lines,
            final(self).state == old(self).state,
            final(self).factory == old(self).factory,
            old(self).next < old(self).lines.len() ==> r == Some(old(self).next)
                && final(self).next == old(self).next + 1,
            old(self).next >= old(self).lines.len() ==> r is None
                && final(self).next == old(self).next,
    {
        if self.next < self.lines.len() {
            let i = self.next;
            self.next = self.next + 1;
            Some(i)
        } else {
            None
        }
    }
}

spec fn rank(s: State) -> nat {
    match s {
        State::Start => 3,
        State::Pos(_) => 2,
        State::Time => 1,
        _ => 0,
    }
}

impl Parser {
    proof fn lemma_pending_first(&self)
        requires
            self.wf(),
        ensures
            self.pending().len() > 0 && self.pending()[0] is Err ==> self.pending().len() == 1,
    {
        let lines = self.lines();
        let b = self.factory@;
        match self.state {
            State::Start => lemma_records_from_first(lines, 0),
            State::Pos(_) => if b.pos is None {
                lemma_records_from_first(lines, self.next - 1);
            },
            State::Time => if self.next < lines.len() {
                match time_range(lines[self.next as int]) {
                    Err(f) => {},
                    Ok((start, end)) => lemma_text_from_first(
                        lines,
                        self.next + 1,
                        timed(b.pos->0, start, end),
                    ),
                }
            },
            State::Text => lemma_text_from_first(lines, self.next as int, b),
            State::Stop => {},
        }
    }

    /// Runs the state machine until it has a record, an error, or the end.
    #[verifier::rlimit(60)]
    fn parse_item(&mut self) -> (r: Result<Option<Item>, ParseError>)
        requires
            old(self).wf(),
        ensures
            final(self).lines() == old(self).lines(),
            final(self).next <= final(self).lines().len(),
            r is Ok ==> final(self).wf(),
            match r {
                Ok(None) => old(self).pending().len() == 0 && final(self).pending() == old(
                    self,
                ).pending(),
                Ok(Some(item)) => old(self).pending().len() > 0 && old(self).pending()[0] == Ok::<
                    ItemModel,
                    ParseFault,
                >(item@) && final(self).pending() == old(self).pending().drop_first(),
                Err(e) => old(self).pending().len() > 0 && old(self).pending()[0] == Err::<
                    ItemModel,
                    ParseFault,
                >(e@),
            },
    {
        let ghost want = self.pending();
        let ghost lines = self.lines();
        loop
            invariant
                self.wf(),
                self.lines() == lines,
                self.pending() == want,
                want == old(self).pending(),
                lines == old(self).lines(),
            decreases self.lines.len() - self.next, rank(self.state),
        {
            match &self.state {
                State::Start => {
                    match self.read_line() {
                        None => {
                            return Ok(None);
                        },
                        Some(i) => {
                            let line = &self.lines[i];
                            let lo: usize = if line.len() > 0 && line[0] == BOM {
                                1
                            } else {
                                0
                            };
                            assert(line@.subrange(lo as int, line@.len() as int) =~= strip_bom(
                                line@,
                            ));
                            let (a, b) = trim_bounds(line, lo, line.len());
                            let pos = copy_range(line, a, b);
                            self.state = State::Pos(pos);
                        },
                    }
                },
                State::Pos(line) => {
                    if self.factory.maybe_ready() {
                        let r = self.factory.take();
                        match r {
                            Ok(item) => {
                                return Ok(Some(item));
                            },
                            Err(e) => {
                                return Err(ParseError::CreateSubtitle(e));
                            },
                        }
                    }
                    assert(line@.subrange(0, line@.len() as int) =~= line@);
                    let p = match read_usize(line, 0, line.len()) {
                        Ok(p) => p,
                        Err(e) => {
                            return Err(ParseError::BadPosition(e));
                        },
                    };
                    self.factory.set_pos(p);
                    self.state = State::Time;
                },
                State::Time => {
                    let t = match self.read_line() {
                        None => {
                            return Err(ParseError::UnexpectedEnd);
                        },
                        Some(t) => t,
                    };
                    let line = &self.lines[t];
                    assert(line@.subrange(0, line@.len() as int) =~= line@);
                    let (a, b) = trim_bounds(line, 0, line.len());
                    let k1 = find_arrow(line, a, b);
                    proof {
                        lemma_split_arrow_step(line@, a as int, b as int, k1 as int);
                    }
                    let start = match Time::parse_chars(line, a, k1) {
                        Ok(s) => s,
                        Err(e) => {
                            return Err(ParseError::ParseTimeStart(e));
                        },
                    };
                    self.factory.set_start_time(start);
                    if k1 < b {
                        let k2 = find_arrow(line, k1 + 3, b);
                        proof {
                            lemma_split_arrow_step(line@, k1 + 3, b as int, k2 as int);
                        }
                        let end = match Time::parse_chars(line, k1 + 3, k2) {
                            Ok(e) => e,
                            Err(e) => {
                                return Err(ParseError::ParseTimeEnd(e));
                            },
                        };
                        self.factory.set_end_time(end);
                        if k2 < b {
                            let k3 = find_arrow(line, k2 + 3, b);
                            proof {
                                lemma_split_arrow_step(line@, k2 + 3, b as int, k3 as int);
                            }
                            return Err(ParseError::ExtraTimePart(string_of(line, k2 + 3, k3)));
                        }
                    }
                    self.state = State::Text;
                },
                State::Text => {
                    match self.read_line() {
                        None => {
                            self.state = State::Stop;
                            return match self.factory.take() {
                                Ok(item) => Ok(Some(item)),
                                Err(e) => Err(ParseError::CreateSubtitle(e)),
                            };
                        },
                        Some(k) => {
                            let ghost line = self.lines@[k as int]@;
                            assert(line.subrange(0, line.len() as int) =~= line);
                            let (a, b) = trim_bounds(&self.lines[k], 0, self.lines[k].len());
                            if a == b {
                                match self.read_line() {
                                    Some(j) => {
                                        let nl = &self.lines[j];
                                        assert(nl@.subrange(0, nl@.len() as int) =~= nl@);
                                        let (a2, b2) = trim_bounds(nl, 0, nl.len());
                                        self.state = State::Pos(copy_range(nl, a2, b2));
                                    },
                                    None => {
                                        self.state = State::Stop;
                                        return match self.factory.take() {
                                            Ok(item) => Ok(Some(item)),
                                            Err(e) => Err(ParseError::CreateSubtitle(e)),
                                        };
                                    },
                                }
                            } else {
                                self.factory.append_text(&self.lines[k], a, b);
                            }
                        },
                    }
                },
                State::Stop => {
                    return Ok(None);
                },
            }
        }
    }

    /// The next record, or what went wrong, or `None` at the end. After an
    /// error the parser yields nothing more.
    pub fn next(&mut self) -> (r: Option<Result<Item, ParseError>>)
        requires
            old(self).wf(),
        ensures
            final(self).wf(),
            final(self).lines() == old(self).lines(),
            match r {
                None => old(self).pending().len() == 0 && final(self).pending() == old(
                    self,
                ).pending(),
                Some(x) => old(self).pending().len() > 0 && outcome(x) == old(self).pending()[0]
                    && final(self).pending() == old(self).pending().drop_first(),
            },
            r matches Some(Err(_)) ==> final(self).pending().len() == 0,
    {
        proof {
            self.lemma_pending_first();
        }
        match self.parse_item() {
            Ok(Some(item)) => Some(Ok(item)),
            Ok(None) => None,
            Err(e) => {
                self.state = State::Stop;
                assert(final(self).pending() =~= old(self).pending().drop_first());
                Some(Err(e))
            },
        }
    }
}

/// Whether `t` is what `e` shows as text.
pub open spec fn io_error_text(e: &std::io::Error, t: Seq<char>) -> bool {
    exists|u: String| #[trigger] to_string_from_display_ensures::<std::io::Error>(e, u) && u@ == t
}

impl ParseError {
    /// Whether `t` is this error in words, a wrapped error's own words last.
    pub open spec fn message_is(&self, t: Seq<char>) -> bool {
        match self {
            ParseError::BadPosition(e) => exists|u: Seq<char>|
                #![trigger int_error_text(e, u)]
                int_error_text(e, u) && t == "bad subtitle position: "@ + u,
            ParseError::CreateSubtitle(e) => t == factory_message(*e),
            ParseError::ExtraTimePart(part) => t == "an extra time part found: '"@ + part@
                + "'; there should be start and end only"@,
            ParseError::ParseTimeStart(e) => exists|u: Seq<char>|
                #![trigger e.message_is(u)]
                e.message_is(u) && t == "failed to parse start time: "@ + u,
            ParseError::ParseTimeEnd(e) => exists|u: Seq<char>|
                #![trigger e.message_is(u)]
                e.message_is(u) && t == "failed to parse end time: "@ + u,
            ParseError::ReadLine(e) => exists|u: Seq<char>|
                #![trigger io_error_text(e, u)]
                io_error_text(e, u) && t == "could not read a line from input: "@ + u,
            ParseError::UnexpectedEnd => t == "unexpected end of input"@,
        }
    }

    /// What went wrong, in words.
    pub fn to_string(&self) -> (r: String)
        ensures
            self.message_is(r@),
    {
        match self {
            ParseError::BadPosition(e) => {
                let words = e.to_string();
                let mut out = "bad subtitle position: ".to_owned();
                out.append(words.as_str());
                assert(int_error_text(e, words@));
                out
            },
            ParseError::CreateSubtitle(e) => e.to_string(),
            ParseError::ExtraTimePart(part) => {
                let mut out = "an extra time part found: '".to_owned();
                out.append(part.as_str());
                out.append("'; there should be start and end only");
                out
            },
            ParseError::ParseTimeStart(e) => {
                let words = e.to_string();
                let mut out = "failed to parse start time: ".to_owned();
                out.append(words.as_str());
                assert(e.message_is(words@));
                out
            },
            ParseError::ParseTimeEnd(e) => {
                let words = e.to_string();
                let mut out = "failed to parse end time: ".to_owned();
                out.append(words.as_str());
                assert(e.message_is(words@));
                out
            },
            ParseError::ReadLine(e) => {
                let words = e.to_string();
                let mut out = "could not read a line from input: ".to_owned();
                out.append(words.as_str());
                assert(io_error_text(e, words@));
                out
            },
            ParseError::UnexpectedEnd => "unexpected end of input".to_owned(),
        }
    }
}

impl From<ItemFactoryError> for ParseError {
    fn from(err: ItemFactoryError) -> ParseError {
        ParseError::CreateSubtitle(err)
    }
}

impl vstd::std_specs::convert::FromSpecImpl<ItemFactoryError> for ParseError {
    open spec fn obeys_from_spec() -> bool {
        true
    }

    open spec fn from_spec(err: ItemFactoryError) -> ParseError {
        ParseError::CreateSubtitle(err)
    }
}

} // verus!
