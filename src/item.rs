//! Subtitle records and the builder that gathers one record's fields.
use vstd::prelude::*;

use crate::text::{decimal, push_char, push_decimal};
use crate::time::Time;

verus! {

/// A subtitle item
#[derive(Clone, Debug)]
pub struct Item {
    /// A number indicating which subtitle it is in the sequence
    pub pos: usize,
    /// The time that the subtitle should appear
    pub start_time: Time,
    /// The time that the subtitle should disappear
    pub end_time: Time,
    /// The subtitle itself
    pub text: String,
}

/// What an item holds, with its text as characters.
pub struct ItemModel {
    pub pos: usize,
    pub start_time: Time,
    pub end_time: Time,
    pub text: Seq<char>,
}

impl View for Item {
    type V = ItemModel;

    open spec fn view(&self) -> ItemModel {
        ItemModel {
            pos: self.pos,
            start_time: self.start_time,
            end_time: self.end_time,
            text: self.text@,
        }
    }
}

/// An item in its text form: the position, the time range, the text, one to a
/// line.
pub open spec fn item_text(m: ItemModel) -> Seq<char> {
    decimal(m.pos as nat) + seq!['\n'] + m.start_time.text() + seq!['-', '-', '>']
        + m.end_time.text() + seq!['\n'] + m.text
}

/// Appends an item's text form.
pub(crate) fn push_item(
    out: &mut String,
    pos: usize,
    start_time: &Time,
    end_time: &Time,
    text: &String,
)
    ensures
        final(out)@ == old(out)@ + item_text(
            ItemModel { pos, start_time: *start_time, end_time: *end_time, text: text@ },
        ),
{
    push_decimal(out, pos as u64);
    push_char(out, '\n');
    out.append(start_time.to_string().as_str());
    out.append("-->");
    out.append(end_time.to_string().as_str());
    push_char(out, '\n');
    out.append(text.as_str());
    proof {
        reveal_strlit("-->");
    }
    assert(final(out)@ =~= old(out)@ + item_text(
        ItemModel { pos, start_time: *start_time, end_time: *end_time, text: text@ },
    ));
}

impl Item {
    /// The item in its text form.
    pub fn to_string(&self) -> (r: String)
        ensures
            r@ == item_text(self@),
    {
        let mut out = String::new();
        push_item(&mut out, self.pos, &self.start_time, &self.end_time, &self.text);
        out
    }
}

impl PartialEq for Item {
    fn eq(&self, other: &Item) -> bool {
        self.pos == other.pos && self.start_time == other.start_time && self.end_time
            == other.end_time && self.text == other.text
    }
}

impl vstd::std_specs::cmp::PartialEqSpecImpl for Item {
    open spec fn obeys_eq_spec() -> bool {
        true
    }

    open spec fn eq_spec(&self, other: &Item) -> bool {
        self@ == other@
    }
}

/// Could not create subtitle
#[derive(Clone, Copy, Debug, PartialEq, Eq, Structural)]
pub enum ItemFactoryError {
    /// Subtitle position is missing
    NoPosition,
    /// Subtitle start time is missing
    NoStartTime,
    /// Subtitle end time is missing
    NoEndTime,
    /// Subtitle text is missing
    NoText,
}

/// The words for a missing field.
pub open spec fn factory_message(e: ItemFactoryError) -> Seq<char> {
    match e {
        ItemFactoryError::NoPosition => "item position is missing"@,
        ItemFactoryError::NoStartTime => "item start time is missing"@,
        ItemFactoryError::NoEndTime => "item end time is missing"@,
        ItemFactoryError::NoText => "item text is missing"@,
    }
}

impl ItemFactoryError {
    /// What went wrong, in words.
    pub fn to_string(&self) -> (r: String)
        ensures
            r@ == factory_message(*self),
    {
        match self {
            ItemFactoryError::NoPosition => "item position is missing".to_owned(),
            ItemFactoryError::NoStartTime => "item start time is missing".to_owned(),
            ItemFactoryError::NoEndTime => "item end time is missing".to_owned(),
            ItemFactoryError::NoText => "item text is missing".to_owned(),
        }
    }
}

/// The fields of one record gathered so far.
pub struct Partial {
    pub pos: Option<usize>,
    pub start_time: Option<Time>,
    pub end_time: Option<Time>,
    pub text: Option<Seq<char>>,
}

impl Partial {
    pub open spec fn empty() -> Partial {
        Partial { pos: None, start_time: None, end_time: None, text: None }
    }

    /// The record with one more line of text: the first line sets the text,
    /// each later one is joined to it by a line feed.
    pub open spec fn append(self, line: Seq<char>) -> Partial {
        Partial {
            text: match self.text {
                Some(t) => Some(t + seq!['\n'] + line),
                None => Some(line),
            },
            ..self
        }
    }

    /// The finished record, or the first field that is missing.
    pub open spec fn finish(self) -> Result<ItemModel, ItemFactoryError> {
        if self.pos is None {
            Err(ItemFactoryError::NoPosition)
        } else if self.start_time is None {
            Err(ItemFactoryError::NoStartTime)
        } else if self.end_time is None {
            Err(ItemFactoryError::NoEndTime)
        } else if self.text is None {
            Err(ItemFactoryError::NoText)
        } else {
            Ok(
                ItemModel {
                    pos: self.pos->0,
                    start_time: self.start_time->0,
                    end_time: self.end_time->0,
                    text: self.text->0,
                },
            )
        }
    }
}

/// Gathers the fields of one record as they arrive.
pub(crate) struct ItemFactory {
    pos: Option<usize>,
    start_time: Option<Time>,
    end_time: Option<Time>,
    text: Option<String>,
}

impl View for ItemFactory {
    type V = Partial;

    closed spec fn view(&self) -> Partial {
        Partial {
            pos: self.pos,
            start_time: self.start_time,
            end_time: self.end_time,
            text: match self.text {
                Some(t) => Some(t@),
                None => None,
            },
        }
    }
}

/// The view of a finished record.
pub open spec fn item_result(r: Result<Item, ItemFactoryError>) -> Result<ItemModel, ItemFactoryError> {
    match r {
        Ok(i) => Ok(i@),
        Err(e) => Err(e),
    }
}

impl ItemFactory {
    pub(crate) fn new() -> (r: ItemFactory)
        ensures
            r@ == Partial::empty(),
    {
        ItemFactory { pos: None, start_time: None, end_time: None, text: None }
    }

    pub(crate) fn set_pos(&mut self, pos: usize)
        ensures
            final(self)@ == (Partial { pos: Some(pos), ..old(self)@ }),
    {
        self.pos = Some(pos);
    }

    pub(crate) fn set_start_time(&mut self, start_time: Time)
        ensures
            final(self)@ == (Partial { start_time: Some(start_time), ..old(self)@ }),
    {
        self.start_time = Some(start_time);
    }

    pub(crate) fn set_end_time(&mut self, end_time: Time)
        ensures
            final(self)@ == (Partial { end_time: Some(end_time), ..old(self)@ }),
    {
        self.end_time = Some(end_time);
    }

    /// Adds the line `v[lo..hi]` to the text.
    pub(crate) fn append_text(&mut self, v: &Vec<char>, lo: usize, hi: usize)
        requires
            lo <= hi <= v.len(),
        ensures
            final(self)@ == old(self)@.append(v@.subrange(lo as int, hi as int)),
    {
        let mut text = match self.text.take() {
            Some(mut t) => {
                push_char(&mut t, '\n');
                t
            },
            None => String::new(),
        };
        let ghost start = text@;
        let mut i: usize = lo;
        while i < hi
            invariant
                lo <= i <= hi <= v.len(),
                text@ == start + v@.subrange(lo as int, i as int),
            decreases hi - i,
        {
            push_char(&mut text, v[i]);
            i = i + 1;
            assert(text@ =~= start + v@.subrange(lo as int, i as int));
        }
        self.text = Some(text);
        assert(final(self)@.text =~= old(self)@.append(v@.subrange(lo as int, hi as int)).text);
    }

    /// Whether a record is under way: its position has been set.
    pub(crate) fn maybe_ready(&self) -> (r: bool)
        ensures
            r == (self@.pos is Some),
    {
        self.pos.is_some()
    }

    /// Hands out the record and empties the builder.
    pub(crate) fn take(&mut self) -> (r: Result<Item, ItemFactoryError>)
        ensures
            item_result(r) == old(self)@.finish(),
            final(self)@ == Partial::empty(),
    {
        let pos = self.pos.take();
        let start_time = self.start_time.take();
        let end_time = self.end_time.take();
        let text = self.text.take();
        match (pos, start_time, end_time, text) {
            (None, _, _, _) => Err(ItemFactoryError::NoPosition),
            (_, None, _, _) => Err(ItemFactoryError::NoStartTime),
            (_, _, None, _) => Err(ItemFactoryError::NoEndTime),
            (_, _, _, None) => Err(ItemFactoryError::NoText),
            (Some(pos), Some(start_time), Some(end_time), Some(text)) => Ok(
                Item { pos, start_time, end_time, text },
            ),
        }
    }
}

} // verus!
