//! A subtitle record on its own.
use vstd::prelude::*;

use crate::item::{item_text, push_item, ItemModel};
use crate::time::Time;

verus! {

/// A subtitle item
#[derive(Debug)]
pub struct Subtitle {
    /// A number indicating which subtitle it is in the sequence
    pub pos: usize,
    /// The time that the subtitle should appear
    pub start_time: Time,
    /// The time that the subtitle should disappear
    pub end_time: Time,
    /// The subtitle itself
    pub text: String,
}

impl Subtitle {
    /// The subtitle in its text form: the position, the time range, the text,
    /// one to a line.
    pub fn to_string(&self) -> (r: String)
        ensures
            r@ == item_text(
                ItemModel {
                    pos: self.pos,
                    start_time: self.start_time,
                    end_time: self.end_time,
                    text: self.text@,
                },
            ),
    {
        let mut out = String::new();
        push_item(&mut out, self.pos, &self.start_time, &self.end_time, &self.text);
        out
    }
}

} // verus!
