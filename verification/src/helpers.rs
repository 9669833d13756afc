//! Small presentation helpers.

use vstd::prelude::*;

verus! {

/// What truncation yields: the text unchanged when it fits, else its
/// first `max` characters with a three-dot marker appended.
pub open spec fn spec_truncate(s: Seq<char>, max: int) -> Seq<char> {
    if s.len() <= max {
        s
    } else {
        s.take(max) + "..."@
    }
}

/// A string cut down to a maximum length, marked with three dots when it
/// was cut.
pub struct TruncatedString {
    value: String,
}

impl View for TruncatedString {
    type V = Seq<char>;

    closed spec fn view(&self) -> Seq<char> {
        self.value@
    }
}

impl TruncatedString {
    /// Truncates the text to at most `max_length` characters, appending
    /// the marker when anything was cut.
    pub fn new(s: String, max_length: usize) -> (r: Self)
        ensures
            r@ == spec_truncate(s@, max_length as int),
    {
        let n = s.as_str().unicode_len();
        if n <= max_length {
            TruncatedString { value: s }
        } else {
            let mut head = s.as_str().substring_char(0, max_length).to_owned();
            head.append("...");
            proof {
                assert(head@ =~= spec_truncate(s@, max_length as int));
            }
            TruncatedString { value: head }
        }
    }

    /// The truncated text.
    pub fn get(&self) -> (r: &String)
        ensures
            r@ == self@,
    {
        &self.value
    }

    /// Unwraps the truncated text.
    pub fn into_string(self) -> (r: String)
        ensures
            r@ == self@,
    {
        self.value
    }
}

/// Text that can present a truncated form of itself.
pub trait Truncatable {
    /// The text to truncate.
    spec fn text(&self) -> Seq<char>;

    /// The text cut down to at most `max_length` characters, with the
    /// three-dot marker when anything was cut.
    fn truncate_with_dots(&self, max_length: usize) -> (r: String)
        ensures
            r@ == spec_truncate(self.text(), max_length as int),
    ;
}

impl Truncatable for String {
    open spec fn text(&self) -> Seq<char> {
        self@
    }

    fn truncate_with_dots(&self, max_length: usize) -> (r: String) {
        TruncatedString::new(self.clone(), max_length).into_string()
    }
}

} // verus!
