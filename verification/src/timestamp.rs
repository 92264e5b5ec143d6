//! Wall-clock timestamps as plain calendar fields, with their canonical
//! fixed-width text form. The text form is what artifact names and the
//! serialized descriptor carry, so it must be deterministic and injective
//! over well-formed timestamps.

use vstd::prelude::*;
use crate::strutil::{digit_char, digit_char_of, push_char};

verus! {

/// A wall-clock instant, second granularity, as plain calendar fields.
#[derive(PartialEq, Eq, Structural, Clone, Copy, Debug)]
pub struct Timestamp {
    pub year: u64,
    pub month: u64,
    pub day: u64,
    pub hour: u64,
    pub minute: u64,
    pub second: u64,
}

/// Two decimal digits, zero padded.
pub open spec fn pad2(n: nat) -> Seq<char> {
    seq![digit_char(n / 10 % 10), digit_char(n % 10)]
}

/// Four decimal digits, zero padded.
pub open spec fn pad4(n: nat) -> Seq<char> {
    seq![
        digit_char(n / 1000 % 10),
        digit_char(n / 100 % 10),
        digit_char(n / 10 % 10),
        digit_char(n % 10),
    ]
}

impl Timestamp {
    /// Field ranges of a real calendar instant, with a four-digit year.
    pub open spec fn wf(self) -> bool {
        &&& 1 <= self.year < 10000
        &&& 1 <= self.month <= 12
        &&& 1 <= self.day <= 31
        &&& self.hour < 24
        &&& self.minute < 60
        &&& self.second < 60
    }

    /// The canonical text of a timestamp: `YYYY-MM-DDTHH:MM:SS`.
    pub open spec fn text(self) -> Seq<char> {
        pad4(self.year as nat) + seq!['-'] + pad2(self.month as nat) + seq!['-'] + pad2(
            self.day as nat,
        ) + seq!['T'] + pad2(self.hour as nat) + seq![':'] + pad2(self.minute as nat) + seq![':']
            + pad2(self.second as nat)
    }

    /// Builds a timestamp, rejecting any field outside its calendar range.
    pub fn new(year: u64, month: u64, day: u64, hour: u64, minute: u64, second: u64) -> (r: Option<
        Timestamp,
    >)
        ensures
            r matches Some(t) ==> t == (Timestamp { year, month, day, hour, minute, second })
                && t.wf(),
            r is None <==> !(Timestamp { year, month, day, hour, minute, second }).wf(),
    {
        if 1 <= year && year < 10000 && 1 <= month && month <= 12 && 1 <= day && day <= 31 && hour
            < 24 && minute < 60 && second < 60 {
            Some(Timestamp { year, month, day, hour, minute, second })
        } else {
            None
        }
    }

    /// Renders the canonical text of this timestamp.
    pub fn render(&self) -> (r: String)
        requires
            self.wf(),
        ensures
            r@ == self.text(),
    {
        let mut out = String::new();
        push_pad4(&mut out, self.year);
        push_char(&mut out, '-');
        push_pad2(&mut out, self.month);
        push_char(&mut out, '-');
        push_pad2(&mut out, self.day);
        push_char(&mut out, 'T');
        push_pad2(&mut out, self.hour);
        push_char(&mut out, ':');
        push_pad2(&mut out, self.minute);
        push_char(&mut out, ':');
        push_pad2(&mut out, self.second);
        assert(out@ =~= self.text());
        out
    }
}

/// Appends two zero-padded decimal digits.
pub fn push_pad2(out: &mut String, n: u64)
    requires
        n < 100,
    ensures
        final(out)@ == old(out)@ + pad2(n as nat),
{
    push_char(out, digit_char_of(n / 10 % 10));
    push_char(out, digit_char_of(n % 10));
    assert(out@ =~= old(out)@ + pad2(n as nat));
}

/// Appends four zero-padded decimal digits.
pub fn push_pad4(out: &mut String, n: u64)
    requires
        n < 10000,
    ensures
        final(out)@ == old(out)@ + pad4(n as nat),
{
    push_char(out, digit_char_of(n / 1000 % 10));
    push_char(out, digit_char_of(n / 100 % 10));
    push_char(out, digit_char_of(n / 10 % 10));
    push_char(out, digit_char_of(n % 10));
    assert(out@ =~= old(out)@ + pad4(n as nat));
}

} // verus!
