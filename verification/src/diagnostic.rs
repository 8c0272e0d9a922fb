//! Diagnostics: what went wrong in which field of which row.

use vstd::prelude::*;
use vstd::string::StringExecFns;

verus! {

broadcast use vstd::string::group_string_axioms;

pub const SKIPPED_PREFIX: &'static str = "skipping line ";

pub const HOSTNAME_PREFIX: &'static str = "invalid hostname on line ";

pub const MACADDR_PREFIX: &'static str = "invalid macaddr on line ";

/// The field of a row that a diagnostic is about.
#[derive(Clone, Copy, Debug, PartialEq, Eq, Structural)]
pub enum Field {
    IpAddr,
    Hostname,
    MacAddr,
}

/// A complaint about one field of one row.
#[derive(Debug, PartialEq, Eq)]
pub struct Diagnostic {
    pub row: usize,
    pub field: Field,
    pub reason: String,
}

/// A diagnostic as the contracts see it.
pub struct Note {
    pub row: int,
    pub field: Field,
    pub reason: Seq<char>,
}

impl View for Diagnostic {
    type V = Note;

    open spec fn view(&self) -> Note {
        Note { row: self.row as int, field: self.field, reason: self.reason@ }
    }
}

impl DeepView for Diagnostic {
    type V = Note;

    open spec fn deep_view(&self) -> Note {
        self@
    }
}

/// The character for a digit from 0 to 9.
pub open spec fn digit_char(d: int) -> char {
    seq!['0', '1', '2', '3', '4', '5', '6', '7', '8', '9'][d]
}

/// A number written in decimal digits, without leading zeros.
pub open spec fn decimal(n: nat) -> Seq<char>
    decreases n,
{
    if n < 10 {
        seq![digit_char(n as int)]
    } else {
        decimal(n / 10).push(digit_char((n % 10) as int))
    }
}

/// How a message about a field begins.
pub open spec fn prefix_of(field: Field) -> Seq<char> {
    match field {
        Field::IpAddr => SKIPPED_PREFIX@,
        Field::Hostname => HOSTNAME_PREFIX@,
        Field::MacAddr => MACADDR_PREFIX@,
    }
}

impl Note {
    /// The line that tells a reader of this diagnostic: what happened, the
    /// number of the row, a colon and the reason.
    pub open spec fn message(self) -> Seq<char> {
        prefix_of(self.field) + decimal(self.row as nat) + seq![':', ' '] + self.reason
    }
}

/// The character for a digit from 0 to 9.
fn digit(d: usize) -> (c: char)
    requires
        d < 10,
    ensures
        c == digit_char(d as int),
{
    match d {
        0 => '0',
        1 => '1',
        2 => '2',
        3 => '3',
        4 => '4',
        5 => '5',
        6 => '6',
        7 => '7',
        8 => '8',
        _ => '9',
    }
}

/// Appends `n` in decimal digits to `out`.
pub fn push_decimal(out: &mut String, n: usize)
    ensures
        final(out)@ == old(out)@ + decimal(n as nat),
    decreases n,
{
    let ghost before = out@;
    if n >= 10 {
        push_decimal(out, n / 10);
    }
    out.push(digit(n % 10));
    assert(out@ =~= before + decimal(n as nat));
}

impl Diagnostic {
    /// The line that tells a reader of this diagnostic.
    pub fn message(&self) -> (text: String)
        ensures
            text@ == self@.message(),
    {
        let mut text = match self.field {
            Field::IpAddr => SKIPPED_PREFIX.to_owned(),
            Field::Hostname => HOSTNAME_PREFIX.to_owned(),
            Field::MacAddr => MACADDR_PREFIX.to_owned(),
        };
        push_decimal(&mut text, self.row);
        text.push(':');
        text.push(' ');
        text.append(self.reason.as_str());
        assert(text@ =~= self@.message());
        text
    }
}

} // verus!
