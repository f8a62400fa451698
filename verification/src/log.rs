//! The append-only log beside the executable: where it goes, and what one
//! line of it reads. The file itself is the program's to open and append to.

use vstd::prelude::*;

use crate::text::{padded, push_padded, push_str, string_from};

verus! {

broadcast use vstd::string::group_string_axioms;

/// Where the log is written. Set once, before anything is logged; a second
/// setting is ignored.
pub struct Log {
    path: Option<String>,
}

impl View for Log {
    type V = Option<Seq<char>>;

    closed spec fn view(&self) -> Option<Seq<char>> {
        match self.path {
            Some(p) => Some(p@),
            None => None,
        }
    }
}

impl Log {
    /// A log with nowhere to go yet: lines written to it are dropped.
    pub fn new() -> (l: Log)
        ensures
            l@ is None,
    {
        Log { path: None }
    }

    /// Point the log at a file. Only the first call takes.
    pub fn init(&mut self, path: String)
        ensures
            final(self)@ == match old(self)@ {
                Some(p) => Some(p),
                None => Some(path@),
            },
    {
        if self.path.is_none() {
            self.path = Some(path);
        }
    }

    pub fn path(&self) -> (p: Option<&String>)
        ensures
            match p {
                Some(s) => self@ == Some(s@),
                None => self@ is None,
            },
    {
        match &self.path {
            Some(s) => Some(s),
            None => None,
        }
    }
}

/// `yyyy-MM-dd HH:mm:ss.fff`.
pub open spec fn stamp_of(
    year: u16,
    month: u16,
    day: u16,
    hour: u16,
    minute: u16,
    second: u16,
    millis: u16,
) -> Seq<char> {
    padded(year as nat, 4) + "-"@ + padded(month as nat, 2) + "-"@ + padded(day as nat, 2) + " "@
        + padded(hour as nat, 2) + ":"@ + padded(minute as nat, 2) + ":"@ + padded(second as nat, 2)
        + "."@ + padded(millis as nat, 3)
}

/// The local time a line is stamped with, without pulling in a date library.
pub fn timestamp(
    year: u16,
    month: u16,
    day: u16,
    hour: u16,
    minute: u16,
    second: u16,
    millis: u16,
) -> (s: String)
    ensures
        s@ == stamp_of(year, month, day, hour, minute, second, millis),
{
    let mut s = String::new();
    push_padded(&mut s, year as u64, 4);
    push_str(&mut s, "-");
    push_padded(&mut s, month as u64, 2);
    push_str(&mut s, "-");
    push_padded(&mut s, day as u64, 2);
    push_str(&mut s, " ");
    push_padded(&mut s, hour as u64, 2);
    push_str(&mut s, ":");
    push_padded(&mut s, minute as u64, 2);
    push_str(&mut s, ":");
    push_padded(&mut s, second as u64, 2);
    push_str(&mut s, ".");
    push_padded(&mut s, millis as u64, 3);
    assert(s@ =~= stamp_of(year, month, day, hour, minute, second, millis));
    s
}

/// One line of the log: the stamp, two spaces, the message, a newline.
pub fn log_line(stamp: &str, msg: &str) -> (l: String)
    ensures
        l@ == stamp@ + "  "@ + msg@ + "\n"@,
{
    let mut l = string_from(stamp);
    push_str(&mut l, "  ");
    push_str(&mut l, msg);
    push_str(&mut l, "\n");
    l
}

/// Once set, the log's place does not move: a later `init` is ignored.
pub proof fn law_first_path_wins(before: Option<Seq<char>>, a: Seq<char>, b: Seq<char>)
    ensures
        ({
            let first = match before {
                Some(p) => Some(p),
                None => Some(a),
            };
            let second = match first {
                Some(p) => Some(p),
                None => Some(b),
            };
            second == first
        }),
{
}

} // verus!
