//! The line formats of history import and frecent-path import.
use crate::text::{has_prefix, starts_with, to_owned_string, trim, trim_bounds};
use vstd::prelude::*;

verus! {

/// The first position at or after `i` that holds `c`.
pub open spec fn next_index(s: Seq<char>, c: char, i: int) -> Option<int>
    decreases s.len() - i,
{
    if i < 0 || i >= s.len() {
        None
    } else if s[i] == c {
        Some(i)
    } else {
        next_index(s, c, i + 1)
    }
}

/// The last position before `n` that holds `c`.
pub open spec fn prev_index(s: Seq<char>, c: char, n: int) -> Option<int>
    decreases n,
{
    if n <= 0 || n > s.len() {
        None
    } else if s[n - 1] == c {
        Some(n - 1)
    } else {
        prev_index(s, c, n - 1)
    }
}

/// The command a history line records: in the extended form `: <time>:<duration>;<command>`
/// the text after the first `;`, else the whole line; nothing for blank lines, extended lines
/// without `;`, or blank commands.
pub open spec fn history_command_of(line: Seq<char>) -> Option<Seq<char>> {
    if trim(line).len() == 0 {
        None
    } else {
        let cmd = if has_prefix(line, ": "@) {
            match next_index(line, ';', 0) {
                Some(i) => Some(line.subrange(i + 1, line.len() as int)),
                None => None,
            }
        } else {
            Some(line)
        };
        match cmd {
            Some(c) => if trim(c).len() == 0 {
                None
            } else {
                Some(c)
            },
            None => None,
        }
    }
}

fn find_char(s: &str, c: char, from: usize) -> (r: Option<usize>)
    ensures
        match r {
            Some(i) => next_index(s@, c, from as int) == Some(i as int) && i < s@.len(),
            None => next_index(s@, c, from as int).is_none(),
        },
{
    let n = s.unicode_len();
    let mut i = from;
    while i < n
        invariant
            from <= i,
            n == s@.len(),
            next_index(s@, c, from as int) == next_index(s@, c, i as int),
        decreases n - i,
    {
        if s.get_char(i) == c {
            return Some(i);
        }
        i = i + 1;
    }
    None
}

fn rfind_char(s: &str, c: char, before: usize) -> (r: Option<usize>)
    requires
        before <= s@.len(),
    ensures
        match r {
            Some(i) => prev_index(s@, c, before as int) == Some(i as int) && i < before,
            None => prev_index(s@, c, before as int).is_none(),
        },
{
    let mut n = before;
    while n > 0
        invariant
            n <= before <= s@.len(),
            prev_index(s@, c, before as int) == prev_index(s@, c, n as int),
        decreases n,
    {
        if s.get_char(n - 1) == c {
            return Some(n - 1);
        }
        n = n - 1;
    }
    None
}

fn is_blank(s: &str) -> (r: bool)
    ensures
        r == (trim(s@).len() == 0),
{
    let (a, b) = trim_bounds(s);
    a == b
}

/// The command recorded by one line of a shell history file.
pub fn history_command(line: &str) -> (r: Option<String>)
    ensures
        crate::parser::opt_view(r) == history_command_of(line@),
{
    if is_blank(line) {
        return None;
    }
    let len = line.unicode_len();
    let cmd: &str = if starts_with(line, ": ") {
        match find_char(line, ';', 0) {
            Some(i) => line.substring_char(i + 1, len),
            None => {
                return None;
            },
        }
    } else {
        line
    };
    if is_blank(cmd) {
        None
    } else {
        Some(to_owned_string(cmd))
    }
}

/// The fields of a frecent-path line `<path>|<rank>|<time>` once trimmed: split at the last
/// two `|`, so the path may itself hold `|`; nothing when there are fewer than two.
pub open spec fn fasd_fields(line: Seq<char>) -> Option<(Seq<char>, Seq<char>, Seq<char>)> {
    let t = trim(line);
    match prev_index(t, '|', t.len() as int) {
        Some(j) => match prev_index(t, '|', j) {
            Some(i) => Some(
                (t.subrange(0, i), t.subrange(i + 1, j), t.subrange(j + 1, t.len() as int)),
            ),
            None => None,
        },
        None => None,
    }
}

/// Splits a frecent-path line into path, rank text and time text.
pub fn split_fasd_line(line: &str) -> (r: Option<(String, String, String)>)
    ensures
        match r {
            Some(f) => fasd_fields(line@) == Some((f.0@, f.1@, f.2@)),
            None => fasd_fields(line@).is_none(),
        },
{
    let (a, b) = trim_bounds(line);
    let t = line.substring_char(a, b);
    let n = t.unicode_len();
    match rfind_char(t, '|', n) {
        Some(j) => match rfind_char(t, '|', j) {
            Some(i) => Some(
                (
                    to_owned_string(t.substring_char(0, i)),
                    to_owned_string(t.substring_char(i + 1, j)),
                    to_owned_string(t.substring_char(j + 1, n)),
                ),
            ),
            None => None,
        },
        None => None,
    }
}

} // verus!
