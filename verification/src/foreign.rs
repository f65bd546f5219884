//! Calls into std and the outside crates whose behaviour is taken on trust.

use vstd::prelude::*;
use rand::Rng;
use crate::naming::last_dot;
use crate::text::{decimal_value, is_digit};

verus! {

/// `String::push`. Claimed: the character is appended at the end.
#[verifier::external_body]
pub fn push_char(s: &mut String, c: char)
    ensures
        final(s)@ == old(s)@.push(c),
{
    s.push(c)
}


/// What `str::to_lowercase` gives for a text: its lowercase equivalent under
/// the Unicode `Lowercase` property, as std computes it.
pub uninterp spec fn lowercase_of(s: Seq<char>) -> Seq<char>;

/// `str::to_lowercase`. Claimed: the result is `lowercase_of` the argument.
#[verifier::external_body]
pub fn to_lowercase(s: &str) -> (r: String)
    ensures
        r@ == lowercase_of(s@),
{
    s.to_lowercase()
}

/// The shape of a date written with chrono's `%Y%m%d`: the year (four digits,
/// or a sign and at least four digits outside 0..=9999), then the month 01..12
/// and the day 01..31, two digits each.
pub open spec fn is_compact_date(s: Seq<char>) -> bool {
    let n: int = s.len() as int;
    &&& n >= 8
    &&& forall|i: int| 1 <= i < n ==> is_digit(#[trigger] s[i])
    &&& (is_digit(s[0]) || ((s[0] == '+' || s[0] == '-') && n >= 9))
    &&& 1 <= decimal_value(s.subrange(n - 4, n - 2)) <= 12
    &&& 1 <= decimal_value(s.subrange(n - 2, n)) <= 31
}

/// `chrono::Local::now().format("%Y%m%d").to_string()`: today's local date.
/// Claimed: only its shape (`is_compact_date`), as chrono's `%Y`, `%m` and `%d`
/// documentation gives it; which day it is depends on the clock and is not stated.
#[verifier::external_body]
pub fn today_compact_date() -> (r: String)
    ensures
        is_compact_date(r@),
{
    chrono::Local::now().format("%Y%m%d").to_string()
}

/// `rand::thread_rng().gen_range(1000..10000)`. Claimed: the number lies in
/// the range, as rand documents; which number comes out is chance.
#[verifier::external_body]
pub fn random_four_digit() -> (r: u16)
    ensures
        1000 <= r < 10000,
{
    rand::thread_rng().gen_range(1000..10000)
}

/// The index of the last `/` in `s`, or -1 when there is none.
pub open spec fn last_slash(s: Seq<char>) -> int
    decreases s.len(),
{
    if s.len() == 0 {
        -1
    } else if s.last() == '/' {
        s.len() - 1
    } else {
        last_slash(s.drop_last())
    }
}

/// The part of a path after its last `/`.
pub open spec fn final_part(s: Seq<char>) -> Seq<char> {
    s.skip(last_slash(s) + 1)
}

/// Whether every platform reads the path as `/`-separated parts ending in a
/// plain file name: no `\` or `:` anywhere (no Windows prefix or other
/// separator), no leading `//` (no Windows network prefix), and a last part
/// that is not empty, `.` or `..`.
pub open spec fn has_plain_final_part(s: Seq<char>) -> bool {
    let f = final_part(s);
    &&& forall|i: int| 0 <= i < s.len() ==> #[trigger] s[i] != '\\' && s[i] != ':'
    &&& !(s.len() >= 2 && s[0] == '/' && s[1] == '/')
    &&& f.len() > 0
    &&& f != seq!['.']
    &&& f != seq!['.', '.']
}

/// The stem of a file name, as `Path::file_stem` documents it: the whole name
/// when it has no `.` but a leading one, otherwise the part before the last `.`.
pub open spec fn stem_of(name: Seq<char>) -> Seq<char> {
    let k = last_dot(name);
    if k <= 0 {
        name
    } else {
        name.take(k)
    }
}

/// `std::path::Path::file_stem` of a path given as text, with the stem turned
/// into text where it is valid UTF-8 (`OsStr::to_str`). Claimed only for a
/// path that every platform splits at `/` and that ends in a plain file name
/// (`has_plain_final_part`): its final component is the part after the last
/// `/`, and the stem of that is there, is text, and is split off as
/// `Path::file_stem` documents. How other paths split into components
/// differs between platforms and is not stated.
#[verifier::external_body]
pub fn path_file_stem(path: &str) -> (r: Option<Option<String>>)
    ensures
        has_plain_final_part(path@) ==> match r {
            Some(Some(t)) => t@ == stem_of(final_part(path@)),
            _ => false,
        },
{
    match std::path::Path::new(path).file_stem() {
        None => None,
        Some(stem) => match stem.to_str() {
            None => Some(None),
            Some(t) => Some(Some(t.to_string())),
        },
    }
}

} // verus!
