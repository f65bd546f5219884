//! Verified text utilities: comparison, trimming, searching,
//! decimal formatting and parsing.

use vstd::prelude::*;
use vstd::arithmetic::power::pow;
use crate::foreign::push_char;

verus! {

/// The characters of a text, in order.
pub fn chars_of(s: &str) -> (r: Vec<char>)
    ensures
        r@ == s@,
{
    let n: usize = s.unicode_len();
    let mut out: Vec<char> = Vec::new();
    let mut i: usize = 0;
    while i < n
        invariant
            n == s@.len(),
            i <= n,
            out@ == s@.subrange(0, i as int),
        decreases n - i,
    {
        out.push(s.get_char(i));
        i = i + 1;
    }
    assert(s@.subrange(0, n as int) =~= s@);
    out
}

/// Whether two texts hold the same characters.
pub fn text_eq(a: &str, b: &str) -> (r: bool)
    ensures
        r == (a@ == b@),
{
    let n: usize = a.unicode_len();
    if n != b.unicode_len() {
        return false;
    }
    let mut i: usize = 0;
    while i < n
        invariant
            n == a@.len(),
            n == b@.len(),
            i <= n,
            a@.subrange(0, i as int) == b@.subrange(0, i as int),
        decreases n - i,
    {
        if a.get_char(i) != b.get_char(i) {
            assert(a@[i as int] != b@[i as int]);
            return false;
        }
        assert(a@.subrange(0, i + 1) =~= a@.subrange(0, i as int).push(a@[i as int]));
        assert(b@.subrange(0, i + 1) =~= b@.subrange(0, i as int).push(b@[i as int]));
        i = i + 1;
    }
    assert(a@ =~= a@.subrange(0, n as int));
    assert(b@ =~= b@.subrange(0, n as int));
    true
}

/// Whether a character has the Unicode `White_Space` property (what
/// `char::is_whitespace` answers): tab to carriage return, space, next line,
/// no-break space, ogham space mark, the spaces from en quad to hair space,
/// line and paragraph separators, narrow no-break space, medium mathematical
/// space and ideographic space.
pub open spec fn unicode_white_space(c: char) -> bool {
    ||| '\u{9}' <= c <= '\u{d}'
    ||| c == ' '
    ||| c == '\u{85}'
    ||| c == '\u{a0}'
    ||| c == '\u{1680}'
    ||| '\u{2000}' <= c <= '\u{200a}'
    ||| c == '\u{2028}'
    ||| c == '\u{2029}'
    ||| c == '\u{202f}'
    ||| c == '\u{205f}'
    ||| c == '\u{3000}'
}

/// `char::is_whitespace`: whether `c` has the `White_Space` property.
pub fn is_white_space(c: char) -> (r: bool)
    ensures
        r == unicode_white_space(c),
{
    ('\u{9}' <= c && c <= '\u{d}') || c == ' ' || c == '\u{85}' || c == '\u{a0}' || c == '\u{1680}'
        || ('\u{2000}' <= c && c <= '\u{200a}') || c == '\u{2028}' || c == '\u{2029}' || c
        == '\u{202f}' || c == '\u{205f}' || c == '\u{3000}'
}

/// The text without its leading white space.
pub open spec fn trim_front(s: Seq<char>) -> Seq<char>
    decreases s.len(),
{
    if s.len() > 0 && unicode_white_space(s[0]) {
        trim_front(s.drop_first())
    } else {
        s
    }
}

/// The text without its trailing white space.
pub open spec fn trim_back(s: Seq<char>) -> Seq<char>
    decreases s.len(),
{
    if s.len() > 0 && unicode_white_space(s.last()) {
        trim_back(s.drop_last())
    } else {
        s
    }
}

/// The text without its leading and trailing white space (`str::trim`).
pub open spec fn trimmed(s: Seq<char>) -> Seq<char> {
    trim_back(trim_front(s))
}

proof fn lemma_trim_front_skip(s: Seq<char>, i: int)
    requires
        0 <= i <= s.len(),
        forall|k: int| 0 <= k < i ==> unicode_white_space(#[trigger] s[k]),
    ensures
        trim_front(s) == trim_front(s.skip(i)),
    decreases i,
{
    if i > 0 {
        assert(s.drop_first().skip(i - 1) =~= s.skip(i));
        lemma_trim_front_skip(s.drop_first(), i - 1);
    } else {
        assert(s.skip(0) =~= s);
    }
}

proof fn lemma_trim_back_take(s: Seq<char>, j: int)
    requires
        0 <= j <= s.len(),
        forall|k: int| j <= k < s.len() ==> unicode_white_space(#[trigger] s[k]),
    ensures
        trim_back(s) == trim_back(s.take(j)),
    decreases s.len() - j,
{
    if j < s.len() {
        assert(s.drop_last().take(j) =~= s.take(j));
        lemma_trim_back_take(s.drop_last(), j);
    } else {
        assert(s.take(j) =~= s);
    }
}

/// `str::trim`: the text without leading and trailing white space.
pub fn trim(s: &str) -> (r: String)
    ensures
        r@ == trimmed(s@),
{
    let n: usize = s.unicode_len();
    let mut i: usize = 0;
    while i < n && is_white_space(s.get_char(i))
        invariant
            n == s@.len(),
            i <= n,
            forall|k: int| 0 <= k < i ==> unicode_white_space(#[trigger] s@[k]),
        decreases n - i,
    {
        i = i + 1;
    }
    proof {
        lemma_trim_front_skip(s@, i as int);
    }
    let ghost front = s@.skip(i as int);
    assert(i == n || !unicode_white_space(front[0]));
    assert(trim_front(front) == front) by {
        if front.len() > 0 {
            assert(!unicode_white_space(front[0]));
        }
    }
    let mut j: usize = n;
    while j > i && is_white_space(s.get_char(j - 1))
        invariant
            n == s@.len(),
            i <= j <= n,
            front == s@.skip(i as int),
            forall|k: int| j - i <= k < front.len() ==> unicode_white_space(#[trigger] front[k]),
        decreases j,
    {
        assert(front[j - 1 - i] == s@[j - 1]);
        j = j - 1;
    }
    proof {
        lemma_trim_back_take(front, j - i);
        let t = front.take(j - i);
        if t.len() > 0 {
            assert(t.last() == s@[j - 1]);
        }
        assert(trim_back(t) == t);
        assert(t =~= s@.subrange(i as int, j as int));
    }
    let piece = s.substring_char(i, j);
    String::from_str(piece)
}


/// Whether `p` occurs in `s` starting at index `i`.
pub open spec fn occurs_at(s: Seq<char>, p: Seq<char>, i: int) -> bool {
    0 <= i && i + p.len() <= s.len() && s.subrange(i, i + p.len()) == p
}

/// Whether `p` occurs anywhere in `s`.
pub open spec fn contains_text(s: Seq<char>, p: Seq<char>) -> bool {
    exists|i: int| occurs_at(s, p, i)
}

fn occurs_at_exec(t: &Vec<char>, p: &Vec<char>, i: usize) -> (r: bool)
    ensures
        r == occurs_at(t@, p@, i as int),
{
    let n: usize = t.len();
    let m: usize = p.len();
    if i > n || m > n - i {
        return false;
    }
    let mut k: usize = 0;
    while k < m
        invariant
            n == t@.len(),
            m == p@.len(),
            i + m <= n,
            k <= m,
            forall|q: int| 0 <= q < k ==> t@[i + q] == p@[q],
        decreases m - k,
    {
        if t[i + k] != p[k] {
            assert(t@.subrange(i as int, i + m)[k as int] != p@[k as int]);
            return false;
        }
        k = k + 1;
    }
    assert(t@.subrange(i as int, i + m) =~= p@);
    true
}

/// `str::contains`: whether `pattern` occurs in `text`.
pub fn contains(text: &str, pattern: &str) -> (r: bool)
    ensures
        r == contains_text(text@, pattern@),
{
    let t = chars_of(text);
    let p = chars_of(pattern);
    let n: usize = t.len();
    let m: usize = p.len();
    if m > n {
        assert(!contains_text(text@, pattern@));
        return false;
    }
    if m == 0 {
        assert(t@.subrange(0, 0) =~= p@);
        assert(occurs_at(text@, pattern@, 0));
        return true;
    }
    let mut i: usize = 0;
    while i <= n - m
        invariant
            n == t@.len(),
            m == p@.len(),
            0 < m <= n,
            i <= n - m + 1,
            t@ == text@,
            p@ == pattern@,
            forall|q: int| 0 <= q < i ==> !occurs_at(t@, p@, q),
        decreases n - m + 1 - i,
    {
        if occurs_at_exec(&t, &p, i) {
            return true;
        }
        i = i + 1;
    }
    false
}

/// Whether a character is one of the ASCII digits `0`..`9`.
pub open spec fn is_digit(c: char) -> bool {
    '0' <= c && c <= '9'
}

/// The value of an ASCII digit.
pub open spec fn digit_value(c: char) -> nat {
    (c as int - '0' as int) as nat
}

/// The ASCII digit for a value below ten.
pub open spec fn digit_char(d: nat) -> char {
    (d + '0' as int) as char
}

/// Whether every character of `s` is an ASCII digit.
pub open spec fn all_digits(s: Seq<char>) -> bool {
    forall|i: int| 0 <= i < s.len() ==> is_digit(#[trigger] s[i])
}

/// The number that a string of decimal digits denotes.
pub open spec fn decimal_value(s: Seq<char>) -> nat
    decreases s.len(),
{
    if s.len() == 0 {
        0
    } else {
        decimal_value(s.drop_last()) * 10 + digit_value(s.last())
    }
}

/// The decimal notation of `n`, without leading zeros.
pub open spec fn decimal(n: nat) -> Seq<char>
    decreases n,
{
    if n < 10 {
        seq![digit_char(n)]
    } else {
        decimal(n / 10).push(digit_char(n % 10))
    }
}

/// `k` zero characters.
pub open spec fn zeros(k: nat) -> Seq<char> {
    Seq::new(k, |_i: int| '0')
}

/// The decimal notation of `n`, padded on the left with zeros to at least
/// `width` characters (`format!("{:0width$}", n)`).
pub open spec fn padded_decimal(n: nat, width: nat) -> Seq<char> {
    let d = decimal(n);
    if d.len() < width {
        zeros((width - d.len()) as nat) + d
    } else {
        d
    }
}

/// What `str::parse::<usize>` gives: an optional `+`, then at least one ASCII
/// digit and nothing else, denoting a value that fits in `usize`.
pub open spec fn parsed_usize(s: Seq<char>) -> Option<usize> {
    let body = if s.len() > 0 && s[0] == '+' { s.drop_first() } else { s };
    if body.len() > 0 && all_digits(body) && decimal_value(body) <= usize::MAX {
        Some(decimal_value(body) as usize)
    } else {
        None
    }
}

proof fn lemma_decimal_digits(n: nat)
    ensures
        all_digits(decimal(n)),
        decimal(n).len() > 0,
        decimal_value(decimal(n)) == n,
    decreases n,
{
    if n < 10 {
        assert(decimal(n).drop_last() =~= Seq::<char>::empty());
        assert(decimal_value(Seq::<char>::empty()) == 0);
    } else {
        lemma_decimal_digits(n / 10);
        let d = decimal(n / 10).push(digit_char(n % 10));
        assert(d.drop_last() =~= decimal(n / 10));
        assert(digit_value(digit_char(n % 10)) == n % 10);
        assert forall|i: int| 0 <= i < d.len() implies is_digit(#[trigger] d[i]) by {
            if i < d.len() - 1 {
                assert(d[i] == decimal(n / 10)[i]);
            }
        }
    }
}

proof fn lemma_value_zeros(k: nat)
    ensures
        decimal_value(zeros(k)) == 0,
        all_digits(zeros(k)),
    decreases k,
{
    if k > 0 {
        assert(zeros(k).drop_last() =~= zeros((k - 1) as nat));
        lemma_value_zeros((k - 1) as nat);
    }
}

proof fn lemma_value_concat_zeros(k: nat, d: Seq<char>)
    ensures
        decimal_value(zeros(k) + d) == decimal_value(d),
    decreases d.len(),
{
    if d.len() == 0 {
        assert(zeros(k) + d =~= zeros(k));
        lemma_value_zeros(k);
    } else {
        assert((zeros(k) + d).drop_last() =~= zeros(k) + d.drop_last());
        lemma_value_concat_zeros(k, d.drop_last());
    }
}

/// The padded notation consists of digits and denotes `n`.
pub proof fn lemma_padded_decimal(n: nat, width: nat)
    ensures
        all_digits(padded_decimal(n, width)),
        decimal_value(padded_decimal(n, width)) == n,
        padded_decimal(n, width).len() >= width,
        padded_decimal(n, width).len() > 0,
{
    lemma_decimal_digits(n);
    let d = decimal(n);
    if d.len() < width {
        let k: nat = (width - d.len()) as nat;
        lemma_value_zeros(k);
        lemma_value_concat_zeros(k, d);
        let p = zeros(k) + d;
        assert forall|i: int| 0 <= i < p.len() implies is_digit(#[trigger] p[i]) by {
            if i < k {
                assert(p[i] == zeros(k)[i]);
            } else {
                assert(p[i] == d[i - k]);
            }
        }
    }
}

fn digit_char_exec(d: usize) -> (c: char)
    requires
        d < 10,
    ensures
        c == digit_char(d as nat),
        is_digit(c),
        digit_value(c) == d,
{
    let b: u8 = 48u8 + (d as u8);
    b as char
}

fn decimal_chars(n: usize) -> (r: Vec<char>)
    ensures
        r@ == decimal(n as nat),
    decreases n,
{
    if n < 10 {
        let mut v: Vec<char> = Vec::new();
        v.push(digit_char_exec(n));
        v
    } else {
        let mut v = decimal_chars(n / 10);
        v.push(digit_char_exec(n % 10));
        v
    }
}

/// `format!("{:0width$}", number)`: the decimal notation of `number`, padded on
/// the left with zeros to at least `width` characters.
pub fn zero_pad(number: usize, width: usize) -> (r: String)
    ensures
        r@ == padded_decimal(number as nat, width as nat),
{
    let d = decimal_chars(number);
    let len: usize = d.len();
    let mut out = String::new();
    if len < width {
        let mut k: usize = 0;
        while k < width - len
            invariant
                len < width,
                k <= width - len,
                out@ == zeros(k as nat),
            decreases width - len - k,
        {
            push_char(&mut out, '0');
            k = k + 1;
            assert(out@ =~= zeros(k as nat));
        }
    }
    let ghost start = out@;
    let mut i: usize = 0;
    while i < len
        invariant
            len == d@.len(),
            i <= len,
            out@ == start + d@.subrange(0, i as int),
        decreases len - i,
    {
        push_char(&mut out, d[i]);
        i = i + 1;
        assert(out@ =~= start + d@.subrange(0, i as int));
    }
    assert(d@.subrange(0, len as int) =~= d@);
    out
}

proof fn lemma_value_push(s: Seq<char>, c: char)
    ensures
        decimal_value(s.push(c)) == decimal_value(s) * 10 + digit_value(c),
{
    assert(s.push(c).drop_last() =~= s);
}

proof fn lemma_value_prefix_le(s: Seq<char>, k: int)
    requires
        0 <= k <= s.len(),
    ensures
        decimal_value(s.take(k)) <= decimal_value(s),
    decreases s.len() - k,
{
    if k < s.len() {
        lemma_value_prefix_le(s, k + 1);
        assert(s.take(k + 1).drop_last() =~= s.take(k));
    } else {
        assert(s.take(k) =~= s);
    }
}

/// `str::parse::<usize>`: `Some` of the value exactly when the text is an
/// optional `+` followed by ASCII digits whose value fits in `usize`.
pub fn parse_usize(s: &str) -> (r: Option<usize>)
    ensures
        r == parsed_usize(s@),
{
    let t = chars_of(s);
    let n: usize = t.len();
    let start: usize = if n > 0 && t[0] == '+' { 1 } else { 0 };
    let ghost body = if s@.len() > 0 && s@[0] == '+' { s@.drop_first() } else { s@ };
    assert(body =~= t@.skip(start as int));
    if start >= n {
        return None;
    }
    let mut acc: usize = 0;
    let mut i: usize = start;
    while i < n
        invariant
            n == t@.len(),
            t@ == s@,
            start <= i <= n,
            body =~= t@.skip(start as int),
            body == (if s@.len() > 0 && s@[0] == '+' { s@.drop_first() } else { s@ }),
            all_digits(body.take(i - start)),
            acc as nat == decimal_value(body.take(i - start)),
        decreases n - i,
    {
        let c = t[i];
        assert(c == body[i - start]);
        assert(body.take(i - start + 1) =~= body.take(i - start).push(c));
        if !('0' <= c && c <= '9') {
            assert(!all_digits(body));
            return None;
        }
        proof {
            lemma_value_push(body.take(i - start), c);
        }
        let d: usize = (c as u32 - 48u32) as usize;
        assert(d == digit_value(c));
        match acc.checked_mul(10) {
            None => {
                proof {
                    lemma_value_prefix_le(body, i - start + 1);
                }
                return None;
            },
            Some(a) => match a.checked_add(d) {
                None => {
                    proof {
                        lemma_value_prefix_le(body, i - start + 1);
                    }
                    return None;
                },
                Some(b) => {
                    acc = b;
                },
            },
        }
        i = i + 1;
    }
    assert(body.take(n - start) =~= body);
    Some(acc)
}

/// Trimming leaves a contiguous part of the text.
pub proof fn lemma_trim_is_part(s: Seq<char>)
    ensures
        exists|i: int, j: int| 0 <= i <= j <= s.len() && trimmed(s) == s.subrange(i, j),
{
    lemma_trim_front_part(s);
    let i = choose|i: int| 0 <= i <= s.len() && trim_front(s) == s.skip(i);
    lemma_trim_back_part(trim_front(s));
    let k = choose|k: int| 0 <= k <= trim_front(s).len() && trim_back(trim_front(s)) == trim_front(s).take(k);
    assert(trimmed(s) =~= s.subrange(i, i + k));
}

proof fn lemma_trim_front_part(s: Seq<char>)
    ensures
        exists|i: int| 0 <= i <= s.len() && trim_front(s) == s.skip(i),
        trim_front(s).len() == 0 || !unicode_white_space(trim_front(s)[0]),
    decreases s.len(),
{
    if s.len() > 0 && unicode_white_space(s[0]) {
        lemma_trim_front_part(s.drop_first());
        let i = choose|i: int| 0 <= i <= s.drop_first().len() && trim_front(s.drop_first()) == s.drop_first().skip(i);
        assert(s.drop_first().skip(i) =~= s.skip(i + 1));
    } else {
        assert(s.skip(0) =~= s);
    }
}

proof fn lemma_trim_back_part(s: Seq<char>)
    ensures
        exists|k: int| 0 <= k <= s.len() && trim_back(s) == s.take(k),
        trim_back(s).len() == 0 || !unicode_white_space(trim_back(s).last()),
    decreases s.len(),
{
    if s.len() > 0 && unicode_white_space(s.last()) {
        lemma_trim_back_part(s.drop_last());
        let k = choose|k: int| 0 <= k <= s.drop_last().len() && trim_back(s.drop_last()) == s.drop_last().take(k);
        assert(s.drop_last().take(k) =~= s.take(k));
    } else {
        assert(s.take(s.len() as int) =~= s);
    }
}

/// A trimmed text starts and ends with no white space, and trimming it again
/// changes nothing.
pub proof fn lemma_trim_idempotent(s: Seq<char>)
    ensures
        trimmed(s).len() == 0 || !unicode_white_space(trimmed(s)[0]),
        trimmed(s).len() == 0 || !unicode_white_space(trimmed(s).last()),
        trimmed(trimmed(s)) == trimmed(s),
{
    let f = trim_front(s);
    let t = trimmed(s);
    lemma_trim_front_part(s);
    lemma_trim_back_part(f);
    let k = choose|k: int| 0 <= k <= f.len() && trim_back(f) == f.take(k);
    if t.len() > 0 {
        assert(t[0] == f[0]);
    }
    assert(trim_front(t) == t);
    assert(trim_back(t) == t);
}

/// The decimal notation of `n` has at most `k` digits (`k` at least one)
/// exactly when `n` is below ten to the `k`.
pub proof fn lemma_decimal_length(n: nat, k: nat)
    requires
        k >= 1,
    ensures
        decimal(n).len() <= k <==> n < pow(10, k),
    decreases n,
{
    reveal(pow);
    lemma_pow_at_least(k);
    if n >= 10 {
        lemma_decimal_digits(n / 10);
        if k == 1 {
            assert(pow(10, 1) == 10 * pow(10, 0));
        } else {
            lemma_decimal_length(n / 10, (k - 1) as nat);
            let p = pow(10, (k - 1) as nat);
            assert(pow(10, k) == 10 * p);
            assert(n / 10 < p <==> n < 10 * p) by (nonlinear_arith)
                requires
                    n >= 10,
            ;
        }
    }
}

proof fn lemma_pow_at_least(k: nat)
    requires
        k >= 1,
    ensures
        pow(10, k) >= 10,
    decreases k,
{
    reveal(pow);
    assert(pow(10, k) == 10 * pow(10, (k - 1) as nat));
    if k > 1 {
        lemma_pow_at_least((k - 1) as nat);
    } else {
        assert(pow(10, 0) == 1);
    }
}

/// A number below ten to the `width` is padded to exactly `width` digits.
pub proof fn lemma_padded_width(n: nat, width: nat)
    requires
        width >= 1,
        n < pow(10, width),
    ensures
        padded_decimal(n, width).len() == width,
{
    lemma_decimal_length(n, width);
}

/// Parsing the padded notation of a number gives the number back.
pub proof fn lemma_parse_padded(n: usize, width: nat)
    ensures
        parsed_usize(padded_decimal(n as nat, width)) == Some(n),
{
    let p = padded_decimal(n as nat, width);
    lemma_padded_decimal(n as nat, width);
    assert(is_digit(p[0]));
}

/// Different numbers have different padded notations of the same width.
pub proof fn lemma_padded_injective(a: nat, b: nat, width: nat)
    requires
        padded_decimal(a, width) == padded_decimal(b, width),
    ensures
        a == b,
{
    lemma_padded_decimal(a, width);
    lemma_padded_decimal(b, width);
}

proof fn lemma_value_front(s: Seq<char>)
    requires
        s.len() >= 1,
    ensures
        decimal_value(s) == digit_value(s[0]) * pow(10, (s.len() - 1) as nat) + decimal_value(
            s.drop_first(),
        ),
    decreases s.len(),
{
    reveal(pow);
    if s.len() == 1 {
        assert(s.drop_last() =~= Seq::<char>::empty());
        assert(s.drop_first() =~= Seq::<char>::empty());
        assert(decimal_value(Seq::<char>::empty()) == 0);
        assert(pow(10, 0) == 1);
    } else {
        let l = s.drop_last();
        lemma_value_front(l);
        assert(l.drop_first() =~= s.drop_first().drop_last());
        assert(s.drop_first().last() == s.last());
        let p = pow(10, (l.len() - 1) as nat);
        assert(pow(10, (s.len() - 1) as nat) == 10 * p);
        let d0 = digit_value(s[0]) as int;
        let v = decimal_value(l.drop_first()) as int;
        assert((d0 * p + v) * 10 == d0 * (10 * p) + v * 10) by (nonlinear_arith);
    }
}

proof fn lemma_value_bound(s: Seq<char>)
    requires
        all_digits(s),
    ensures
        decimal_value(s) < pow(10, s.len()),
    decreases s.len(),
{
    reveal(pow);
    if s.len() > 0 {
        let l = s.drop_last();
        assert(all_digits(l)) by {
            assert forall|i: int| 0 <= i < l.len() implies is_digit(#[trigger] l[i]) by {
                assert(l[i] == s[i]);
            }
        }
        lemma_value_bound(l);
        assert(is_digit(s[s.len() - 1]));
        assert(pow(10, s.len()) == 10 * pow(10, (s.len() - 1) as nat));
    }
}

/// Of two digit strings of the same length, the one of smaller value comes
/// first character by character.
proof fn lemma_digits_order(x: Seq<char>, y: Seq<char>)
    requires
        all_digits(x),
        all_digits(y),
        x.len() == y.len(),
        decimal_value(x) < decimal_value(y),
    ensures
        crate::order::text_less(x, y),
    decreases x.len(),
{
    if x.len() > 0 {
        lemma_value_front(x);
        lemma_value_front(y);
        let xs = x.drop_first();
        let ys = y.drop_first();
        assert(all_digits(xs)) by {
            assert forall|i: int| 0 <= i < xs.len() implies is_digit(#[trigger] xs[i]) by {
                assert(xs[i] == x[i + 1]);
            }
        }
        assert(all_digits(ys)) by {
            assert forall|i: int| 0 <= i < ys.len() implies is_digit(#[trigger] ys[i]) by {
                assert(ys[i] == y[i + 1]);
            }
        }
        lemma_value_bound(xs);
        lemma_value_bound(ys);
        assert(is_digit(x[0]) && is_digit(y[0]));
        let p = pow(10, (x.len() - 1) as nat);
        let dx = digit_value(x[0]) as int;
        let dy = digit_value(y[0]) as int;
        let vx = decimal_value(xs) as int;
        let vy = decimal_value(ys) as int;
        if x[0] == y[0] {
            lemma_digits_order(xs, ys);
        } else if y[0] < x[0] {
            assert(dy + 1 <= dx);
            assert(dx * p >= (dy + 1) * p) by (nonlinear_arith)
                requires
                    dy + 1 <= dx,
                    p >= 0,
            ;
            assert((dy + 1) * p == dy * p + p) by (nonlinear_arith);
            assert(dx * p + vx >= dy * p + vy);
        }
    }
}

/// Numbers that fit the width are padded to texts in the same order as the
/// numbers.
pub proof fn lemma_padded_order(a: nat, b: nat, width: nat)
    requires
        a < b,
        b < pow(10, width),
    ensures
        crate::order::text_less(padded_decimal(a, width), padded_decimal(b, width)),
{
    reveal(pow);
    if width == 0 {
        assert(pow(10, 0) == 1);
    } else {
        lemma_padded_width(a, width);
        lemma_padded_width(b, width);
        lemma_padded_decimal(a, width);
        lemma_padded_decimal(b, width);
        lemma_digits_order(padded_decimal(a, width), padded_decimal(b, width));
    }
}

} // verus!
