//! How each image gets its new name: the numbering, the naming patterns,
//! the extension rules and the handling of a name that is already taken.

use vstd::prelude::*;
use vstd::arithmetic::power::pow;
use crate::foreign::{
    push_char,
    final_part, has_plain_final_part, is_compact_date, lowercase_of, stem_of, path_file_stem, random_four_digit, to_lowercase,
    today_compact_date,
};
use crate::order::{lemma_text_less_common_prefix, lemma_text_less_extend, text_less};
use crate::text::{
    chars_of, contains_text, decimal, lemma_padded_decimal, lemma_padded_injective,
    lemma_decimal_length, lemma_padded_order, lemma_padded_width, occurs_at, padded_decimal, text_eq, zero_pad,
};

verus! {

/// The naming format chosen for a run: a pattern (one of `NumberOnly`,
/// `PrefixNumber`, `DateNumber`, `OriginalNumber`, or a custom pattern with
/// `{N}`, `{P}`, `{D}` and `{E}` placeholders), the prefix, the number width, and
/// whether the pattern was entered as a custom one.
#[derive(Debug, Clone)]
pub struct FormatConfig {
    pub pattern: String,
    pub prefix: String,
    pub digits: usize,
    pub custom_format: bool,
}

/// The mathematical value of a `FormatConfig`.
pub struct FormatModel {
    pub pattern: Seq<char>,
    pub prefix: Seq<char>,
    pub digits: usize,
    pub custom_format: bool,
}

impl View for FormatConfig {
    type V = FormatModel;

    open spec fn view(&self) -> FormatModel {
        FormatModel {
            pattern: self.pattern@,
            prefix: self.prefix@,
            digits: self.digits,
            custom_format: self.custom_format,
        }
    }
}

/// The view of an optional borrowed text.
pub open spec fn opt_text(o: Option<&str>) -> Option<Seq<char>> {
    match o {
        Some(s) => Some(s@),
        None => None,
    }
}

/// The view of an optional owned text.
pub open spec fn opt_string(o: Option<String>) -> Option<Seq<char>> {
    match o {
        Some(s) => Some(s@),
        None => None,
    }
}

/// Whether a pattern is one of the four built-in ones that put the number
/// after an optional prefix.
pub open spec fn is_builtin_pattern(pattern: Seq<char>) -> bool {
    ||| pattern == "NumberOnly"@
    ||| pattern == "PrefixNumber"@
    ||| pattern == "DateNumber"@
    ||| pattern == "OriginalNumber"@
}

/// The placeholder `{c}`.
pub open spec fn placeholder(c: char) -> Seq<char> {
    seq!['{', c, '}']
}

/// A custom pattern read from the left, each placeholder put in by what it
/// stands for: `{N}` the number, `{P}` the prefix as typed, `{D}` the date,
/// `{E}` the extension; every other character kept.
pub open spec fn filled_pattern(
    s: Seq<char>,
    number: Seq<char>,
    prefix: Seq<char>,
    date: Seq<char>,
    extension: Seq<char>,
) -> Seq<char>
    decreases s.len(),
{
    if s.len() == 0 {
        s
    } else if occurs_at(s, placeholder('N'), 0) {
        number + filled_pattern(s.skip(3), number, prefix, date, extension)
    } else if occurs_at(s, placeholder('P'), 0) {
        prefix + filled_pattern(s.skip(3), number, prefix, date, extension)
    } else if occurs_at(s, placeholder('D'), 0) {
        date + filled_pattern(s.skip(3), number, prefix, date, extension)
    } else if occurs_at(s, placeholder('E'), 0) {
        extension + filled_pattern(s.skip(3), number, prefix, date, extension)
    } else {
        seq![s[0]] + filled_pattern(s.drop_first(), number, prefix, date, extension)
    }
}

/// Fills the placeholders of a custom pattern: `{N}` by `number`, `{P}` by
/// `prefix`, `{D}` by `date` and `{E}` by `extension`, each put in as given.
pub fn fill_placeholders(
    pattern: &str,
    number: &str,
    prefix: &str,
    date: &str,
    extension: &str,
) -> (r: String)
    ensures
        r@ == filled_pattern(pattern@, number@, prefix@, date@, extension@),
{
    let t = chars_of(pattern);
    let n: usize = t.len();
    let mut out = String::new();
    let mut i: usize = 0;
    assert(t@.skip(0) =~= t@);
    while i < n
        invariant
            n == t@.len(),
            i <= n,
            t@ == pattern@,
            out@ + filled_pattern(t@.skip(i as int), number@, prefix@, date@, extension@)
                == filled_pattern(t@, number@, prefix@, date@, extension@),
        decreases n - i,
    {
        let ghost rest = t@.skip(i as int);
        let ghost before = out@;
        let is_slot = n - i >= 3 && t[i] == '{' && t[i + 2] == '}';
        let c = if is_slot { t[i + 1] } else { ' ' };
        proof {
            if n - i >= 3 {
                assert(rest.subrange(0, 3) =~= seq![t@[i as int], t@[i + 1], t@[i + 2]]);
            }
            assert forall|q: char| occurs_at(rest, placeholder(q), 0) <==> (is_slot && c == q) by {
                if occurs_at(rest, placeholder(q), 0) {
                    assert(rest.subrange(0, 3)[1] == q);
                    assert(rest.subrange(0, 3)[0] == '{');
                    assert(rest.subrange(0, 3)[2] == '}');
                }
                if is_slot && c == q {
                    assert(rest.subrange(0, 3) =~= placeholder(q));
                }
            }
            if is_slot {
                assert(rest.skip(3) =~= t@.skip(i + 3));
            }
            assert(rest.drop_first() =~= t@.skip(i + 1));
        }
        if is_slot && c == 'N' {
            out.append(number);
            i = i + 3;
        } else if is_slot && c == 'P' {
            out.append(prefix);
            i = i + 3;
        } else if is_slot && c == 'D' {
            out.append(date);
            i = i + 3;
        } else if is_slot && c == 'E' {
            out.append(extension);
            i = i + 3;
        } else {
            push_char(&mut out, t[i]);
            i = i + 1;
        }
        assert(out@ + filled_pattern(t@.skip(i as int), number@, prefix@, date@, extension@)
            =~= before + filled_pattern(rest, number@, prefix@, date@, extension@));
    }
    assert(t@.skip(n as int) =~= Seq::<char>::empty());
    assert(out@ =~= out@ + filled_pattern(t@.skip(n as int), number@, prefix@, date@, extension@));
    out
}

/// The new name of the file numbered `number`: for `NumberOnly` the padded
/// number; for the other built-in patterns the prefix, `_` and the padded
/// number; for a custom pattern the pattern with its placeholders filled in;
/// each followed by the extension.
pub open spec fn file_name_for(
    pattern: Seq<char>,
    prefix: Seq<char>,
    number: nat,
    digits: nat,
    extension: Seq<char>,
    date: Seq<char>,
) -> Seq<char> {
    let num = padded_decimal(number, digits);
    if pattern == "NumberOnly"@ {
        num + extension
    } else if is_builtin_pattern(pattern) {
        prefix + seq!['_'] + num + extension
    } else {
        filled_pattern(pattern, num, prefix, date, extension) + extension
    }
}

fn concat3(a: &str, b: &str, c: &str) -> (r: String)
    ensures
        r@ == a@ + b@ + c@,
{
    let mut out = String::from_str(a);
    out.append(b);
    out.append(c);
    out
}

/// The new name of the file numbered `number`, with `date` standing for the
/// `{D}` placeholder of a custom pattern.
pub fn build_new_file_name_on(
    pattern: &str,
    prefix: &str,
    number: usize,
    digits: usize,
    extension: &str,
    date: &str,
) -> (r: String)
    ensures
        r@ == file_name_for(pattern@, prefix@, number as nat, digits as nat, extension@, date@),
{
    let num = zero_pad(number, digits);
    if text_eq(pattern, "NumberOnly") {
        let mut out = num;
        out.append(extension);
        out
    } else if text_eq(pattern, "PrefixNumber") || text_eq(pattern, "DateNumber") || text_eq(
        pattern,
        "OriginalNumber",
    ) {
        let mut out = concat3(prefix, "_", num.as_str());
        out.append(extension);
        proof {
            reveal_strlit("_");
            assert(prefix@ + "_"@ =~= prefix@ + seq!['_']);
        }
        out
    } else {
        let mut out = fill_placeholders(pattern, num.as_str(), prefix, date, extension);
        out.append(extension);
        out
    }
}

/// The new name of the file numbered `number`, with today's local date for
/// the `{D}` placeholder of a custom pattern.
pub fn build_new_file_name(
    pattern: &str,
    prefix: &str,
    number: usize,
    digits: usize,
    extension: &str,
) -> (r: String)
    ensures
        exists|date: Seq<char>|
            is_compact_date(date) && r@ == #[trigger] file_name_for(
                pattern@,
                prefix@,
                number as nat,
                digits as nat,
                extension@,
                date,
            ),
{
    let date = today_compact_date();
    build_new_file_name_on(pattern, prefix, number, digits, extension, date.as_str())
}


/// The index of the last `.` in `s`, or -1 when there is none.
pub open spec fn last_dot(s: Seq<char>) -> int
    decreases s.len(),
{
    if s.len() == 0 {
        -1
    } else if s.last() == '.' {
        s.len() - 1
    } else {
        last_dot(s.drop_last())
    }
}

/// The extension of a file name, as `Path::extension` documents it: none for
/// `..`, for a name without a `.`, or for a name whose only `.` is its first
/// character; otherwise the part after the last `.`.
pub open spec fn extension_of(name: Seq<char>) -> Option<Seq<char>> {
    let k: int = last_dot(name);
    if name == seq!['.', '.'] || k <= 0 {
        None
    } else {
        Some(name.skip(k + 1))
    }
}

proof fn lemma_last_dot_take(s: Seq<char>, j: int)
    requires
        0 <= j <= s.len(),
        forall|k: int| j <= k < s.len() ==> #[trigger] s[k] != '.',
    ensures
        last_dot(s) == last_dot(s.take(j)),
    decreases s.len() - j,
{
    if j < s.len() {
        assert(s.drop_last().take(j) =~= s.take(j));
        lemma_last_dot_take(s.drop_last(), j);
    } else {
        assert(s.take(j) =~= s);
    }
}

/// The extension of a file name (the name of a single directory entry), as
/// `Path::extension` gives it.
pub fn file_extension(name: &str) -> (r: Option<String>)
    ensures
        opt_string(r) == extension_of(name@),
{
    let t = chars_of(name);
    let n: usize = t.len();
    if n == 2 && t[0] == '.' && t[1] == '.' {
        assert(name@ =~= seq!['.', '.']);
        return None;
    }
    assert(name@ != seq!['.', '.']) by {
        if name@ == seq!['.', '.'] {
            assert(t@[0] == '.' && t@[1] == '.');
        }
    }
    let mut j: usize = n;
    while j > 0 && t[j - 1] != '.'
        invariant
            n == t@.len(),
            t@ == name@,
            j <= n,
            forall|k: int| j <= k < n ==> #[trigger] t@[k] != '.',
        decreases j,
    {
        j = j - 1;
    }
    proof {
        lemma_last_dot_take(t@, j as int);
        if j > 0 {
            assert(t@.take(j as int).last() == '.');
        } else {
            assert(t@.take(0) =~= Seq::<char>::empty());
        }
    }
    if j <= 1 {
        return None;
    }
    let piece = name.substring_char(j, n);
    assert(piece@ =~= name@.skip(j as int));
    Some(String::from_str(piece))
}

/// The extension of an optional file name, or `fallback` when the name is
/// missing or has none.
pub open spec fn extension_or(name: Option<Seq<char>>, fallback: Seq<char>) -> Seq<char> {
    match name {
        Some(n) => match extension_of(n) {
            Some(e) => e,
            None => fallback,
        },
        None => fallback,
    }
}

/// `.` followed by the lowercased extension (or fallback).
pub open spec fn dotted_extension(name: Option<Seq<char>>, fallback: Seq<char>) -> Seq<char> {
    seq!['.'] + lowercase_of(extension_or(name, fallback))
}

/// `.` followed by the lowercased extension of the file name, or of
/// `fallback` when the name is missing (not valid UTF-8) or has no extension.
pub fn dotted_extension_of(name: Option<&str>, fallback: &str) -> (r: String)
    ensures
        r@ == dotted_extension(opt_text(name), fallback@),
{
    let ext = match name {
        Some(n) => match file_extension(n) {
            Some(e) => e,
            None => String::from_str(fallback),
        },
        None => String::from_str(fallback),
    };
    let lower = to_lowercase(ext.as_str());
    let mut out = String::from_str(".");
    out.append(lower.as_str());
    proof {
        reveal_strlit(".");
        assert(out@ =~= seq!['.'] + lowercase_of(ext@));
    }
    out
}

/// The dotted extensions of the image files that are renamed.
pub open spec fn is_image_extension_text(e: Seq<char>) -> bool {
    ||| e == ".jpg"@
    ||| e == ".jpeg"@
    ||| e == ".png"@
    ||| e == ".gif"@
    ||| e == ".webp"@
    ||| e == ".bmp"@
    ||| e == ".tiff"@
    ||| e == ".ico"@
}

/// Whether a dotted, lowercased extension is one of the image extensions.
pub fn is_image_extension(dotted: &str) -> (r: bool)
    ensures
        r == is_image_extension_text(dotted@),
{
    text_eq(dotted, ".jpg") || text_eq(dotted, ".jpeg") || text_eq(dotted, ".png") || text_eq(
        dotted,
        ".gif",
    ) || text_eq(dotted, ".webp") || text_eq(dotted, ".bmp") || text_eq(dotted, ".tiff")
        || text_eq(dotted, ".ico")
}

/// Whether a file with this name is taken for renaming: its lowercased
/// extension (empty when it has none) is an image extension.
pub fn is_image_file_name(name: Option<&str>) -> (r: bool)
    ensures
        r == is_image_extension_text(dotted_extension(opt_text(name), ""@)),
{
    let dotted = dotted_extension_of(name, "");
    is_image_extension(dotted.as_str())
}

/// The old name used when comparing with the new one.
pub open spec fn old_name_or_unknown(old: Option<Seq<char>>) -> Seq<char> {
    match old {
        Some(n) => n,
        None => "unknown"@,
    }
}

/// A new name has to be changed when something by that name exists already
/// and it is not the file's own name.
pub open spec fn needs_fresh_name(
    target_exists: bool,
    new_name: Seq<char>,
    old_name: Option<Seq<char>>,
) -> bool {
    target_exists && new_name != old_name_or_unknown(old_name)
}

/// Whether the planned name has to be changed.
pub fn name_needs_change(target_exists: bool, new_name: &str, old_name: Option<&str>) -> (r: bool)
    ensures
        r == needs_fresh_name(target_exists, new_name@, opt_text(old_name)),
{
    if !target_exists {
        return false;
    }
    let old = match old_name {
        Some(o) => o,
        None => "unknown",
    };
    !text_eq(new_name, old)
}

/// The replacement name: the stem of the taken name (`file` when the stem is
/// not valid UTF-8), `_`, the number, and the extension.
pub open spec fn suffixed_name(stem: Option<Seq<char>>, suffix: nat, extension: Seq<char>) -> Seq<char> {
    let base = match stem {
        Some(s) => s,
        None => "file"@,
    };
    base + seq!['_'] + decimal(suffix) + extension
}

/// The replacement name built from a stem and a number.
pub fn suffixed_file_name(stem: Option<&str>, suffix: u16, extension: &str) -> (r: String)
    ensures
        r@ == suffixed_name(opt_text(stem), suffix as nat, extension@),
{
    let base = match stem {
        Some(s) => s,
        None => "file",
    };
    let num = zero_pad(suffix as usize, 0);
    let mut out = concat3(base, "_", num.as_str());
    out.append(extension);
    proof {
        reveal_strlit("_");
        assert(base@ + "_"@ =~= base@ + seq!['_']);
        assert(padded_decimal(suffix as nat, 0) == decimal(suffix as nat));
    }
    out
}

/// The name a file is finally renamed to. When the planned name need not
/// change it is kept. Otherwise a random number from 1000 to 9999 and the stem
/// of the planned name (as `Path::file_stem` splits it) make a new one;
/// `None` comes back only when that path has no stem.
pub fn resolve_target_name(
    new_name: &str,
    old_name: Option<&str>,
    target_exists: bool,
    extension: &str,
) -> (r: Option<String>)
    ensures
        !needs_fresh_name(target_exists, new_name@, opt_text(old_name)) ==> (r matches Some(t)
            && t@ == new_name@),
        needs_fresh_name(target_exists, new_name@, opt_text(old_name)) ==> (r matches Some(t)
            ==> exists|stem: Option<Seq<char>>, n: nat|
            1000 <= n < 10000 && t@ == #[trigger] suffixed_name(stem, n, extension@)),
        needs_fresh_name(target_exists, new_name@, opt_text(old_name)) && has_plain_final_part(
            new_name@,
        ) ==> (r matches Some(t) && exists|n: nat|
            1000 <= n < 10000 && t@ == #[trigger] suffixed_name(
                Some(stem_of(final_part(new_name@))),
                n,
                extension@,
            )),
{
    if !name_needs_change(target_exists, new_name, old_name) {
        return Some(String::from_str(new_name));
    }
    let number: u16 = random_four_digit();
    match path_file_stem(new_name) {
        None => None,
        Some(stem) => {
            let name = match &stem {
                Some(s) => suffixed_file_name(Some(s.as_str()), number, extension),
                None => suffixed_file_name(None, number, extension),
            };
            Some(name)
        },
    }
}

/// The new name planned for the file at position `index` of the sorted list
/// (numbered from 1), with the extension of its name (`jpg` when it has none).
pub fn planned_name(index: usize, name: Option<&str>, config: &FormatConfig) -> (r: String)
    requires
        index < usize::MAX,
    ensures
        exists|date: Seq<char>|
            is_compact_date(date) && r@ == #[trigger] file_name_for(
                config.pattern@,
                config.prefix@,
                index as nat + 1,
                config.digits as nat,
                dotted_extension(opt_text(name), "jpg"@),
                date,
            ),
{
    let ext = dotted_extension_of(name, "jpg");
    let r = build_new_file_name(
        config.pattern.as_str(),
        config.prefix.as_str(),
        index + 1,
        config.digits,
        ext.as_str(),
    );
    proof {
        let date = choose|date: Seq<char>|
            is_compact_date(date) && r@ == #[trigger] file_name_for(
                config.pattern@,
                config.prefix@,
                (index + 1) as nat,
                config.digits as nat,
                ext@,
                date,
            );
        assert(is_compact_date(date) && r@ == file_name_for(
            config.pattern@,
            config.prefix@,
            index as nat + 1,
            config.digits as nat,
            dotted_extension(opt_text(name), "jpg"@),
            date,
        ));
    }
    r
}

/// Whether `shown` is the name planned for the file at position `index` of
/// `names`, for some date of the right shape.
pub open spec fn is_planned_name(
    shown: Seq<char>,
    names: Seq<Option<String>>,
    index: int,
    config: FormatConfig,
) -> bool {
    exists|date: Seq<char>|
        is_compact_date(date) && shown == #[trigger] file_name_for(
            config.pattern@,
            config.prefix@,
            (index + 1) as nat,
            config.digits as nat,
            dotted_extension(opt_string(names[index]), "jpg"@),
            date,
        )
}

/// The new names shown in the preview: those of the first `count` files.
pub fn preview_names(
    names: &Vec<Option<String>>,
    config: &FormatConfig,
    count: usize,
) -> (r: Vec<String>)
    ensures
        r.len() == (if count < names.len() { count } else { names.len() }),
        forall|k: int| 0 <= k < r.len() ==> is_planned_name((#[trigger] r@[k])@, names@, k, *config),
{
    let limit = if count < names.len() { count } else { names.len() };
    let mut out: Vec<String> = Vec::new();
    let mut k: usize = 0;
    while k < limit
        invariant
            limit <= names.len(),
            k <= limit,
            out.len() == k,
            forall|q: int| 0 <= q < k ==> is_planned_name((#[trigger] out@[q])@, names@, q, *config),
        decreases limit - k,
    {
        let name: Option<&str> = match &names[k] {
            Some(s) => Some(s.as_str()),
            None => None,
        };
        assert(opt_text(name) == opt_string(names@[k as int]));
        let planned = planned_name(k, name, config);
        let ghost prev = out@;
        out.push(planned);
        proof {
            let date = choose|date: Seq<char>|
                is_compact_date(date) && planned@ == #[trigger] file_name_for(
                    config.pattern@,
                    config.prefix@,
                    k as nat + 1,
                    config.digits as nat,
                    dotted_extension(opt_text(name), "jpg"@),
                    date,
                );
            assert(is_compact_date(date) && planned@ == file_name_for(
                config.pattern@,
                config.prefix@,
                (k + 1) as nat,
                config.digits as nat,
                dotted_extension(opt_string(names@[k as int]), "jpg"@),
                date,
            ));
            assert(is_planned_name(planned@, names@, k as int, *config));
            assert forall|q: int| 0 <= q < k + 1 implies is_planned_name(
                (#[trigger] out@[q])@,
                names@,
                q,
                *config,
            ) by {
                if q < k {
                    assert(out@[q] == prev[q]);
                } else {
                    assert(out@[q] == planned);
                }
            }
        }
        k = k + 1;
    }
    out
}

/// How many files the preview leaves out, when it leaves any out.
pub fn files_beyond_preview(total: usize, count: usize) -> (r: Option<usize>)
    ensures
        r == (if total > count { Some((total - count) as usize) } else { None::<usize> }),
{
    if total > count {
        Some(total - count)
    } else {
        None
    }
}

/// With a built-in pattern, files with different numbers get different
/// names, whatever their extensions (each a `.` and what follows it) and
/// whatever the dates.
pub proof fn lemma_builtin_names_distinct(
    pattern: Seq<char>,
    prefix: Seq<char>,
    a: nat,
    b: nat,
    digits: nat,
    ext_a: Seq<char>,
    ext_b: Seq<char>,
    date_a: Seq<char>,
    date_b: Seq<char>,
)
    requires
        is_builtin_pattern(pattern),
        a != b,
        ext_a.len() > 0 && ext_a[0] == '.',
        ext_b.len() > 0 && ext_b[0] == '.',
    ensures
        file_name_for(pattern, prefix, a, digits, ext_a, date_a) != file_name_for(
            pattern,
            prefix,
            b,
            digits,
            ext_b,
            date_b,
        ),
{
    let na = padded_decimal(a, digits);
    let nb = padded_decimal(b, digits);
    lemma_padded_decimal(a, digits);
    lemma_padded_decimal(b, digits);
    let head = if pattern == "NumberOnly"@ { Seq::<char>::empty() } else { prefix + seq!['_'] };
    let x = file_name_for(pattern, prefix, a, digits, ext_a, date_a);
    let y = file_name_for(pattern, prefix, b, digits, ext_b, date_b);
    assert(x =~= head + (na + ext_a));
    assert(y =~= head + (nb + ext_b));
    if x == y {
        assert(na + ext_a =~= x.skip(head.len() as int));
        assert(nb + ext_b =~= y.skip(head.len() as int));
        lemma_digits_before_dot(na, nb, ext_a, ext_b);
        lemma_padded_injective(a, b, digits);
    }
}

/// Two texts, each a run of digits followed by something starting with `.`,
/// are equal only when the digit runs are.
proof fn lemma_digits_before_dot(na: Seq<char>, nb: Seq<char>, ea: Seq<char>, eb: Seq<char>)
    requires
        crate::text::all_digits(na),
        crate::text::all_digits(nb),
        ea.len() > 0 && ea[0] == '.',
        eb.len() > 0 && eb[0] == '.',
        na + ea == nb + eb,
    ensures
        na == nb,
{
    let u = na + ea;
    if na.len() < nb.len() {
        assert(u[na.len() as int] == '.');
        assert(u[na.len() as int] == nb[na.len() as int]);
        assert(crate::text::is_digit(nb[na.len() as int]));
    } else if nb.len() < na.len() {
        assert(u[nb.len() as int] == '.');
        assert(u[nb.len() as int] == na[nb.len() as int]);
        assert(crate::text::is_digit(na[nb.len() as int]));
    } else {
        assert(na =~= u.take(na.len() as int));
        assert(nb =~= u.take(nb.len() as int));
    }
}

proof fn lemma_fill_without_placeholders(
    s: Seq<char>,
    number: Seq<char>,
    prefix: Seq<char>,
    date: Seq<char>,
    extension: Seq<char>,
)
    requires
        !contains_text(s, placeholder('N')),
        !contains_text(s, placeholder('P')),
        !contains_text(s, placeholder('D')),
        !contains_text(s, placeholder('E')),
    ensures
        filled_pattern(s, number, prefix, date, extension) == s,
    decreases s.len(),
{
    if s.len() > 0 {
        assert(!occurs_at(s, placeholder('N'), 0));
        assert(!occurs_at(s, placeholder('P'), 0));
        assert(!occurs_at(s, placeholder('D'), 0));
        assert(!occurs_at(s, placeholder('E'), 0));
        let r = s.drop_first();
        assert forall|c: char| !contains_text(s, placeholder(c)) implies !contains_text(r, placeholder(c)) by {
            if contains_text(r, placeholder(c)) {
                let i = choose|i: int| occurs_at(r, placeholder(c), i);
                assert(s.subrange(i + 1, i + 4) =~= r.subrange(i, i + 3));
                assert(occurs_at(s, placeholder(c), i + 1));
            }
        }
        lemma_fill_without_placeholders(r, number, prefix, date, extension);
        assert(seq![s[0]] + r =~= s);
    }
}

/// A custom pattern with none of the placeholders `{N}`, `{P}`, `{D}`, `{E}`
/// is used as it stands: the name is the pattern followed by the extension.
pub proof fn lemma_custom_without_placeholders(
    pattern: Seq<char>,
    prefix: Seq<char>,
    number: nat,
    digits: nat,
    extension: Seq<char>,
    date: Seq<char>,
)
    requires
        !is_builtin_pattern(pattern),
        !contains_text(pattern, placeholder('N')),
        !contains_text(pattern, placeholder('P')),
        !contains_text(pattern, placeholder('D')),
        !contains_text(pattern, placeholder('E')),
    ensures
        file_name_for(pattern, prefix, number, digits, extension, date) == pattern + extension,
{
    lemma_fill_without_placeholders(pattern, padded_decimal(number, digits), prefix, date, extension);
}

/// With a built-in pattern, the names of files numbered within the width
/// sort (character by character, the order of `sorted_order`) in the order of
/// their numbers.
pub proof fn lemma_builtin_names_in_number_order(
    pattern: Seq<char>,
    prefix: Seq<char>,
    a: nat,
    b: nat,
    digits: nat,
    extension: Seq<char>,
    date_a: Seq<char>,
    date_b: Seq<char>,
)
    requires
        is_builtin_pattern(pattern),
        a < b,
        b < pow(10, digits),
    ensures
        text_less(
            file_name_for(pattern, prefix, a, digits, extension, date_a),
            file_name_for(pattern, prefix, b, digits, extension, date_b),
        ),
{
    let na = padded_decimal(a, digits);
    let nb = padded_decimal(b, digits);
    lemma_padded_order(a, b, digits);
    lemma_padded_decimal(a, digits);
    lemma_padded_decimal(b, digits);
    reveal(pow);
    if digits == 0 {
        assert(pow(10, 0) == 1);
    }
    lemma_padded_width(a, digits);
    lemma_padded_width(b, digits);
    lemma_text_less_extend(na, nb, extension, extension);
    if pattern != "NumberOnly"@ {
        let head = prefix + seq!['_'];
        lemma_text_less_common_prefix(head, na + extension, nb + extension);
        assert(file_name_for(pattern, prefix, a, digits, extension, date_a) =~= head + (na
            + extension));
        assert(file_name_for(pattern, prefix, b, digits, extension, date_b) =~= head + (nb
            + extension));
    }
}

proof fn lemma_fill_without_date(
    s: Seq<char>,
    number: Seq<char>,
    prefix: Seq<char>,
    date_a: Seq<char>,
    date_b: Seq<char>,
    extension: Seq<char>,
)
    requires
        !contains_text(s, placeholder('D')),
    ensures
        filled_pattern(s, number, prefix, date_a, extension) == filled_pattern(
            s,
            number,
            prefix,
            date_b,
            extension,
        ),
    decreases s.len(),
{
    if s.len() > 0 {
        assert(!occurs_at(s, placeholder('D'), 0));
        assert forall|k: int| 1 <= k <= s.len() implies !contains_text(#[trigger] s.skip(k), placeholder('D')) by {
            if contains_text(s.skip(k), placeholder('D')) {
                let i = choose|i: int| occurs_at(s.skip(k), placeholder('D'), i);
                assert(s.subrange(i + k, i + k + 3) =~= s.skip(k).subrange(i, i + 3));
                assert(occurs_at(s, placeholder('D'), i + k));
            }
        }
        if s.len() >= 3 {
            lemma_fill_without_date(s.skip(3), number, prefix, date_a, date_b, extension);
        }
        assert(s.drop_first() =~= s.skip(1));
        lemma_fill_without_date(s.drop_first(), number, prefix, date_a, date_b, extension);
    }
}

/// A custom pattern without `{D}` gives a name that does not depend on the
/// date (the prefix is put in as typed, so a `{D}` inside it stays as it is).
pub proof fn lemma_custom_name_without_date(
    pattern: Seq<char>,
    prefix: Seq<char>,
    number: nat,
    digits: nat,
    extension: Seq<char>,
    date_a: Seq<char>,
    date_b: Seq<char>,
)
    requires
        !contains_text(pattern, placeholder('D')),
    ensures
        file_name_for(pattern, prefix, number, digits, extension, date_a) == file_name_for(
            pattern,
            prefix,
            number,
            digits,
            extension,
            date_b,
        ),
{
    lemma_fill_without_date(pattern, padded_decimal(number, digits), prefix, date_a, date_b, extension);
}

/// The number added to a taken name always has four digits.
pub proof fn lemma_suffix_has_four_digits(n: nat)
    requires
        1000 <= n < 10000,
    ensures
        decimal(n).len() == 4,
{
    reveal(pow);
    assert(pow(10, 0) == 1);
    assert(pow(10, 1) == 10);
    assert(pow(10, 2) == 100);
    assert(pow(10, 3) == 1000);
    assert(pow(10, 4) == 10000);
    lemma_decimal_length(n, 4);
    lemma_decimal_length(n, 3);
}

/// A fresh name is needed only when the planned name is taken: then exactly
/// when it differs, as text, from the file's own name (`unknown` when that
/// name is not text).
pub proof fn lemma_fresh_name_rule(new_name: Seq<char>, old_name: Option<Seq<char>>)
    ensures
        !needs_fresh_name(false, new_name, old_name),
        old_name matches Some(o) ==> (needs_fresh_name(true, new_name, old_name) <==> new_name
            != o),
        old_name is None ==> (needs_fresh_name(true, new_name, old_name) <==> new_name
            != "unknown"@),
{
}

proof fn lemma_last_dot_after(base: Seq<char>, ext: Seq<char>)
    requires
        forall|i: int| 0 <= i < ext.len() ==> #[trigger] ext[i] != '.',
    ensures
        last_dot(base + seq!['.'] + ext) == base.len(),
    decreases ext.len(),
{
    let name = base + seq!['.'] + ext;
    if ext.len() == 0 {
        assert(name.last() == '.');
    } else {
        assert(name.last() == ext.last());
        assert(name.drop_last() =~= base + seq!['.'] + ext.drop_last());
        lemma_last_dot_after(base, ext.drop_last());
    }
}

proof fn lemma_last_dot_none(s: Seq<char>)
    requires
        forall|i: int| 1 <= i < s.len() ==> #[trigger] s[i] != '.',
    ensures
        last_dot(s) <= 0,
    decreases s.len(),
{
    if s.len() > 1 {
        assert(s.last() == s[s.len() - 1]);
        assert forall|i: int| 1 <= i < s.drop_last().len() implies #[trigger] s.drop_last()[i] != '.' by {
            assert(s.drop_last()[i] == s[i]);
        }
        lemma_last_dot_none(s.drop_last());
    } else if s.len() == 1 {
        assert(s.drop_last() =~= Seq::<char>::empty());
        assert(last_dot(s.drop_last()) == -1);
    }
}

/// The extension is what follows the last `.`, whatever comes before it
/// (spaces, other dots, any text): a name made of a non-empty base, `.` and
/// a dot-free `ext` has the extension `ext` (the name `..` aside).
pub proof fn lemma_extension_after_last_dot(base: Seq<char>, ext: Seq<char>)
    requires
        base.len() > 0,
        forall|i: int| 0 <= i < ext.len() ==> #[trigger] ext[i] != '.',
        base + seq!['.'] + ext != seq!['.', '.'],
    ensures
        extension_of(base + seq!['.'] + ext) == Some(ext),
{
    lemma_last_dot_after(base, ext);
    assert((base + seq!['.'] + ext).skip(base.len() as int + 1) =~= ext);
}

/// A name with no `.` except possibly a leading one has no extension.
pub proof fn lemma_no_extension(name: Seq<char>)
    requires
        forall|i: int| 1 <= i < name.len() ==> #[trigger] name[i] != '.',
    ensures
        extension_of(name) is None,
{
    lemma_last_dot_none(name);
}

/// A name made with a built-in pattern is its head (nothing for `NumberOnly`,
/// the prefix and `_` otherwise), then at least `digits` characters that read
/// back as the number, then the extension.
pub proof fn lemma_builtin_name_parts(
    pattern: Seq<char>,
    prefix: Seq<char>,
    number: usize,
    digits: nat,
    extension: Seq<char>,
    date: Seq<char>,
)
    requires
        is_builtin_pattern(pattern),
    ensures
        ({
            let name = file_name_for(pattern, prefix, number as nat, digits, extension, date);
            let head = if pattern == "NumberOnly"@ {
                Seq::<char>::empty()
            } else {
                prefix + seq!['_']
            };
            &&& name.len() >= head.len() + digits + extension.len()
            &&& name.take(head.len() as int) == head
            &&& name.skip(name.len() - extension.len()) == extension
            &&& crate::text::parsed_usize(
                name.subrange(head.len() as int, name.len() - extension.len()),
            ) == Some(number)
        }),
{
    let num = padded_decimal(number as nat, digits);
    lemma_padded_decimal(number as nat, digits);
    crate::text::lemma_parse_padded(number, digits);
    let head = if pattern == "NumberOnly"@ { Seq::<char>::empty() } else { prefix + seq!['_'] };
    let name = file_name_for(pattern, prefix, number as nat, digits, extension, date);
    assert(name =~= head + num + extension);
    assert(name.take(head.len() as int) =~= head);
    assert(name.skip(name.len() - extension.len()) =~= extension);
    assert(name.subrange(head.len() as int, name.len() - extension.len()) =~= num);
}

/// What a placeholder is filled with.
pub open spec fn placeholder_value(
    c: char,
    number: Seq<char>,
    prefix: Seq<char>,
    date: Seq<char>,
    extension: Seq<char>,
) -> Seq<char> {
    if c == 'N' {
        number
    } else if c == 'P' {
        prefix
    } else if c == 'D' {
        date
    } else {
        extension
    }
}

/// Text without `{` is kept as it is, and the placeholder after it is put in
/// by its value (`{N}` the number, `{P}` the prefix, `{D}` the date, `{E}` the
/// extension) before the rest of the pattern is filled.
pub proof fn lemma_fill_text_then_placeholder(
    text: Seq<char>,
    c: char,
    rest: Seq<char>,
    number: Seq<char>,
    prefix: Seq<char>,
    date: Seq<char>,
    extension: Seq<char>,
)
    requires
        forall|i: int| 0 <= i < text.len() ==> #[trigger] text[i] != '{',
        c == 'N' || c == 'P' || c == 'D' || c == 'E',
    ensures
        filled_pattern(text + placeholder(c) + rest, number, prefix, date, extension) == text
            + placeholder_value(c, number, prefix, date, extension) + filled_pattern(
            rest,
            number,
            prefix,
            date,
            extension,
        ),
    decreases text.len(),
{
    let s = text + placeholder(c) + rest;
    if text.len() == 0 {
        assert(s =~= placeholder(c) + rest);
        assert(s.subrange(0, 3) =~= placeholder(c));
        assert(s.skip(3) =~= rest);
        assert(text + placeholder_value(c, number, prefix, date, extension) =~= placeholder_value(
            c,
            number,
            prefix,
            date,
            extension,
        ));
    } else {
        assert(s[0] == text[0]);
        assert forall|q: char| !occurs_at(s, placeholder(q), 0) by {
            if occurs_at(s, placeholder(q), 0) {
                assert(s.subrange(0, 3)[0] == '{');
            }
        }
        assert(s.drop_first() =~= text.drop_first() + placeholder(c) + rest);
        lemma_fill_text_then_placeholder(text.drop_first(), c, rest, number, prefix, date, extension);
        assert(seq![text[0]] + text.drop_first() =~= text);
        assert(seq![s[0]] + (text.drop_first() + placeholder_value(c, number, prefix, date, extension)
            + filled_pattern(rest, number, prefix, date, extension)) =~= text + placeholder_value(
            c,
            number,
            prefix,
            date,
            extension,
        ) + filled_pattern(rest, number, prefix, date, extension));
    }
}

} // verus!
