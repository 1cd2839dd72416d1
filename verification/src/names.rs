//! Name handling: recognizing video files by extension, deriving display
//! titles from raw file and directory names, and sort keys for ordering
//! directory entries.
use vstd::prelude::*;
use vstd::string::StrSliceExecFns;

verus! {

/// Code point of an ASCII character, with upper-case letters folded to
/// lower case; all other characters are left as they are.
pub open spec fn lower_u(c: char) -> u32 {
    if 'A' as u32 <= c as u32 && c as u32 <= 'Z' as u32 {
        (c as u32 + 32) as u32
    } else {
        c as u32
    }
}

/// An ASCII decimal digit.
pub open spec fn is_digit(c: char) -> bool {
    '0' as u32 <= c as u32 && c as u32 <= '9' as u32
}

/// Index of the last `.` in `s` within `[from, to)`, or `from - 1` if there
/// is none.
pub open spec fn last_dot_in(s: Seq<char>, from: int, to: int) -> int
    decreases to - from,
{
    if to <= from {
        from - 1
    } else if s[to - 1] == '.' {
        to - 1
    } else {
        last_dot_in(s, from, to - 1)
    }
}

/// Does the slice `s[from..to)` spell `lit`, ignoring ASCII case?
pub open spec fn spells(s: Seq<char>, from: int, to: int, lit: Seq<char>) -> bool {
    &&& to - from == lit.len()
    &&& forall|i: int| 0 <= i < lit.len() ==> lower_u(s[from + i]) == lit[i] as u32
}

/// Is `s[from..to)` one of the recognized video file extensions
/// (case-insensitive)?
pub open spec fn is_video_ext(s: Seq<char>, from: int, to: int) -> bool {
    ||| spells(s, from, to, seq!['m', 'p', '4'])
    ||| spells(s, from, to, seq!['m', 'k', 'v'])
    ||| spells(s, from, to, seq!['w', 'e', 'b', 'm'])
    ||| spells(s, from, to, seq!['a', 'v', 'i'])
    ||| spells(s, from, to, seq!['m', 'o', 'v'])
    ||| spells(s, from, to, seq!['w', 'm', 'v'])
    ||| spells(s, from, to, seq!['f', 'l', 'v'])
    ||| spells(s, from, to, seq!['m', '4', 'v'])
    ||| spells(s, from, to, seq!['m', 'p', 'g'])
    ||| spells(s, from, to, seq!['m', 'p', 'e', 'g'])
    ||| spells(s, from, to, seq!['3', 'g', 'p'])
    ||| spells(s, from, to, seq!['o', 'g', 'v'])
    ||| spells(s, from, to, seq!['t', 's'])
}

/// A file name counts as a video when it has an extension (a `.` that is
/// not its first character) and that extension is on the allow-list.
pub open spec fn is_video_name(s: Seq<char>) -> bool {
    let d = last_dot_in(s, 0, s.len() as int);
    d >= 1 && is_video_ext(s, d + 1, s.len() as int)
}

/// One past the index of the last `.` at or after `from` in `s[..to)`;
/// `from` itself when there is none.
pub(crate) fn find_after_last_dot(s: &str, from: usize, to: usize) -> (r: usize)
    requires
        from <= to <= s@.len(),
    ensures
        r as int == last_dot_in(s@, from as int, to as int) + 1,
        from <= r <= to,
{
    let mut j: usize = to;
    while j > from
        invariant
            from <= j <= to <= s@.len(),
            last_dot_in(s@, from as int, to as int) == last_dot_in(s@, from as int, j as int),
        decreases j,
    {
        if s.get_char(j - 1) == '.' {
            return j;
        }
        j = j - 1;
    }
    from
}

/// Lower-cased (ASCII) code points of `s[from..to)`.
pub(crate) fn lowered_units(s: &str, from: usize, to: usize) -> (r: Vec<u32>)
    requires
        from <= to <= s@.len(),
    ensures
        r@.len() == to - from,
        forall|i: int| 0 <= i < r@.len() ==> r@[i] == lower_u(s@[from + i]),
{
    let mut r: Vec<u32> = Vec::new();
    let mut i: usize = from;
    while i < to
        invariant
            from <= i <= to <= s@.len(),
            r@.len() == i - from,
            forall|k: int| 0 <= k < r@.len() ==> r@[k] == lower_u(s@[from + k]),
        decreases to - i,
    {
        let c = s.get_char(i);
        let u = c as u32;
        if 65 <= u && u <= 90 {
            r.push(u + 32);
        } else {
            r.push(u);
        }
        i = i + 1;
    }
    r
}

/// Does `s[from..to)` spell one of the recognized video extensions?
fn check_video_ext(s: &str, from: usize, to: usize) -> (r: bool)
    requires
        from <= to <= s@.len(),
    ensures
        r == is_video_ext(s@, from as int, to as int),
{
    let u = lowered_units(s, from, to);
    let n = u.len();
    if n == 2 {
        u[0] == 't' as u32 && u[1] == 's' as u32
    } else if n == 3 {
        let a = u[0];
        let b = u[1];
        let c = u[2];
        (a == 'm' as u32 && b == 'p' as u32 && c == '4' as u32) || (a == 'm' as u32 && b == 'k'
            as u32 && c == 'v' as u32) || (a == 'a' as u32 && b == 'v' as u32 && c == 'i' as u32)
            || (a == 'm' as u32 && b == 'o' as u32 && c == 'v' as u32) || (a == 'w' as u32 && b
            == 'm' as u32 && c == 'v' as u32) || (a == 'f' as u32 && b == 'l' as u32 && c == 'v'
            as u32) || (a == 'm' as u32 && b == '4' as u32 && c == 'v' as u32) || (a == 'm' as u32
            && b == 'p' as u32 && c == 'g' as u32) || (a == '3' as u32 && b == 'g' as u32 && c
            == 'p' as u32) || (a == 'o' as u32 && b == 'g' as u32 && c == 'v' as u32)
    } else if n == 4 {
        let a = u[0];
        let b = u[1];
        let c = u[2];
        let d = u[3];
        (a == 'w' as u32 && b == 'e' as u32 && c == 'b' as u32 && d == 'm' as u32) || (a == 'm'
            as u32 && b == 'p' as u32 && c == 'e' as u32 && d == 'g' as u32)
    } else {
        false
    }
}

/// Whether a character counts as whitespace when trimming names.
pub uninterp spec fn white_of(c: char) -> bool;

/// Relies on char::is_whitespace: whether a character has the Unicode
/// White_Space property depends on the character alone.
#[verifier::external_body]
fn is_white(c: char) -> (r: bool)
    ensures
        r == white_of(c),
{
    c.is_whitespace()
}

/// First index in `[from, to)` holding a non-whitespace character; `to` if
/// all of them are whitespace.
pub open spec fn skip_white_in(s: Seq<char>, from: int, to: int) -> int
    decreases to - from,
{
    if from >= to || !white_of(s[from]) {
        from
    } else {
        skip_white_in(s, from + 1, to)
    }
}

/// One past the last index in `[lo, j)` holding a non-whitespace
/// character; `lo` if all of them are whitespace.
pub open spec fn skip_white_back_in(s: Seq<char>, j: int, lo: int) -> int
    decreases j - lo,
{
    if j <= lo || !white_of(s[j - 1]) {
        j
    } else {
        skip_white_back_in(s, j - 1, lo)
    }
}

/// First index in `[from, to)` holding a non-digit character; `to` if all
/// of them are ASCII digits.
pub open spec fn skip_digits_in(s: Seq<char>, from: int, to: int) -> int
    decreases to - from,
{
    if from >= to || !is_digit(s[from]) {
        from
    } else {
        skip_digits_in(s, from + 1, to)
    }
}

fn skip_white(s: &str, from: usize, to: usize) -> (r: usize)
    requires
        from <= to <= s@.len(),
    ensures
        r as int == skip_white_in(s@, from as int, to as int),
        from <= r <= to,
    decreases to - from,
{
    let mut i: usize = from;
    while i < to
        invariant
            from <= i <= to <= s@.len(),
            skip_white_in(s@, from as int, to as int) == skip_white_in(s@, i as int, to as int),
        decreases to - i,
    {
        if !is_white(s.get_char(i)) {
            return i;
        }
        i = i + 1;
    }
    i
}

fn skip_white_back(s: &str, j: usize, lo: usize) -> (r: usize)
    requires
        lo <= j <= s@.len(),
    ensures
        r as int == skip_white_back_in(s@, j as int, lo as int),
        lo <= r <= j,
{
    let mut i: usize = j;
    while i > lo
        invariant
            lo <= i <= j <= s@.len(),
            skip_white_back_in(s@, j as int, lo as int) == skip_white_back_in(
                s@,
                i as int,
                lo as int,
            ),
        decreases i,
    {
        if !is_white(s.get_char(i - 1)) {
            return i;
        }
        i = i - 1;
    }
    i
}

fn skip_digits(s: &str, from: usize, to: usize) -> (r: usize)
    requires
        from <= to <= s@.len(),
    ensures
        r as int == skip_digits_in(s@, from as int, to as int),
        from <= r <= to,
        forall|j: int| from <= j < r ==> is_digit(s@[j]),
{
    let mut i: usize = from;
    while i < to
        invariant
            from <= i <= to <= s@.len(),
            skip_digits_in(s@, from as int, to as int) == skip_digits_in(s@, i as int, to as int),
            forall|j: int| from <= j < i ==> is_digit(s@[j]),
        decreases to - i,
    {
        let c = s.get_char(i);
        let u = c as u32;
        if !(48 <= u && u <= 57) {
            return i;
        }
        i = i + 1;
    }
    i
}

/// Length of the single separator pattern stripped right after a numeric
/// prefix, looking at `s[g..end)`: the first match among `" - "`, `". "`,
/// `"- "`, `"."`, `"_"`, `"-"`, `" "`, or 0 when none matches.
pub open spec fn sep_len(s: Seq<char>, g: int, end: int) -> int {
    if g + 3 <= end && s[g] == ' ' && s[g + 1] == '-' && s[g + 2] == ' ' {
        3
    } else if g + 2 <= end && s[g] == '.' && s[g + 1] == ' ' {
        2
    } else if g + 2 <= end && s[g] == '-' && s[g + 1] == ' ' {
        2
    } else if g + 1 <= end && s[g] == '.' {
        1
    } else if g + 1 <= end && s[g] == '_' {
        1
    } else if g + 1 <= end && s[g] == '-' {
        1
    } else if g + 1 <= end && s[g] == ' ' {
        1
    } else {
        0
    }
}

fn sep_len_at(s: &str, g: usize, end: usize) -> (r: usize)
    requires
        g <= end <= s@.len(),
    ensures
        r as int == sep_len(s@, g as int, end as int),
        g + r <= end,
{
    if end - g >= 3 && s.get_char(g) == ' ' && s.get_char(g + 1) == '-' && s.get_char(g + 2)
        == ' ' {
        3
    } else if end - g >= 2 && s.get_char(g) == '.' && s.get_char(g + 1) == ' ' {
        2
    } else if end - g >= 2 && s.get_char(g) == '-' && s.get_char(g + 1) == ' ' {
        2
    } else if end - g >= 1 && (s.get_char(g) == '.' || s.get_char(g) == '_' || s.get_char(g) == '-'
        || s.get_char(g) == ' ') {
        1
    } else {
        0
    }
}

/// Start of the trimmed part of `s`.
pub open spec fn trim_lo(s: Seq<char>) -> int {
    skip_white_in(s, 0, s.len() as int)
}

/// End of the trimmed part of `s`.
pub open spec fn trim_hi(s: Seq<char>) -> int {
    skip_white_back_in(s, s.len() as int, trim_lo(s))
}

/// End of the trimmed name once a recognized video extension has been
/// stripped from it.
pub open spec fn core_hi(s: Seq<char>) -> int {
    let a = trim_lo(s);
    let b = trim_hi(s);
    let d = last_dot_in(s, a, b);
    if d >= a && is_video_ext(s, d + 1, b) {
        d
    } else {
        b
    }
}

/// The display title derived from a raw file or directory name: trim
/// whitespace, strip a recognized video extension, strip a leading run of
/// ASCII digits together with at most one separator, and trim again.  When
/// no digits lead the name, or stripping leaves nothing, the trimmed
/// extension-free name is kept instead.
pub open spec fn clean_spec(s: Seq<char>) -> Seq<char> {
    let a = trim_lo(s);
    let b2 = core_hi(s);
    let g = skip_digits_in(s, a, b2);
    if g == a {
        s.subrange(a, b2)
    } else {
        let g1 = g + sep_len(s, g, b2);
        let g2 = skip_white_in(s, g1, b2);
        let b3 = skip_white_back_in(s, b2, g2);
        if g2 >= b3 {
            s.subrange(a, b2)
        } else {
            s.subrange(g2, b3)
        }
    }
}

/// Turn a raw file or directory name into a display title.
pub fn clean_name(name: &str) -> (r: String)
    ensures
        r@ == clean_spec(name@),
{
    let n = name.unicode_len();
    let a = skip_white(name, 0, n);
    let b = skip_white_back(name, n, a);
    let d1 = find_after_last_dot(name, a, b);
    let b2 = if d1 > a && check_video_ext(name, d1, b) {
        d1 - 1
    } else {
        b
    };
    let g = skip_digits(name, a, b2);
    if g == a {
        String::from_str(name.substring_char(a, b2))
    } else {
        let l = sep_len_at(name, g, b2);
        let g1 = g + l;
        let g2 = skip_white(name, g1, b2);
        let b3 = skip_white_back(name, b2, g2);
        if g2 >= b3 {
            String::from_str(name.substring_char(a, b2))
        } else {
            String::from_str(name.substring_char(g2, b3))
        }
    }
}

/// Does this file name name a video file?  The extension (the part after
/// the last `.`, provided that `.` is not the first character) must be on
/// the case-insensitive allow-list.
pub fn is_video(name: &str) -> (r: bool)
    ensures
        r == is_video_name(name@),
{
    let n = name.unicode_len();
    let d1 = find_after_last_dot(name, 0, n);
    if d1 >= 2 {
        check_video_ext(name, d1, n)
    } else {
        false
    }
}

/// What `str::to_lowercase` returns for a given character sequence.
pub uninterp spec fn lower_of(s: Seq<char>) -> Seq<char>;

/// Relies on str::to_lowercase: the result depends on the characters
/// alone.
#[verifier::external_body]
fn to_lower(s: &str) -> (r: String)
    ensures
        r@ == lower_of(s@),
{
    s.to_lowercase()
}

/// Length of the leading run of ASCII digits in a name.
pub open spec fn digit_run(s: Seq<char>) -> int {
    skip_digits_in(s, 0, s.len() as int)
}

/// Value of the decimal digits `s[from..to)`.
pub open spec fn dec_val(s: Seq<char>, from: int, to: int) -> int
    decreases to - from,
{
    if to <= from {
        0
    } else {
        dec_val(s, from, to - 1) * 10 + ((s[to - 1] as u32) - 48)
    }
}

/// The primary sort key of a name: the value of its leading digit run, or
/// `u64::MAX` when there is no such run or its value does not fit.
pub open spec fn prefix_key(s: Seq<char>) -> u64 {
    let r = digit_run(s);
    if r == 0 {
        u64::MAX
    } else if dec_val(s, 0, r) > u64::MAX {
        u64::MAX
    } else {
        dec_val(s, 0, r) as u64
    }
}

/// The key a directory entry is ordered by: the numeric prefix first, the
/// lower-cased full name as tie-break.
pub fn sort_key(name: &str) -> (r: (u64, String))
    ensures
        r.0 == prefix_key(name@),
        r.1@ == lower_of(name@),
{
    let n = name.unicode_len();
    let run = skip_digits(name, 0, n);
    let low = to_lower(name);
    if run == 0 {
        return (u64::MAX, low);
    }
    let mut val: u64 = 0;
    let mut over: bool = false;
    let mut i: usize = 0;
    while i < run
        invariant
            0 < run <= n,
            n == name@.len(),
            i <= run,
            forall|j: int| 0 <= j < run ==> is_digit(name@[j]),
            !over ==> val == dec_val(name@, 0, i as int),
            over ==> dec_val(name@, 0, i as int) > u64::MAX,
        decreases run - i,
    {
        let c = name.get_char(i);
        let d: u64 = (c as u32 - 48) as u64;
        if over {
        } else {
            match val.checked_mul(10) {
                Some(v) => {
                    match v.checked_add(d) {
                        Some(v2) => {
                            val = v2;
                        },
                        None => {
                            over = true;
                        },
                    }
                },
                None => {
                    over = true;
                },
            }
        }
        i = i + 1;
    }
    if over {
        (u64::MAX, low)
    } else {
        (val, low)
    }
}

/// Range bounds of `skip_digits_in`.
proof fn lemma_skip_digits_bounds(s: Seq<char>, from: int, to: int)
    requires
        0 <= from <= to <= s.len(),
    ensures
        from <= skip_digits_in(s, from, to) <= to,
    decreases to - from,
{
    if from < to && is_digit(s[from]) {
        lemma_skip_digits_bounds(s, from + 1, to);
    }
}

/// Range bounds of `skip_white_in`.
proof fn lemma_skip_white_bounds(s: Seq<char>, from: int, to: int)
    requires
        0 <= from <= to <= s.len(),
    ensures
        from <= skip_white_in(s, from, to) <= to,
    decreases to - from,
{
    if from < to && white_of(s[from]) {
        lemma_skip_white_bounds(s, from + 1, to);
    }
}

/// Range bounds of `skip_white_back_in`.
proof fn lemma_skip_white_back_bounds(s: Seq<char>, j: int, lo: int)
    requires
        0 <= lo <= j <= s.len(),
    ensures
        lo <= skip_white_back_in(s, j, lo) <= j,
    decreases j - lo,
{
    if j > lo && white_of(s[j - 1]) {
        lemma_skip_white_back_bounds(s, j - 1, lo);
    }
}

/// Range bounds of `last_dot_in`.
proof fn lemma_last_dot_bounds(s: Seq<char>, from: int, to: int)
    requires
        0 <= from <= to <= s.len(),
    ensures
        from - 1 <= last_dot_in(s, from, to) < to,
    decreases to - from,
{
    if from < to && s[to - 1] != '.' {
        lemma_last_dot_bounds(s, from, to - 1);
    }
}

/// Every character of the leading digit run is a digit.
proof fn lemma_run_digits(s: Seq<char>, from: int, to: int, j: int)
    requires
        0 <= from <= to <= s.len(),
        from <= j < skip_digits_in(s, from, to),
    ensures
        is_digit(s[j]),
    decreases j - from,
{
    if j > from {
        lemma_run_digits(s, from + 1, to, j);
    }
}

/// The value of a digit run is non-negative.
proof fn lemma_dec_val_nonneg(s: Seq<char>, from: int, to: int)
    requires
        0 <= from <= to <= s.len(),
        forall|j: int| from <= j < to ==> is_digit(s[j]),
    ensures
        dec_val(s, from, to) >= 0,
    decreases to - from,
{
    if to > from {
        lemma_dec_val_nonneg(s, from, to - 1);
    }
}

/// Ordering law: a name with a numeric prefix (whose value fits) sorts
/// strictly before any name without one.
pub proof fn lemma_sort_key_digits_first(a: Seq<char>, b: Seq<char>)
    requires
        digit_run(a) > 0,
        dec_val(a, 0, digit_run(a)) < u64::MAX,
        digit_run(b) == 0,
    ensures
        prefix_key(a) < prefix_key(b),
{
    lemma_skip_digits_bounds(a, 0, a.len() as int);
    assert forall|j: int| 0 <= j < digit_run(a) implies is_digit(a[j]) by {
        lemma_run_digits(a, 0, a.len() as int, j);
    }
    lemma_dec_val_nonneg(a, 0, digit_run(a));
}

/// Ordering law: numeric prefixes order numerically; the name whose prefix
/// has the smaller value sorts strictly first.
pub proof fn lemma_sort_key_numeric(a: Seq<char>, b: Seq<char>)
    requires
        digit_run(a) > 0,
        digit_run(b) > 0,
        dec_val(a, 0, digit_run(a)) < dec_val(b, 0, digit_run(b)),
        dec_val(b, 0, digit_run(b)) <= u64::MAX,
    ensures
        prefix_key(a) < prefix_key(b),
{
    lemma_skip_digits_bounds(a, 0, a.len() as int);
    assert forall|j: int| 0 <= j < digit_run(a) implies is_digit(a[j]) by {
        lemma_run_digits(a, 0, a.len() as int, j);
    }
    lemma_dec_val_nonneg(a, 0, digit_run(a));
}

/// A title in normal form: no surrounding whitespace, no recognized video
/// extension, no leading digit.
pub open spec fn normal_title(s: Seq<char>) -> bool {
    &&& trim_lo(s) == 0
    &&& trim_hi(s) == s.len()
    &&& core_hi(s) == s.len()
    &&& s.len() > 0 ==> !is_digit(s[0])
}

/// Normalization law: on a title already in normal form, `clean_name`
/// returns its input unchanged; normalization is idempotent there.
pub proof fn lemma_clean_name_idempotent(s: Seq<char>)
    requires
        normal_title(s),
    ensures
        clean_spec(s) == s,
{
    assert(skip_digits_in(s, 0, s.len() as int) == 0 || s.len() == 0);
    assert(s.subrange(0, s.len() as int) =~= s);
}

/// The first non-whitespace character is not trimmed away at the front.
proof fn lemma_skip_white_le(s: Seq<char>, from: int, to: int, i: int)
    requires
        0 <= from <= i < to <= s.len(),
        !white_of(s[i]),
    ensures
        skip_white_in(s, from, to) <= i,
    decreases i - from,
{
    if i > from && white_of(s[from]) {
        lemma_skip_white_le(s, from + 1, to, i);
    }
}

/// The last non-whitespace character is not trimmed away at the back.
proof fn lemma_skip_white_back_gt(s: Seq<char>, j: int, lo: int, i: int)
    requires
        0 <= lo <= i < j <= s.len(),
        !white_of(s[i]),
    ensures
        skip_white_back_in(s, j, lo) > i,
    decreases j - i,
{
    if j - 1 > i && white_of(s[j - 1]) {
        lemma_skip_white_back_gt(s, j - 1, lo, i);
    }
}

/// Normalization law: the title is never empty, provided the raw name
/// holds some non-whitespace character and stripping the video extension
/// does not erase the whole trimmed name.
pub proof fn lemma_clean_name_nonempty(s: Seq<char>)
    requires
        exists|i: int| 0 <= i < s.len() && !white_of(s[i]),
        core_hi(s) > trim_lo(s),
    ensures
        clean_spec(s).len() > 0,
{
    let n = s.len() as int;
    lemma_skip_white_bounds(s, 0, n);
    let a = trim_lo(s);
    lemma_skip_white_back_bounds(s, n, a);
    let b = trim_hi(s);
    lemma_last_dot_bounds(s, a, b);
    let b2 = core_hi(s);
    lemma_skip_digits_bounds(s, a, b2);
    let g = skip_digits_in(s, a, b2);
    if g != a {
        let g1 = g + sep_len(s, g, b2);
        lemma_skip_white_bounds(s, g1, b2);
        let g2 = skip_white_in(s, g1, b2);
        lemma_skip_white_back_bounds(s, b2, g2);
    }
}

} // verus!
