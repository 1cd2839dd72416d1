//! The byte-range request protocol: percent-decoding of request paths,
//! `Range` header parsing, MIME lookup by extension, and assembly of the
//! response head for either a partial (206) or a full (200) reply.
use vstd::prelude::*;
use vstd::string::StrSliceExecFns;
use vstd::string::StringSliceAdditionalSpecFns;
use vstd::string::StringExecFns;
use crate::names::{is_digit, dec_val, last_dot_in, lower_u, spells, lowered_units};

verus! {

/// An ASCII hexadecimal digit, as a byte.
pub open spec fn is_hex(b: u8) -> bool {
    (48 <= b && b <= 57) || (97 <= b && b <= 102) || (65 <= b && b <= 70)
}

/// Value of an ASCII hexadecimal digit.
pub open spec fn hex_val(b: u8) -> int {
    if 48 <= b && b <= 57 {
        b - 48
    } else if 97 <= b && b <= 102 {
        b - 87
    } else {
        b - 55
    }
}

/// Percent-decoding of a byte string: `%` followed by two hexadecimal
/// digits becomes the encoded byte; everything else passes through as it
/// is.
pub open spec fn decode_bytes(s: Seq<u8>) -> Seq<u8>
    decreases s.len(),
{
    if s.len() == 0 {
        Seq::empty()
    } else if s[0] == 37 && s.len() >= 3 && is_hex(s[1]) && is_hex(s[2]) {
        seq![(hex_val(s[1]) * 16 + hex_val(s[2])) as u8] + decode_bytes(s.skip(3))
    } else {
        seq![s[0]] + decode_bytes(s.skip(1))
    }
}

/// What `String::from_utf8_lossy` returns for a given byte sequence.
pub uninterp spec fn lossy_of(b: Seq<u8>) -> Seq<char>;

/// Relies on String::from_utf8_lossy: the result depends on the bytes
/// alone; an empty input gives an empty string.
#[verifier::external_body]
fn utf8_lossy(b: Vec<u8>) -> (r: String)
    ensures
        r@ == lossy_of(b@),
        b@.len() == 0 ==> r@.len() == 0,
{
    String::from_utf8_lossy(&b).into_owned()
}

fn hex_digit(b: u8) -> (r: Option<u8>)
    ensures
        match r {
            Some(v) => is_hex(b) && v == hex_val(b),
            None => !is_hex(b),
        },
{
    if 48 <= b && b <= 57 {
        Some(b - 48)
    } else if 97 <= b && b <= 102 {
        Some(b - 87)
    } else if 65 <= b && b <= 70 {
        Some(b - 55)
    } else {
        None
    }
}

fn decode_vec(bytes: &Vec<u8>) -> (r: Vec<u8>)
    ensures
        r@ == decode_bytes(bytes@),
{
    let n = bytes.len();
    let mut r: Vec<u8> = Vec::new();
    let mut i: usize = 0;
    proof {
        assert(bytes@.skip(0) =~= bytes@);
    }
    while i < n
        invariant
            i <= n == bytes@.len(),
            decode_bytes(bytes@) == r@ + decode_bytes(bytes@.skip(i as int)),
        decreases n - i,
    {
        let ghost rest = bytes@.skip(i as int);
        if bytes[i] == 37 && n - i > 2 {
            let h = hex_digit(bytes[i + 1]);
            let l = hex_digit(bytes[i + 2]);
            match (h, l) {
                (Some(h), Some(l)) => {
                    r.push(h * 16 + l);
                    proof {
                        assert(rest.skip(3) =~= bytes@.skip(i + 3));
                        assert(r@ + decode_bytes(bytes@.skip(i + 3)) =~= decode_bytes(bytes@));
                    }
                    i = i + 3;
                    continue ;
                },
                _ => {},
            }
        }
        r.push(bytes[i]);
        proof {
            assert(rest.skip(1) =~= bytes@.skip(i + 1));
            assert(r@ + decode_bytes(bytes@.skip(i + 1)) =~= decode_bytes(bytes@));
        }
        i = i + 1;
    }
    proof {
        assert(decode_bytes(bytes@.skip(n as int)) =~= Seq::<u8>::empty());
        assert(r@ =~= r@ + decode_bytes(bytes@.skip(n as int)));
    }
    r
}

/// Percent-decode a request path and read the bytes as UTF-8, replacing
/// invalid sequences.
pub fn url_decode(s: &str) -> (r: String)
    ensures
        r@ == lossy_of(decode_bytes(s.spec_bytes())),
{
    let bytes = s.as_bytes_vec();
    let dec = decode_vec(&bytes);
    utf8_lossy(dec)
}

/// First index at or after `i` holding `-`; the length if there is none.
pub open spec fn first_dash(s: Seq<char>, i: int) -> int
    decreases s.len() - i,
{
    if i < 0 || i >= s.len() {
        s.len() as int
    } else if s[i] == '-' {
        i
    } else {
        first_dash(s, i + 1)
    }
}

/// Are `s[i..j)` all ASCII digits?
pub open spec fn all_digits(s: Seq<char>, i: int, j: int) -> bool {
    forall|k: int| i <= k < j ==> is_digit(s[k])
}

/// The value `str::parse::<u64>` reads from `s[i..j)`: an optional `+`,
/// then at least one digit, with the value fitting in 64 bits.
pub open spec fn parse_u64(s: Seq<char>, i: int, j: int) -> Option<u64> {
    let i2 = if j > i && s[i] == '+' {
        i + 1
    } else {
        i
    };
    if j <= i2 {
        None
    } else if !all_digits(s, i2, j) {
        None
    } else if dec_val(s, i2, j) > u64::MAX {
        None
    } else {
        Some(dec_val(s, i2, j) as u64)
    }
}

fn parse_u64_exec(s: &str, i: usize, j: usize) -> (r: Option<u64>)
    requires
        i <= j <= s@.len(),
    ensures
        r == parse_u64(s@, i as int, j as int),
{
    let mut k: usize = i;
    if j > i && s.get_char(i) == '+' {
        k = i + 1;
    }
    let ghost i2 = k as int;
    if j <= k {
        return None;
    }
    let mut val: u64 = 0;
    let mut over: bool = false;
    while k < j
        invariant
            i2 <= k <= j <= s@.len(),
            i2 == if j > i && s@[i as int] == '+' {
                i + 1
            } else {
                i as int
            },
            i2 < j,
            all_digits(s@, i2, k as int),
            !over ==> val == dec_val(s@, i2, k as int),
            over ==> dec_val(s@, i2, k as int) > u64::MAX,
        decreases j - k,
    {
        let c = s.get_char(k);
        let u = c as u32;
        if !(48 <= u && u <= 57) {
            proof {
                assert(!is_digit(s@[k as int]));
                assert(!all_digits(s@, i2, j as int));
            }
            return None;
        }
        let d: u64 = (u - 48) as u64;
        if !over {
            match val.checked_mul(10) {
                Some(v) => {
                    match v.checked_add(d) {
                        Some(v2) => {
                            val = v2;
                        },
                        None => {
                            over = true;
                        },
                    }
                },
                None => {
                    over = true;
                },
            }
        }
        k = k + 1;
    }
    if over {
        None
    } else {
        Some(val)
    }
}

/// What a `Range` header asks of a resource of `total` bytes: an inclusive
/// byte span, or nothing when the header is missing, malformed or
/// unsatisfiable.  A suffix form `bytes=-N` takes the last `N` bytes; an
/// open end runs to the last byte; the end is clamped to the resource.  An
/// empty resource satisfies no range.
pub open spec fn range_spec(h: Seq<char>, total: u64) -> Option<(u64, u64)> {
    if h.len() < 6 || h[0] != 'b' || h[1] != 'y' || h[2] != 't' || h[3] != 'e' || h[4] != 's' || h[5]
        != '=' {
        None
    } else {
        let d = first_dash(h, 6);
        if d >= h.len() || total == 0 {
            None
        } else if d == 6 {
            match parse_u64(h, 7, h.len() as int) {
                None => None,
                Some(n) => if n == 0 {
                    None
                } else {
                    Some((if n > total { 0u64 } else { (total - n) as u64 }, (total - 1) as u64))
                },
            }
        } else {
            match parse_u64(h, 6, d) {
                None => None,
                Some(st) => {
                    let en = if d + 1 == h.len() {
                        Some((total - 1) as u64)
                    } else {
                        parse_u64(h, d + 1, h.len() as int)
                    };
                    match en {
                        None => None,
                        Some(en) => if st > en || st >= total {
                            None
                        } else {
                            Some((st, if en < (total - 1) as u64 {
                                en
                            } else {
                                (total - 1) as u64
                            }))
                        },
                    }
                },
            }
        }
    }
}

/// Parse a `Range` header against a resource of `total` bytes, yielding
/// the inclusive byte span to serve, or nothing when the full resource
/// should be served instead.
pub fn parse_range(header: &str, total: u64) -> (r: Option<(u64, u64)>)
    ensures
        r == range_spec(header@, total),
        r matches Some(se) ==> se.0 <= se.1 < total,
{
    let n = header.unicode_len();
    if n < 6 || header.get_char(0) != 'b' || header.get_char(1) != 'y' || header.get_char(2) != 't'
        || header.get_char(3) != 'e' || header.get_char(4) != 's' || header.get_char(5) != '=' {
        return None;
    }
    let mut d: usize = 6;
    while d < n && header.get_char(d) != '-'
        invariant
            6 <= d <= n == header@.len(),
            first_dash(header@, 6) == first_dash(header@, d as int),
        decreases n - d,
    {
        d = d + 1;
    }
    if d >= n || total == 0 {
        return None;
    }
    if d == 6 {
        match parse_u64_exec(header, 7, n) {
            None => None,
            Some(suffix) => {
                if suffix == 0 {
                    return None;
                }
                let start = if suffix > total {
                    0
                } else {
                    total - suffix
                };
                Some((start, total - 1))
            },
        }
    } else {
        match parse_u64_exec(header, 6, d) {
            None => None,
            Some(st) => {
                let en = if d + 1 == n {
                    Some(total - 1)
                } else {
                    parse_u64_exec(header, d + 1, n)
                };
                match en {
                    None => None,
                    Some(en) => {
                        if st > en || st >= total {
                            None
                        } else {
                            Some((st, if en < total - 1 {
                                en
                            } else {
                                total - 1
                            }))
                        }
                    },
                }
            },
        }
    }
}

/// Index after the last `/` in a path: where its file name starts.
pub open spec fn file_name_start(s: Seq<char>) -> int
    decreases s.len(),
{
    if s.len() == 0 {
        0
    } else if s.last() == '/' {
        s.len() as int
    } else {
        file_name_start(s.drop_last())
    }
}

/// The MIME type served for a file path, by the extension of its final
/// component (case-insensitive); unknown extensions are plain bytes.
/// Paths use `/` separators.
pub open spec fn mime_spec(path: Seq<char>) -> Seq<char> {
    let f = file_name_start(path);
    let d = last_dot_in(path, f, path.len() as int);
    let e = path.len() as int;
    if d < f + 1 {
        "application/octet-stream"@
    } else if spells(path, d + 1, e, seq!['m', 'p', '4']) || spells(
        path,
        d + 1,
        e,
        seq!['m', '4', 'v'],
    ) {
        "video/mp4"@
    } else if spells(path, d + 1, e, seq!['w', 'e', 'b', 'm']) {
        "video/webm"@
    } else if spells(path, d + 1, e, seq!['m', 'k', 'v']) {
        "video/x-matroska"@
    } else if spells(path, d + 1, e, seq!['a', 'v', 'i']) {
        "video/x-msvideo"@
    } else if spells(path, d + 1, e, seq!['m', 'o', 'v']) {
        "video/quicktime"@
    } else if spells(path, d + 1, e, seq!['w', 'm', 'v']) {
        "video/x-ms-wmv"@
    } else if spells(path, d + 1, e, seq!['f', 'l', 'v']) {
        "video/x-flv"@
    } else if spells(path, d + 1, e, seq!['m', 'p', 'g']) || spells(
        path,
        d + 1,
        e,
        seq!['m', 'p', 'e', 'g'],
    ) {
        "video/mpeg"@
    } else if spells(path, d + 1, e, seq!['3', 'g', 'p']) {
        "video/3gpp"@
    } else if spells(path, d + 1, e, seq!['o', 'g', 'v']) {
        "video/ogg"@
    } else if spells(path, d + 1, e, seq!['t', 's']) {
        "video/mp2t"@
    } else {
        "application/octet-stream"@
    }
}

fn find_file_name_start(s: &str) -> (r: usize)
    ensures
        r as int == file_name_start(s@),
        r <= s@.len(),
{
    let n = s.unicode_len();
    let mut j: usize = n;
    proof {
        assert(s@.take(n as int) =~= s@);
    }
    while j > 0
        invariant
            j <= n == s@.len(),
            file_name_start(s@) == file_name_start(s@.take(j as int)),
        decreases j,
    {
        proof {
            assert(s@.take(j as int).drop_last() =~= s@.take(j - 1));
            assert(s@.take(j as int).last() == s@[j - 1]);
        }
        if s.get_char(j - 1) == '/' {
            return j;
        }
        j = j - 1;
    }
    proof {
        assert(s@.take(0) =~= Seq::<char>::empty());
    }
    0
}

/// The MIME type for a video file path, from its extension.
pub fn video_mime(path: &str) -> (r: &'static str)
    ensures
        r@ == mime_spec(path@),
{
    let n = path.unicode_len();
    let f = find_file_name_start(path);
    let d1 = crate::names::find_after_last_dot(path, f, n);
    if d1 - f < 2 {
        return "application/octet-stream";
    }
    let u = lowered_units(path, d1, n);
    let m = u.len();
    if m == 2 {
        if u[0] == 't' as u32 && u[1] == 's' as u32 {
            return "video/mp2t";
        }
    } else if m == 3 {
        let a = u[0];
        let b = u[1];
        let c = u[2];
        if (a == 'm' as u32 && b == 'p' as u32 && c == '4' as u32) || (a == 'm' as u32 && b == '4'
            as u32 && c == 'v' as u32) {
            return "video/mp4";
        }
        if a == 'm' as u32 && b == 'k' as u32 && c == 'v' as u32 {
            return "video/x-matroska";
        }
        if a == 'a' as u32 && b == 'v' as u32 && c == 'i' as u32 {
            return "video/x-msvideo";
        }
        if a == 'm' as u32 && b == 'o' as u32 && c == 'v' as u32 {
            return "video/quicktime";
        }
        if a == 'w' as u32 && b == 'm' as u32 && c == 'v' as u32 {
            return "video/x-ms-wmv";
        }
        if a == 'f' as u32 && b == 'l' as u32 && c == 'v' as u32 {
            return "video/x-flv";
        }
        if a == 'm' as u32 && b == 'p' as u32 && c == 'g' as u32 {
            return "video/mpeg";
        }
        if a == '3' as u32 && b == 'g' as u32 && c == 'p' as u32 {
            return "video/3gpp";
        }
        if a == 'o' as u32 && b == 'g' as u32 && c == 'v' as u32 {
            return "video/ogg";
        }
    } else if m == 4 {
        let a = u[0];
        let b = u[1];
        let c = u[2];
        let d = u[3];
        if a == 'w' as u32 && b == 'e' as u32 && c == 'b' as u32 && d == 'm' as u32 {
            return "video/webm";
        }
        if a == 'm' as u32 && b == 'p' as u32 && c == 'e' as u32 && d == 'g' as u32 {
            return "video/mpeg";
        }
    }
    "application/octet-stream"
}

/// The decimal digit character for `d`.
pub open spec fn digit_char(d: int) -> char {
    ((d + 48) as u32) as char
}

/// The decimal rendering of a non-negative number.
pub open spec fn dec_str(n: int) -> Seq<char>
    decreases n,
{
    if n < 0 {
        Seq::empty()
    } else if n < 10 {
        seq![digit_char(n)]
    } else {
        dec_str(n / 10).push(digit_char(n % 10))
    }
}

fn digit_str(d: u64) -> (r: &'static str)
    requires
        d < 10,
    ensures
        r@ == seq![digit_char(d as int)],
{
    proof {
        reveal_strlit("0");
        reveal_strlit("1");
        reveal_strlit("2");
        reveal_strlit("3");
        reveal_strlit("4");
        reveal_strlit("5");
        reveal_strlit("6");
        reveal_strlit("7");
        reveal_strlit("8");
        reveal_strlit("9");
    }
    let r = if d == 0 {
        "0"
    } else if d == 1 {
        "1"
    } else if d == 2 {
        "2"
    } else if d == 3 {
        "3"
    } else if d == 4 {
        "4"
    } else if d == 5 {
        "5"
    } else if d == 6 {
        "6"
    } else if d == 7 {
        "7"
    } else if d == 8 {
        "8"
    } else {
        "9"
    };
    proof {
        assert(r@ =~= seq![digit_char(d as int)]);
    }
    r
}

/// The decimal text of a number.
pub fn u64_to_string(n: u64) -> (r: String)
    ensures
        r@ == dec_str(n as int),
    decreases n,
{
    if n < 10 {
        String::from_str(digit_str(n))
    } else {
        proof {
            assert(n / 10 < n) by (nonlinear_arith)
                requires
                    n >= 10,
            ;
        }
        let mut s = u64_to_string(n / 10);
        s.append(digit_str(n % 10));
        proof {
            assert(s@ =~= dec_str(n as int));
        }
        s
    }
}

/// The `Content-Range` header line for one served span.
pub open spec fn content_range_spec(start: u64, end: u64, total: u64) -> Seq<char> {
    "bytes "@ + dec_str(start as int) + "-"@ + dec_str(end as int) + "/"@ + dec_str(total as int)
}

/// Render `bytes {start}-{end}/{total}`.
pub fn content_range_str(start: u64, end: u64, total: u64) -> (r: String)
    ensures
        r@ == content_range_spec(start, end, total),
{
    let mut s = String::from_str("bytes ");
    s.append(u64_to_string(start).as_str());
    s.append("-");
    s.append(u64_to_string(end).as_str());
    s.append("/");
    s.append(u64_to_string(total).as_str());
    proof {
        assert(s@ =~= content_range_spec(start, end, total));
    }
    s
}

/// Everything about a streaming reply except the body bytes themselves:
/// the status, which byte span of the file to read, and the length and
/// range header values.
pub struct StreamHead {
    /// 206 for a served range, 200 for the whole file.
    pub status: u16,
    /// First byte offset to read.
    pub start: u64,
    /// How many bytes to read and declare as Content-Length.
    pub length: u64,
    /// The Content-Length header value.
    pub content_length: String,
    /// The Content-Range header value, present exactly on a 206 reply.
    pub content_range: Option<String>,
}

/// Plan the reply to a streaming request: a valid `Range` header yields a
/// partial-content reply over exactly the requested span; anything else
/// yields a full reply.  The header is taken as empty when absent.
pub fn stream_head(header: &str, total: u64) -> (r: StreamHead)
    ensures
        match range_spec(header@, total) {
            Some(se) => {
                &&& r.status == 206
                &&& r.start == se.0
                &&& r.length == se.1 - se.0 + 1
                &&& r.content_length@ == dec_str(r.length as int)
                &&& r.content_range matches Some(cr) && cr@ == content_range_spec(
                    se.0,
                    se.1,
                    total,
                )
            },
            None => {
                &&& r.status == 200
                &&& r.start == 0
                &&& r.length == total
                &&& r.content_length@ == dec_str(total as int)
                &&& r.content_range is None
            },
        },
{
    match parse_range(header, total) {
        Some((start, end)) => {
            let len = end - start + 1;
            StreamHead {
                status: 206,
                start,
                length: len,
                content_length: u64_to_string(len),
                content_range: Some(content_range_str(start, end, total)),
            }
        },
        None => StreamHead {
            status: 200,
            start: 0,
            length: total,
            content_length: u64_to_string(total),
            content_range: None,
        },
    }
}

} // verus!
