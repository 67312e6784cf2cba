//! Character-level text model used by the palette readers: Unicode
//! whitespace, line splitting, trimming, word splitting and number parsing.
//!
//! Every operation is stated over the text's characters (`Seq<char>`), the
//! same view that `&str` has in contracts.

use vstd::prelude::*;

verus! {

broadcast use vstd::string::axiom_spec_iter;

// ---------------------------------------------------------------------------
// Character classes
// ---------------------------------------------------------------------------

/// The Unicode `White_Space` property, which is what `char::is_whitespace`
/// (and so `str::trim` and `str::split_whitespace`) tests.
pub open spec fn is_ws(c: char) -> bool {
    let u = c as u32;
    ||| u == 0x20
    ||| (0x09 <= u && u <= 0x0d)
    ||| u == 0x85
    ||| u == 0xa0
    ||| u == 0x1680
    ||| (0x2000 <= u && u <= 0x200a)
    ||| u == 0x2028
    ||| u == 0x2029
    ||| u == 0x202f
    ||| u == 0x205f
    ||| u == 0x3000
}

pub open spec fn is_digit(c: char) -> bool {
    '0' <= c && c <= '9'
}

pub open spec fn is_hex(c: char) -> bool {
    ('0' <= c && c <= '9') || ('a' <= c && c <= 'f') || ('A' <= c && c <= 'F')
}

pub open spec fn is_ascii_alpha(c: char) -> bool {
    ('a' <= c && c <= 'z') || ('A' <= c && c <= 'Z')
}

pub open spec fn is_ascii(c: char) -> bool {
    (c as u32) < 0x80
}

/// Value of a decimal digit.
pub open spec fn digit_val(c: char) -> nat {
    ((c as u32) - 48) as nat
}

/// Value of a hexadecimal digit (either case).
pub open spec fn hex_val(c: char) -> nat {
    if '0' <= c && c <= '9' {
        ((c as u32) - 48) as nat
    } else if 'a' <= c && c <= 'f' {
        ((c as u32) - 87) as nat
    } else {
        ((c as u32) - 55) as nat
    }
}

/// Number of bytes that a character takes in UTF-8.
pub open spec fn char_utf8_len(c: char) -> nat {
    let u = c as u32;
    if u < 0x80 {
        1
    } else if u < 0x800 {
        2
    } else if u < 0x10000 {
        3
    } else {
        4
    }
}

/// Number of bytes that a text takes in UTF-8 (what `str::len` returns).
pub open spec fn utf8_len(s: Seq<char>) -> nat
    decreases s.len(),
{
    if s.len() == 0 {
        0
    } else {
        utf8_len(s.drop_last()) + char_utf8_len(s.last())
    }
}

pub fn is_whitespace(c: char) -> (b: bool)
    ensures
        b == is_ws(c),
{
    let u = c as u32;
    u == 0x20 || (0x09 <= u && u <= 0x0d) || u == 0x85 || u == 0xa0 || u == 0x1680 || (0x2000
        <= u && u <= 0x200a) || u == 0x2028 || u == 0x2029 || u == 0x202f || u == 0x205f || u
        == 0x3000
}

pub fn is_digit_char(c: char) -> (b: bool)
    ensures
        b == is_digit(c),
{
    '0' <= c && c <= '9'
}

pub fn is_hex_char(c: char) -> (b: bool)
    ensures
        b == is_hex(c),
{
    ('0' <= c && c <= '9') || ('a' <= c && c <= 'f') || ('A' <= c && c <= 'F')
}

pub fn is_ascii_alpha_char(c: char) -> (b: bool)
    ensures
        b == is_ascii_alpha(c),
{
    ('a' <= c && c <= 'z') || ('A' <= c && c <= 'Z')
}

fn hex_digit_value(c: char) -> (v: u8)
    requires
        is_hex(c),
    ensures
        v == hex_val(c),
        v < 16,
{
    let u = c as u32;
    if '0' <= c && c <= '9' {
        (u - 48) as u8
    } else if 'a' <= c && c <= 'f' {
        (u - 87) as u8
    } else {
        (u - 55) as u8
    }
}

// ---------------------------------------------------------------------------
// Turning a `&str` into characters
// ---------------------------------------------------------------------------

/// The characters of a string, in order.
pub fn chars_of(s: &str) -> (r: Vec<char>)
    ensures
        r@ == s@,
{
    let mut r: Vec<char> = Vec::new();
    for c in it: s.chars()
        invariant
            r@ == it.seq().take(it.index()),
            it.seq() == s@,
    {
        r.push(c);
    }
    r
}

/// Copy of `v[lo..hi]`.
pub fn sub_chars(v: &Vec<char>, lo: usize, hi: usize) -> (r: Vec<char>)
    requires
        lo <= hi <= v.len(),
    ensures
        r@ == v@.subrange(lo as int, hi as int),
{
    let mut r: Vec<char> = Vec::new();
    let mut i = lo;
    while i < hi
        invariant
            lo <= i <= hi <= v.len(),
            r@ == v@.subrange(lo as int, i as int),
        decreases hi - i,
    {
        r.push(v[i]);
        i += 1;
    }
    r
}

/// The views of a vector of character vectors.
pub open spec fn views(v: Seq<Vec<char>>) -> Seq<Seq<char>> {
    v.map_values(|x: Vec<char>| x@)
}

proof fn lemma_views_push(v: Seq<Vec<char>>, x: Vec<char>)
    ensures
        views(v.push(x)) == views(v).push(x@),
{
    assert(views(v.push(x)) =~= views(v).push(x@));
}

// ---------------------------------------------------------------------------
// Lines (`str::lines`)
// ---------------------------------------------------------------------------

/// Lines of `s`, reading it from the left with `cur` the part of the current
/// line already read. A line ends at each `'\n'`; a final line without a
/// terminating `'\n'` counts only when it is not empty.
pub open spec fn lines_from(s: Seq<char>, cur: Seq<char>) -> Seq<Seq<char>>
    decreases s.len(),
{
    if s.len() == 0 {
        if cur.len() == 0 {
            seq![]
        } else {
            seq![cur]
        }
    } else if s[0] == '\n' {
        seq![cur] + lines_from(s.drop_first(), seq![])
    } else {
        lines_from(s.drop_first(), cur.push(s[0]))
    }
}

/// The lines of a text, as `str::lines` yields them, up to a trailing `'\r'`
/// on each line (which every reader below removes when it trims the line).
pub open spec fn lines(s: Seq<char>) -> Seq<Seq<char>> {
    lines_from(s, seq![])
}

/// Splits text into its lines.
pub fn split_lines(text: &Vec<char>) -> (r: Vec<Vec<char>>)
    ensures
        views(r@) == lines(text@),
{
    let n = text.len();
    let mut out: Vec<Vec<char>> = Vec::new();
    let mut cur: Vec<char> = Vec::new();
    let mut i: usize = 0;
    assert(text@.skip(0) =~= text@);
    while i < n
        invariant
            n == text.len(),
            i <= n,
            lines(text@) == views(out@) + lines_from(text@.skip(i as int), cur@),
        decreases n - i,
    {
        let ghost s = text@.skip(i as int);
        assert(s.drop_first() =~= text@.skip(i + 1));
        let c = text[i];
        if c == '\n' {
            proof {
                lemma_views_push(out@, cur);
                assert(views(out@) + (seq![cur@] + lines_from(s.drop_first(), seq![])) =~= views(
                    out@,
                ).push(cur@) + lines_from(s.drop_first(), seq![]));
            }
            out.push(cur);
            cur = Vec::new();
            assert(cur@ =~= seq![]);
        } else {
            cur.push(c);
        }
        i += 1;
    }
    assert(text@.skip(n as int) =~= Seq::<char>::empty());
    if cur.len() > 0 {
        proof {
            lemma_views_push(out@, cur);
        }
        out.push(cur);
    } else {
        assert(views(out@) + Seq::<Seq<char>>::empty() =~= views(out@));
    }
    out
}

// ---------------------------------------------------------------------------
// Trimming (`str::trim`, `str::trim_start_matches('#')`)
// ---------------------------------------------------------------------------

pub open spec fn trim_start(s: Seq<char>) -> Seq<char>
    decreases s.len(),
{
    if s.len() > 0 && is_ws(s[0]) {
        trim_start(s.drop_first())
    } else {
        s
    }
}

pub open spec fn trim_end(s: Seq<char>) -> Seq<char>
    decreases s.len(),
{
    if s.len() > 0 && is_ws(s.last()) {
        trim_end(s.drop_last())
    } else {
        s
    }
}

/// `s` without leading and trailing whitespace.
pub open spec fn trim(s: Seq<char>) -> Seq<char> {
    trim_end(trim_start(s))
}

/// `s` without its leading `'#'` characters.
pub open spec fn strip_hashes(s: Seq<char>) -> Seq<char>
    decreases s.len(),
{
    if s.len() > 0 && s[0] == '#' {
        strip_hashes(s.drop_first())
    } else {
        s
    }
}

pub fn trim_chars(v: &Vec<char>) -> (r: Vec<char>)
    ensures
        r@ == trim(v@),
{
    let n = v.len();
    let mut lo: usize = 0;
    assert(v@.skip(0) =~= v@);
    while lo < n && is_whitespace(v[lo])
        invariant
            n == v.len(),
            lo <= n,
            trim_start(v@) == trim_start(v@.skip(lo as int)),
        decreases n - lo,
    {
        assert(v@.skip(lo as int).drop_first() =~= v@.skip(lo + 1));
        lo += 1;
    }
    let ghost t = v@.skip(lo as int);
    assert(trim_start(v@) == t);
    let mut hi: usize = n;
    assert(t =~= v@.subrange(lo as int, n as int));
    while hi > lo && is_whitespace(v[hi - 1])
        invariant
            n == v.len(),
            lo <= hi <= n,
            t == v@.skip(lo as int),
            trim_end(t) == trim_end(v@.subrange(lo as int, hi as int)),
        decreases hi,
    {
        assert(v@.subrange(lo as int, hi as int).drop_last() =~= v@.subrange(
            lo as int,
            hi - 1,
        ));
        hi -= 1;
    }
    sub_chars(v, lo, hi)
}

pub fn strip_hash_chars(v: &Vec<char>) -> (r: Vec<char>)
    ensures
        r@ == strip_hashes(v@),
{
    let n = v.len();
    let mut lo: usize = 0;
    assert(v@.skip(0) =~= v@);
    while lo < n && v[lo] == '#'
        invariant
            n == v.len(),
            lo <= n,
            strip_hashes(v@) == strip_hashes(v@.skip(lo as int)),
        decreases n - lo,
    {
        assert(v@.skip(lo as int).drop_first() =~= v@.skip(lo + 1));
        lo += 1;
    }
    assert(v@.skip(lo as int) =~= v@.subrange(lo as int, n as int));
    sub_chars(v, lo, n)
}

// ---------------------------------------------------------------------------
// Words (`str::split_whitespace`)
// ---------------------------------------------------------------------------

/// Whitespace-separated words of `s`, reading it from the left with `cur`
/// the part of the current word already read. Runs of whitespace separate
/// words; no word is empty.
pub open spec fn words_from(s: Seq<char>, cur: Seq<char>) -> Seq<Seq<char>>
    decreases s.len(),
{
    if s.len() == 0 {
        if cur.len() == 0 {
            seq![]
        } else {
            seq![cur]
        }
    } else if is_ws(s[0]) {
        if cur.len() == 0 {
            words_from(s.drop_first(), seq![])
        } else {
            seq![cur] + words_from(s.drop_first(), seq![])
        }
    } else {
        words_from(s.drop_first(), cur.push(s[0]))
    }
}

/// The words of a text, as `str::split_whitespace` yields them.
pub open spec fn words(s: Seq<char>) -> Seq<Seq<char>> {
    words_from(s, seq![])
}

pub fn split_words(text: &Vec<char>) -> (r: Vec<Vec<char>>)
    ensures
        views(r@) == words(text@),
{
    let n = text.len();
    let mut out: Vec<Vec<char>> = Vec::new();
    let mut cur: Vec<char> = Vec::new();
    let mut i: usize = 0;
    assert(text@.skip(0) =~= text@);
    while i < n
        invariant
            n == text.len(),
            i <= n,
            words(text@) == views(out@) + words_from(text@.skip(i as int), cur@),
        decreases n - i,
    {
        let ghost s = text@.skip(i as int);
        assert(s.drop_first() =~= text@.skip(i + 1));
        let c = text[i];
        if is_whitespace(c) {
            if cur.len() > 0 {
                proof {
                    lemma_views_push(out@, cur);
                    assert(views(out@) + (seq![cur@] + words_from(s.drop_first(), seq![])) =~= views(
                        out@,
                    ).push(cur@) + words_from(s.drop_first(), seq![]));
                }
                out.push(cur);
                cur = Vec::new();
                assert(cur@ =~= seq![]);
            } else {
                assert(cur@ =~= seq![]);
            }
        } else {
            cur.push(c);
        }
        i += 1;
    }
    assert(text@.skip(n as int) =~= Seq::<char>::empty());
    if cur.len() > 0 {
        proof {
            lemma_views_push(out@, cur);
        }
        out.push(cur);
    } else {
        assert(views(out@) + Seq::<Seq<char>>::empty() =~= views(out@));
    }
    out
}

// ---------------------------------------------------------------------------
// Numbers
// ---------------------------------------------------------------------------

pub open spec fn all_digits(s: Seq<char>) -> bool {
    forall|i: int| 0 <= i < s.len() ==> is_digit(#[trigger] s[i])
}

/// Decimal value of a string of digits.
pub open spec fn digits_value(s: Seq<char>) -> nat
    decreases s.len(),
{
    if s.len() == 0 {
        0
    } else {
        digits_value(s.drop_last()) * 10 + digit_val(s.last())
    }
}

/// What `str::parse::<u8>` gives: an optional `'+'`, then at least one
/// decimal digit, with a value that fits in a byte.
pub open spec fn parse_u8_spec(t: Seq<char>) -> Option<u8> {
    let d = if t.len() > 0 && t[0] == '+' {
        t.drop_first()
    } else {
        t
    };
    if d.len() > 0 && all_digits(d) && digits_value(d) <= 255 {
        Some(digits_value(d) as u8)
    } else {
        None
    }
}

pub fn all_digit_chars(t: &Vec<char>) -> (b: bool)
    ensures
        b == all_digits(t@),
{
    let n = t.len();
    let mut i: usize = 0;
    while i < n
        invariant
            n == t.len(),
            i <= n,
            forall|j: int| 0 <= j < i ==> is_digit(#[trigger] t@[j]),
        decreases n - i,
    {
        if !is_digit_char(t[i]) {
            return false;
        }
        i += 1;
    }
    true
}

/// Parses a byte in decimal, as `str::parse::<u8>` does.
pub fn parse_u8(t: &Vec<char>) -> (r: Option<u8>)
    ensures
        r == parse_u8_spec(t@),
{
    let n = t.len();
    let start: usize = if n > 0 && t[0] == '+' {
        1
    } else {
        0
    };
    let ghost d = t@.skip(start as int);
    assert(d =~= (if t@.len() > 0 && t@[0] == '+' {
        t@.drop_first()
    } else {
        t@
    }));
    if start >= n {
        return None;
    }
    let mut v: u32 = 0;
    let mut i: usize = start;
    assert(d.take(0) =~= Seq::<char>::empty());
    while i < n
        invariant
            n == t.len(),
            start <= i <= n,
            d == t@.skip(start as int),
            d == (if t@.len() > 0 && t@[0] == '+' {
                t@.drop_first()
            } else {
                t@
            }),
            forall|j: int| start <= j < i ==> is_digit(#[trigger] t@[j]),
            v as nat == (if digits_value(d.take(i - start)) <= 256 {
                digits_value(d.take(i - start))
            } else {
                256
            }),
        decreases n - i,
    {
        let c = t[i];
        if !is_digit_char(c) {
            assert(!is_digit(d[i - start]));
            return None;
        }
        let k = (c as u32) - 48;
        proof {
            let p = d.take(i + 1 - start);
            assert(p.drop_last() =~= d.take(i - start));
            assert(p.last() == c);
        }
        let next = v * 10 + k;
        v = if next > 256 {
            256
        } else {
            next
        };
        i += 1;
    }
    assert(d.take(n - start) =~= d);
    assert(all_digits(d));
    if v <= 255 {
        Some(v as u8)
    } else {
        None
    }
}

/// What `u8::from_str_radix(t, 16)` gives for a two-character `t`: an
/// optional `'+'` and one hex digit, or two hex digits.
pub open spec fn parse_hex_byte_spec(t: Seq<char>) -> Option<u8> {
    if t.len() != 2 {
        None
    } else if t[0] == '+' && is_hex(t[1]) {
        Some(hex_val(t[1]) as u8)
    } else if is_hex(t[0]) && is_hex(t[1]) {
        Some((hex_val(t[0]) * 16 + hex_val(t[1])) as u8)
    } else {
        None
    }
}

pub fn parse_hex_byte(t: &Vec<char>) -> (r: Option<u8>)
    ensures
        r == parse_hex_byte_spec(t@),
{
    if t.len() != 2 {
        None
    } else if t[0] == '+' && is_hex_char(t[1]) {
        Some(hex_digit_value(t[1]))
    } else if is_hex_char(t[0]) && is_hex_char(t[1]) {
        let hi = hex_digit_value(t[0]);
        let lo = hex_digit_value(t[1]);
        Some(hi * 16 + lo)
    } else {
        None
    }
}

/// Six hex digits `RRGGBB`.
pub open spec fn parse_hex6_spec(t: Seq<char>) -> Option<[u8; 3]> {
    if t.len() == 6 && (forall|i: int| 0 <= i < 6 ==> is_hex(#[trigger] t[i])) {
        Some(
            [
                (hex_val(t[0]) * 16 + hex_val(t[1])) as u8,
                (hex_val(t[2]) * 16 + hex_val(t[3])) as u8,
                (hex_val(t[4]) * 16 + hex_val(t[5])) as u8,
            ],
        )
    } else {
        None
    }
}

/// Parses `RRGGBB` (either case) into a color.
pub fn parse_hex6(t: &Vec<char>) -> (r: Option<[u8; 3]>)
    ensures
        r == parse_hex6_spec(t@),
{
    if t.len() != 6 {
        return None;
    }
    let mut i: usize = 0;
    while i < 6
        invariant
            t.len() == 6,
            i <= 6,
            forall|j: int| 0 <= j < i ==> is_hex(#[trigger] t@[j]),
        decreases 6 - i,
    {
        if !is_hex_char(t[i]) {
            return None;
        }
        i += 1;
    }
    let r = hex_digit_value(t[0]) * 16 + hex_digit_value(t[1]);
    let g = hex_digit_value(t[2]) * 16 + hex_digit_value(t[3]);
    let b = hex_digit_value(t[4]) * 16 + hex_digit_value(t[5]);
    Some([r, g, b])
}

/// UTF-8 length of `t`, or 9 when it is more than 8.
pub fn utf8_len_capped(t: &Vec<char>) -> (r: usize)
    ensures
        r == (if utf8_len(t@) <= 8 {
            utf8_len(t@)
        } else {
            9
        }),
{
    let n = t.len();
    let mut v: usize = 0;
    let mut i: usize = 0;
    assert(t@.take(0) =~= Seq::<char>::empty());
    while i < n
        invariant
            n == t.len(),
            i <= n,
            v == (if utf8_len(t@.take(i as int)) <= 8 {
                utf8_len(t@.take(i as int))
            } else {
                9
            }),
        decreases n - i,
    {
        let u = t[i] as u32;
        let w: usize = if u < 0x80 {
            1
        } else if u < 0x800 {
            2
        } else if u < 0x10000 {
            3
        } else {
            4
        };
        proof {
            assert(t@.take(i + 1).drop_last() =~= t@.take(i as int));
        }
        v = if v + w > 8 {
            9
        } else {
            v + w
        };
        i += 1;
    }
    assert(t@.take(n as int) =~= t@);
    v
}

} // verus!
