//! Palettes: reading the palette file formats, and exact-color lookup.
//!
//! Each reader returns the opaque colors of its format, in file order, and
//! drops the entries that the format marks as fully transparent.

use vstd::prelude::*;
use std::collections::HashMap;

use crate::paths::{extension_of, lower_ext_chars, lower_extension, lower_or_empty, opt_view};
use crate::text::{
    all_digit_chars, all_digits, char_utf8_len, chars_of, is_ascii, is_ascii_alpha,
    is_ascii_alpha_char, lines, parse_hex6, parse_hex6_spec, parse_hex_byte,
    parse_hex_byte_spec, parse_u8, parse_u8_spec, split_lines, split_words, strip_hash_chars,
    strip_hashes, sub_chars, trim, trim_chars, utf8_len, utf8_len_capped, views, words,
};

verus! {

broadcast use vstd::std_specs::hash::group_hash_axioms;

/// How nearest-color distance is measured.
#[derive(Clone, Copy, Debug, PartialEq, Eq, Structural)]
pub enum Metric {
    /// Euclidean distance in Oklab (perceptually uniform). The default.
    Oklab,
    /// Oklab distance with the lightness axis weighted up.
    Weighted,
    /// Euclidean distance in linear sRGB.
    Srgb,
}

// ---------------------------------------------------------------------------
// The formats, as functions of the text
// ---------------------------------------------------------------------------

/// The colors that `f` reads from each line, in order; lines for which `f`
/// gives `None` contribute nothing.
pub open spec fn collect_entries(
    ls: Seq<Seq<char>>,
    f: spec_fn(Seq<char>) -> Option<[u8; 3]>,
) -> Seq<[u8; 3]>
    decreases ls.len(),
{
    if ls.len() == 0 {
        seq![]
    } else {
        let rest = collect_entries(ls.drop_first(), f);
        match f(ls[0]) {
            Some(c) => seq![c] + rest,
            None => rest,
        }
    }
}

/// The leading all-digit words of a GIMP row, each read as a byte; a digit
/// word that does not fit in a byte is skipped.
pub open spec fn gpl_numbers(ws: Seq<Seq<char>>) -> Seq<u8>
    decreases ws.len(),
{
    if ws.len() == 0 || !all_digits(ws[0]) {
        seq![]
    } else {
        let rest = gpl_numbers(ws.drop_first());
        match parse_u8_spec(ws[0]) {
            Some(n) => seq![n] + rest,
            None => rest,
        }
    }
}

/// One line of a GIMP `.gpl` palette: `R G B [A] name`. Empty lines, `#`
/// comments and header lines (starting with a letter) hold no color; neither
/// does a row with fewer than three numbers or with alpha 0.
pub open spec fn gpl_entry(line: Seq<char>) -> Option<[u8; 3]> {
    let t = trim(line);
    if t.len() == 0 || t[0] == '#' || is_ascii_alpha(t[0]) {
        None
    } else {
        let nums = gpl_numbers(words(t));
        if nums.len() < 3 {
            None
        } else if nums.len() >= 4 && nums[3] == 0 {
            None
        } else {
            Some([nums[0], nums[1], nums[2]])
        }
    }
}

/// Every word of a row that reads as a byte, in order.
pub open spec fn byte_words(ws: Seq<Seq<char>>) -> Seq<u8>
    decreases ws.len(),
{
    if ws.len() == 0 {
        seq![]
    } else {
        let rest = byte_words(ws.drop_first());
        match parse_u8_spec(ws[0]) {
            Some(n) => seq![n] + rest,
            None => rest,
        }
    }
}

/// One color row of a JASC `.pal` palette: its first three byte words.
pub open spec fn jasc_entry(line: Seq<char>) -> Option<[u8; 3]> {
    let t = trim(line);
    if t.len() == 0 {
        None
    } else {
        let nums = byte_words(words(t));
        if nums.len() >= 3 {
            Some([nums[0], nums[1], nums[2]])
        } else {
            None
        }
    }
}

/// One line of a `.hex` list: `RRGGBB` after any leading `#`s; empty lines
/// and `;` comments hold no color.
pub open spec fn hex_entry(line: Seq<char>) -> Option<[u8; 3]> {
    let t = trim(line);
    if t.len() == 0 || t[0] == ';' {
        None
    } else {
        parse_hex6_spec(strip_hashes(t))
    }
}

/// The token of a Paint.NET line: the trimmed line without leading `#`s.
pub open spec fn paintnet_token(line: Seq<char>) -> Seq<char> {
    strip_hashes(trim(line))
}

pub open spec fn paintnet_skipped(line: Seq<char>) -> bool {
    let t = trim(line);
    t.len() == 0 || t[0] == ';'
}

/// One line of a Paint.NET `.txt` palette: an eight-byte token `AARRGGBB`
/// with nonzero alpha gives `RRGGBB`; any other token is read as `RRGGBB`.
pub open spec fn paintnet_entry(line: Seq<char>) -> Option<[u8; 3]> {
    if paintnet_skipped(line) {
        None
    } else {
        let tok = paintnet_token(line);
        if utf8_len(tok) == 8 {
            if tok.len() >= 2 && is_ascii(tok[0]) && is_ascii(tok[1]) {
                match (parse_hex_byte_spec(tok.take(2)), parse_hex6_spec(tok.skip(2))) {
                    (Some(a), Some(rgb)) => if a != 0 {
                        Some(rgb)
                    } else {
                        None
                    },
                    _ => None,
                }
            } else {
                None
            }
        } else {
            parse_hex6_spec(tok)
        }
    }
}

/// A Paint.NET line can be read: an eight-byte token is cut after its
/// second byte, which must therefore end a character.
pub open spec fn paintnet_line_readable(line: Seq<char>) -> bool {
    let tok = paintnet_token(line);
    paintnet_skipped(line) || utf8_len(tok) != 8 || (tok.len() >= 1 && char_utf8_len(tok[0])
        == 2) || (tok.len() >= 2 && is_ascii(tok[0]) && is_ascii(tok[1]))
}

pub open spec fn paintnet_readable(text: Seq<char>) -> bool {
    forall|i: int| 0 <= i < lines(text).len() ==> paintnet_line_readable(#[trigger] lines(text)[i])
}

pub open spec fn gpl_colors(text: Seq<char>) -> Seq<[u8; 3]> {
    collect_entries(lines(text), |l: Seq<char>| gpl_entry(l))
}

/// A JASC palette: three header lines, then color rows.
pub open spec fn jasc_colors(text: Seq<char>) -> Seq<[u8; 3]> {
    let ls = lines(text);
    if ls.len() <= 3 {
        seq![]
    } else {
        collect_entries(ls.skip(3), |l: Seq<char>| jasc_entry(l))
    }
}

pub open spec fn hex_colors(text: Seq<char>) -> Seq<[u8; 3]> {
    collect_entries(lines(text), |l: Seq<char>| hex_entry(l))
}

pub open spec fn paintnet_colors(text: Seq<char>) -> Seq<[u8; 3]> {
    collect_entries(lines(text), |l: Seq<char>| paintnet_entry(l))
}

/// The format chosen by a palette file's lower-cased extension: `pal`,
/// `hex` and `txt` have their own readers; anything else is read as GIMP.
pub open spec fn colors_for_extension(ext: Seq<char>, text: Seq<char>) -> Seq<[u8; 3]> {
    if ext == seq!['p', 'a', 'l'] {
        jasc_colors(text)
    } else if ext == seq!['h', 'e', 'x'] {
        hex_colors(text)
    } else if ext == seq!['t', 'x', 't'] {
        paintnet_colors(text)
    } else {
        gpl_colors(text)
    }
}

// ---------------------------------------------------------------------------
// Readers
// ---------------------------------------------------------------------------

proof fn lemma_collect_step(
    ls: Seq<Seq<char>>,
    i: int,
    f: spec_fn(Seq<char>) -> Option<[u8; 3]>,
)
    requires
        0 <= i < ls.len(),
    ensures
        collect_entries(ls.skip(i), f) == (match f(ls[i]) {
            Some(c) => seq![c] + collect_entries(ls.skip(i + 1), f),
            None => collect_entries(ls.skip(i + 1), f),
        }),
{
    assert(ls.skip(i).drop_first() =~= ls.skip(i + 1));
}

fn gpl_entry_of(line: &Vec<char>) -> (r: Option<[u8; 3]>)
    ensures
        r == gpl_entry(line@),
{
    let t = trim_chars(line);
    if t.len() == 0 || t[0] == '#' || is_ascii_alpha_char(t[0]) {
        return None;
    }
    let ws = split_words(&t);
    let ghost wv = views(ws@);
    let mut nums: Vec<u8> = Vec::new();
    let mut i: usize = 0;
    let mut stop = false;
    assert(wv.skip(0) =~= wv);
    while i < ws.len() && !stop
        invariant
            wv == views(ws@),
            wv == words(t@),
            i <= ws.len(),
            gpl_numbers(wv) == nums@ + (if stop {
                Seq::empty()
            } else {
                gpl_numbers(wv.skip(i as int))
            }),
        decreases ws.len() - i, (if stop { 0int } else { 1int }),
    {
        let ghost s = wv.skip(i as int);
        assert(s.drop_first() =~= wv.skip(i + 1));
        assert(s[0] == ws@[i as int]@);
        if !all_digit_chars(&ws[i]) {
            assert(gpl_numbers(s) =~= Seq::<u8>::empty());
            stop = true;
        } else {
            match parse_u8(&ws[i]) {
                Some(n) => {
                    assert(nums@ + (seq![n] + gpl_numbers(s.drop_first())) =~= nums@.push(n)
                        + gpl_numbers(s.drop_first()));
                    nums.push(n);
                },
                None => {},
            }
            i += 1;
        }
    }
    if !stop {
        assert(wv.skip(i as int) =~= Seq::<Seq<char>>::empty());
    }
    assert(gpl_numbers(wv) =~= nums@);
    if nums.len() < 3 {
        None
    } else if nums.len() >= 4 && nums[3] == 0 {
        None
    } else {
        Some([nums[0], nums[1], nums[2]])
    }
}

fn jasc_entry_of(line: &Vec<char>) -> (r: Option<[u8; 3]>)
    ensures
        r == jasc_entry(line@),
{
    let t = trim_chars(line);
    if t.len() == 0 {
        return None;
    }
    let ws = split_words(&t);
    let ghost wv = views(ws@);
    let mut nums: Vec<u8> = Vec::new();
    let mut i: usize = 0;
    assert(wv.skip(0) =~= wv);
    while i < ws.len()
        invariant
            wv == views(ws@),
            wv == words(t@),
            i <= ws.len(),
            byte_words(wv) == nums@ + byte_words(wv.skip(i as int)),
        decreases ws.len() - i,
    {
        let ghost s = wv.skip(i as int);
        assert(s.drop_first() =~= wv.skip(i + 1));
        assert(s[0] == ws@[i as int]@);
        match parse_u8(&ws[i]) {
            Some(n) => {
                assert(nums@ + (seq![n] + byte_words(s.drop_first())) =~= nums@.push(n)
                    + byte_words(s.drop_first()));
                nums.push(n);
            },
            None => {},
        }
        i += 1;
    }
    assert(wv.skip(i as int) =~= Seq::<Seq<char>>::empty());
    assert(byte_words(wv) =~= nums@);
    if nums.len() >= 3 {
        Some([nums[0], nums[1], nums[2]])
    } else {
        None
    }
}

fn hex_entry_of(line: &Vec<char>) -> (r: Option<[u8; 3]>)
    ensures
        r == hex_entry(line@),
{
    let t = trim_chars(line);
    if t.len() == 0 || t[0] == ';' {
        return None;
    }
    let tok = strip_hash_chars(&t);
    parse_hex6(&tok)
}

fn paintnet_entry_of(line: &Vec<char>) -> (r: Option<[u8; 3]>)
    requires
        paintnet_line_readable(line@),
    ensures
        r == paintnet_entry(line@),
{
    let t = trim_chars(line);
    if t.len() == 0 || t[0] == ';' {
        return None;
    }
    let tok = strip_hash_chars(&t);
    if utf8_len_capped(&tok) == 8 {
        if tok.len() >= 2 && (tok[0] as u32) < 0x80 && (tok[1] as u32) < 0x80 {
            let a = parse_hex_byte(&sub_chars(&tok, 0, 2));
            let rgb = parse_hex6(&sub_chars(&tok, 2, tok.len()));
            assert(tok@.subrange(0, 2) =~= tok@.take(2));
            assert(tok@.subrange(2, tok@.len() as int) =~= tok@.skip(2));
            match (a, rgb) {
                (Some(a), Some(rgb)) => if a != 0 {
                    Some(rgb)
                } else {
                    None
                },
                _ => None,
            }
        } else {
            None
        }
    } else {
        parse_hex6(&tok)
    }
}

/// Whether every line of a Paint.NET palette text can be read (see
/// [`paintnet_line_readable`]).
pub fn paintnet_text_readable(text: &str) -> (r: bool)
    ensures
        r == paintnet_readable(text@),
{
    let cs = chars_of(text);
    let ls = split_lines(&cs);
    let ghost lv = views(ls@);
    let mut i: usize = 0;
    while i < ls.len()
        invariant
            lv == views(ls@),
            lv == lines(text@),
            i <= ls.len(),
            forall|j: int| 0 <= j < i ==> paintnet_line_readable(#[trigger] lv[j]),
        decreases ls.len() - i,
    {
        let line = &ls[i];
        let t = trim_chars(line);
        if !(t.len() == 0 || t[0] == ';') {
            let tok = strip_hash_chars(&t);
            if utf8_len_capped(&tok) == 8 {
                let first_two_bytes = tok.len() >= 1 && {
                    let u = tok[0] as u32;
                    0x80 <= u && u < 0x800
                };
                let two_ascii = tok.len() >= 2 && (tok[0] as u32) < 0x80 && (tok[1] as u32) < 0x80;
                if !first_two_bytes && !two_ascii {
                    assert(!paintnet_line_readable(lv[i as int]));
                    return false;
                }
            }
        }
        assert(paintnet_line_readable(lv[i as int]));
        i += 1;
    }
    true
}

/// GIMP `.gpl`: `R G B [A]\tName` rows, with `GIMP Palette` / `Name:` /
/// `Columns:` / `Channels:` headers and `#` comments. Rows with alpha 0 are
/// dropped.
pub fn parse_gpl(text: &str) -> (r: Vec<[u8; 3]>)
    ensures
        r@ == gpl_colors(text@),
{
    let cs = chars_of(text);
    let ls = split_lines(&cs);
    let ghost lv = views(ls@);
    let ghost f = |l: Seq<char>| gpl_entry(l);
    let mut out: Vec<[u8; 3]> = Vec::new();
    let mut i: usize = 0;
    assert(lv.skip(0) =~= lv);
    while i < ls.len()
        invariant
            lv == views(ls@),
            lv == lines(text@),
            i <= ls.len(),
            f == (|l: Seq<char>| gpl_entry(l)),
            gpl_colors(text@) == out@ + collect_entries(lv.skip(i as int), f),
        decreases ls.len() - i,
    {
        proof {
            lemma_collect_step(lv, i as int, f);
            assert(lv[i as int] == ls@[i as int]@);
            assert(f(lv[i as int]) == gpl_entry(lv[i as int]));
        }
        match gpl_entry_of(&ls[i]) {
            Some(c) => {
                assert(out@ + (seq![c] + collect_entries(lv.skip(i + 1), f)) =~= out@.push(c)
                    + collect_entries(lv.skip(i + 1), f));
                out.push(c);
            },
            None => {},
        }
        i += 1;
    }
    assert(lv.skip(i as int) =~= Seq::<Seq<char>>::empty());
    assert(out@ + Seq::<[u8; 3]>::empty() =~= out@);
    out
}

/// JASC `.pal`: `JASC-PAL` / `0100` / count header, then `R G B` rows.
pub fn parse_jasc(text: &str) -> (r: Vec<[u8; 3]>)
    ensures
        r@ == jasc_colors(text@),
{
    let cs = chars_of(text);
    let ls = split_lines(&cs);
    let ghost lv = views(ls@);
    let ghost f = |l: Seq<char>| jasc_entry(l);
    let mut out: Vec<[u8; 3]> = Vec::new();
    if ls.len() <= 3 {
        return out;
    }
    let ghost body = lv.skip(3);
    let mut i: usize = 3;
    assert(body.skip(0) =~= body);
    while i < ls.len()
        invariant
            lv == views(ls@),
            lv == lines(text@),
            3 < ls.len(),
            body == lv.skip(3),
            3 <= i <= ls.len(),
            f == (|l: Seq<char>| jasc_entry(l)),
            jasc_colors(text@) == out@ + collect_entries(body.skip(i - 3), f),
        decreases ls.len() - i,
    {
        proof {
            lemma_collect_step(body, i - 3, f);
            assert(body[i - 3] == lv[i as int]);
            assert(lv[i as int] == ls@[i as int]@);
            assert(f(body[i - 3]) == jasc_entry(body[i - 3]));
        }
        match jasc_entry_of(&ls[i]) {
            Some(c) => {
                assert(out@ + (seq![c] + collect_entries(body.skip(i - 3 + 1), f)) =~= out@.push(
                    c,
                ) + collect_entries(body.skip(i - 3 + 1), f));
                out.push(c);
            },
            None => {},
        }
        i += 1;
    }
    assert(body.skip(i - 3) =~= Seq::<Seq<char>>::empty());
    assert(out@ + Seq::<[u8; 3]>::empty() =~= out@);
    out
}

/// One hex color per line (`#RRGGBB` or `RRGGBB`); `;` comments and blank
/// lines are ignored.
pub fn parse_hex(text: &str) -> (r: Vec<[u8; 3]>)
    ensures
        r@ == hex_colors(text@),
{
    let cs = chars_of(text);
    let ls = split_lines(&cs);
    let ghost lv = views(ls@);
    let ghost f = |l: Seq<char>| hex_entry(l);
    let mut out: Vec<[u8; 3]> = Vec::new();
    let mut i: usize = 0;
    assert(lv.skip(0) =~= lv);
    while i < ls.len()
        invariant
            lv == views(ls@),
            lv == lines(text@),
            i <= ls.len(),
            f == (|l: Seq<char>| hex_entry(l)),
            hex_colors(text@) == out@ + collect_entries(lv.skip(i as int), f),
        decreases ls.len() - i,
    {
        proof {
            lemma_collect_step(lv, i as int, f);
            assert(lv[i as int] == ls@[i as int]@);
            assert(f(lv[i as int]) == hex_entry(lv[i as int]));
        }
        match hex_entry_of(&ls[i]) {
            Some(c) => {
                assert(out@ + (seq![c] + collect_entries(lv.skip(i + 1), f)) =~= out@.push(c)
                    + collect_entries(lv.skip(i + 1), f));
                out.push(c);
            },
            None => {},
        }
        i += 1;
    }
    assert(lv.skip(i as int) =~= Seq::<Seq<char>>::empty());
    assert(out@ + Seq::<[u8; 3]>::empty() =~= out@);
    out
}

/// Paint.NET `.txt`: `;` comments, then one `AARRGGBB` per line. Entries
/// with alpha `00` are dropped.
pub fn parse_paintnet(text: &str) -> (r: Vec<[u8; 3]>)
    requires
        paintnet_readable(text@),
    ensures
        r@ == paintnet_colors(text@),
{
    let cs = chars_of(text);
    let ls = split_lines(&cs);
    let ghost lv = views(ls@);
    let ghost f = |l: Seq<char>| paintnet_entry(l);
    let mut out: Vec<[u8; 3]> = Vec::new();
    let mut i: usize = 0;
    assert(lv.skip(0) =~= lv);
    while i < ls.len()
        invariant
            lv == views(ls@),
            lv == lines(text@),
            paintnet_readable(text@),
            i <= ls.len(),
            f == (|l: Seq<char>| paintnet_entry(l)),
            paintnet_colors(text@) == out@ + collect_entries(lv.skip(i as int), f),
        decreases ls.len() - i,
    {
        proof {
            lemma_collect_step(lv, i as int, f);
            assert(lv[i as int] == ls@[i as int]@);
            assert(f(lv[i as int]) == paintnet_entry(lv[i as int]));
            assert(paintnet_line_readable(lv[i as int]));
        }
        match paintnet_entry_of(&ls[i]) {
            Some(c) => {
                assert(out@ + (seq![c] + collect_entries(lv.skip(i + 1), f)) =~= out@.push(c)
                    + collect_entries(lv.skip(i + 1), f));
                out.push(c);
            },
            None => {},
        }
        i += 1;
    }
    assert(lv.skip(i as int) =~= Seq::<Seq<char>>::empty());
    assert(out@ + Seq::<[u8; 3]>::empty() =~= out@);
    out
}

} // verus!

verus! {

// ---------------------------------------------------------------------------
// The palette
// ---------------------------------------------------------------------------

/// A color as one integer, `0xRRGGBB`; distinct colors have distinct keys.
pub open spec fn color_key(c: [u8; 3]) -> u32 {
    (c[0] as u32 * 65536 + c[1] as u32 * 256 + c[2] as u32) as u32
}

proof fn lemma_color_key_injective(a: [u8; 3], b: [u8; 3])
    requires
        color_key(a) == color_key(b),
    ensures
        a == b,
{
    let (a0, a1, a2) = (a[0] as int, a[1] as int, a[2] as int);
    let (b0, b1, b2) = (b[0] as int, b[1] as int, b[2] as int);
    assert(a0 * 65536 + a1 * 256 + a2 == b0 * 65536 + b1 * 256 + b2);
    assert(a0 == b0 && a1 == b1 && a2 == b2) by (nonlinear_arith)
        requires
            a0 * 65536 + a1 * 256 + a2 == b0 * 65536 + b1 * 256 + b2,
            0 <= a0 < 256,
            0 <= a1 < 256,
            0 <= a2 < 256,
            0 <= b0 < 256,
            0 <= b1 < 256,
            0 <= b2 < 256,
    ;
    assert(a@ =~= b@);
}

fn key_of(c: [u8; 3]) -> (k: u32)
    ensures
        k == color_key(c),
{
    c[0] as u32 * 65536 + c[1] as u32 * 256 + c[2] as u32
}

/// Where `c` first occurs in `s`.
pub open spec fn is_first_index(s: Seq<[u8; 3]>, c: [u8; 3], i: int) -> bool {
    &&& 0 <= i < s.len()
    &&& s[i] == c
    &&& forall|j: int| 0 <= j < i ==> s[j] != c
}

/// The colors of a palette, in order, with an index from each color to the
/// position where it first occurs.
pub struct Palette {
    colors: Vec<[u8; 3]>,
    index: HashMap<u32, usize>,
}

impl View for Palette {
    type V = Seq<[u8; 3]>;

    closed spec fn view(&self) -> Seq<[u8; 3]> {
        self.colors@
    }
}

/// The index maps the key of each color to its first position.
spec fn index_matches(colors: Seq<[u8; 3]>, index: Map<u32, usize>) -> bool {
    &&& forall|j: int|
        0 <= j < colors.len() ==> #[trigger] index.contains_key(color_key(colors[j]))
            && index[color_key(colors[j])] <= j
    &&& forall|k: u32| #[trigger]
        index.contains_key(k) ==> {
            let i = index[k] as int;
            &&& 0 <= i < colors.len()
            &&& color_key(colors[i]) == k
            &&& forall|j: int| 0 <= j < i ==> color_key(colors[j]) != k
        }
}

impl Palette {
    #[verifier::type_invariant]
    spec fn well_formed(self) -> bool {
        index_matches(self.colors@, self.index@)
    }

    /// A palette of the given colors, in the given order. A repeated color
    /// is kept at each position; lookups find its first position.
    pub fn from_colors(colors: Vec<[u8; 3]>) -> (p: Self)
        ensures
            p@ == colors@,
    {
        let n = colors.len();
        let mut index: HashMap<u32, usize> = HashMap::with_capacity(n);
        let mut i: usize = 0;
        while i < n
            invariant
                n == colors.len(),
                i <= n,
                index_matches(colors@.take(i as int), index@),
            decreases n - i,
        {
            let c = colors[i];
            let k = key_of(c);
            let ghost pre = colors@.take(i as int);
            let ghost post = colors@.take(i + 1);
            assert(post =~= pre.push(c));
            if !index.contains_key(&k) {
                assert forall|j: int| 0 <= j < i implies color_key(post[j]) != k by {
                    assert(post[j] == pre[j]);
                    assert(index@.contains_key(color_key(pre[j])));
                }
                index.insert(k, i);
            }
            proof {
                assert forall|j: int| 0 <= j < post.len() implies #[trigger] index@.contains_key(
                    color_key(post[j]),
                ) && index@[color_key(post[j])] <= j by {
                    if j < i {
                        assert(post[j] == pre[j]);
                    }
                }
            }
            i += 1;
        }
        assert(colors@.take(n as int) =~= colors@);
        Palette { colors, index }
    }

    /// Number of colors, repeats included.
    pub fn len(&self) -> (n: usize)
        ensures
            n == self@.len(),
    {
        self.colors.len()
    }

    pub fn is_empty(&self) -> (b: bool)
        ensures
            b == (self@.len() == 0),
    {
        self.colors.len() == 0
    }

    /// The colors, in order.
    pub fn colors(&self) -> (r: &Vec<[u8; 3]>)
        ensures
            r@ == self@,
    {
        &self.colors
    }

    /// Position of the first occurrence of an exact color, if present.
    pub fn index_of(&self, srgb: [u8; 3]) -> (r: Option<usize>)
        ensures
            match r {
                Some(i) => is_first_index(self@, srgb, i as int),
                None => forall|j: int| 0 <= j < self@.len() ==> self@[j] != srgb,
            },
    {
        proof {
            use_type_invariant(self);
        }
        let k = key_of(srgb);
        match self.index.get(&k) {
            Some(i) => {
                let i = *i;
                proof {
                    lemma_color_key_injective(self.colors@[i as int], srgb);
                    assert forall|j: int| 0 <= j < i implies self.colors@[j] != srgb by {
                        assert(color_key(self.colors@[j]) != k);
                    }
                }
                Some(i)
            },
            None => {
                assert forall|j: int| 0 <= j < self@.len() implies self@[j] != srgb by {
                    assert(self.index@.contains_key(color_key(self.colors@[j])));
                }
                None
            },
        }
    }

    /// Built-in minimal palette: black, white, pure red, green and blue.
    pub fn rgbwk() -> (p: Self)
        ensures
            p@ == seq![[0u8, 0u8, 0u8], [255u8, 255u8, 255u8], [255u8, 0u8, 0u8], [0u8, 255u8, 0u8], [0u8, 0u8, 255u8]],
    {
        let colors: Vec<[u8; 3]> = vec![[0, 0, 0], [255, 255, 255], [255, 0, 0], [0, 255, 0], [0, 0, 255]];
        Self::from_colors(colors)
    }

    /// A palette read from GIMP `.gpl` text.
    pub fn from_gpl_str(text: &str) -> (p: Self)
        ensures
            p@ == gpl_colors(text@),
    {
        Self::from_colors(parse_gpl(text))
    }

    /// A palette read from the text of a palette file, in the format that the
    /// file's extension names (case-insensitively): `.pal` JASC, `.hex` hex
    /// list, `.txt` Paint.NET; any other extension, or none, is read as GIMP.
    pub fn from_file_text(path: &str, text: &str) -> (p: Self)
        requires
            lower_extension(path@) == seq!['t', 'x', 't'] ==> paintnet_readable(text@),
        ensures
            p@ == colors_for_extension(lower_extension(path@), text@),
    {
        let e = extension_of(path);
        match &e {
            Some(x) => Self::from_extension_text(Some(x.as_str()), text),
            None => Self::from_extension_text(None, text),
        }
    }

    /// A palette read from palette text in the format that the file
    /// extension `ext` (as `Path::extension` finds it) names.
    pub fn from_extension_text(ext: Option<&str>, text: &str) -> (p: Self)
        requires
            lower_or_empty(opt_view(ext)) == seq!['t', 'x', 't'] ==> paintnet_readable(text@),
        ensures
            p@ == colors_for_extension(lower_or_empty(opt_view(ext)), text@),
    {
        let ext = lower_ext_chars(ext);
        let pal: Vec<char> = vec!['p', 'a', 'l'];
        let hex: Vec<char> = vec!['h', 'e', 'x'];
        let txt: Vec<char> = vec!['t', 'x', 't'];
        let colors = if crate::paths::chars_eq(&ext, &pal) {
            parse_jasc(text)
        } else if crate::paths::chars_eq(&ext, &hex) {
            parse_hex(text)
        } else if crate::paths::chars_eq(&ext, &txt) {
            parse_paintnet(text)
        } else {
            parse_gpl(text)
        };
        Self::from_colors(colors)
    }
}

/// Whether palette text can be read as the format that `path` names: only
/// Paint.NET text has lines that cannot be read.
pub fn palette_text_readable(path: &str, text: &str) -> (b: bool)
    ensures
        b == (lower_extension(path@) == seq!['t', 'x', 't'] ==> paintnet_readable(text@)),
{
    let e = extension_of(path);
    let ext = match &e {
        Some(x) => lower_ext_chars(Some(x.as_str())),
        None => lower_ext_chars(None),
    };
    let txt: Vec<char> = vec!['t', 'x', 't'];
    if crate::paths::chars_eq(&ext, &txt) {
        paintnet_text_readable(text)
    } else {
        true
    }
}

} // verus!
