//! File-name extensions, the only part of a path that the library's
//! decisions read.

use vstd::prelude::*;

verus! {

/// The extension that `std::path::Path::extension` finds in a path, as text.
/// `None` when the path has no file name, when the file name holds no `'.'`,
/// or when its only `'.'` is the first character.
pub uninterp spec fn path_extension(path: Seq<char>) -> Option<Seq<char>>;

/// Calls `std::path::Path::extension` on `path` and returns the extension as
/// a `String`. Trusted: the contract only ties the result to the name
/// `path_extension`; since `path` is valid UTF-8, the extension converts to
/// text without loss.
#[verifier::external_body]
pub(crate) fn extension_of(path: &str) -> (r: Option<String>)
    ensures
        match r {
            Some(e) => path_extension(path@) == Some(e@),
            None => path_extension(path@) is None,
        },
{
    std::path::Path::new(path).extension().and_then(|e| e.to_str()).map(|e| e.to_string())
}

/// `String::push` appends one character to the end of a string.
pub assume_specification[ std::string::String::push ](s: &mut String, ch: char)
    ensures
        final(s)@ == old(s)@.push(ch),
;

/// ASCII lower case of one character (`char::to_ascii_lowercase`).
pub open spec fn lower_char(c: char) -> char {
    if 'A' <= c && c <= 'Z' {
        ((c as u32) + 32) as char
    } else {
        c
    }
}

/// ASCII lower case of a text (`str::to_ascii_lowercase`).
pub open spec fn ascii_lower(s: Seq<char>) -> Seq<char> {
    s.map_values(|c: char| lower_char(c))
}

/// The view of an optional string.
pub open spec fn opt_view(e: Option<&str>) -> Option<Seq<char>> {
    match e {
        Some(s) => Some(s@),
        None => None,
    }
}

/// A lower-cased extension, or the empty text for none.
pub open spec fn lower_or_empty(ext: Option<Seq<char>>) -> Seq<char> {
    match ext {
        Some(e) => ascii_lower(e),
        None => Seq::empty(),
    }
}

/// The lower-cased extension of a path, or the empty text when it has none.
pub open spec fn lower_extension(path: Seq<char>) -> Seq<char> {
    lower_or_empty(path_extension(path))
}

/// The lower-cased characters of an extension (empty when none).
pub fn lower_ext_chars(ext: Option<&str>) -> (r: Vec<char>)
    ensures
        r@ == lower_or_empty(opt_view(ext)),
{
    match ext {
        Some(e) => {
            let cs = crate::text::chars_of(e);
            lower_ascii_chars(&cs)
        },
        None => Vec::new(),
    }
}

/// ASCII lower case of a text (`str::to_ascii_lowercase`).
pub fn lower_ascii_chars(v: &Vec<char>) -> (r: Vec<char>)
    ensures
        r@ == ascii_lower(v@),
{
    let n = v.len();
    let mut r: Vec<char> = Vec::new();
    let mut i: usize = 0;
    while i < n
        invariant
            n == v.len(),
            i <= n,
            r@ == ascii_lower(v@.take(i as int)),
        decreases n - i,
    {
        let c = v[i];
        let l = if 'A' <= c && c <= 'Z' {
            let u = (c as u32) + 32;
            let lc = (u as u8) as char;
            assert(lc == lower_char(c));
            lc
        } else {
            c
        };
        r.push(l);
        assert(ascii_lower(v@.take(i + 1)) =~= ascii_lower(v@.take(i as int)).push(lower_char(c)));
        i += 1;
    }
    assert(v@.take(n as int) =~= v@);
    r
}

/// Whether two character sequences are equal.
pub fn chars_eq(a: &Vec<char>, b: &Vec<char>) -> (r: bool)
    ensures
        r == (a@ == b@),
{
    if a.len() != b.len() {
        return false;
    }
    let n = a.len();
    let mut i: usize = 0;
    while i < n
        invariant
            n == a.len() == b.len(),
            i <= n,
            forall|j: int| 0 <= j < i ==> a@[j] == b@[j],
        decreases n - i,
    {
        if a[i] != b[i] {
            return false;
        }
        i += 1;
    }
    assert(a@ =~= b@);
    true
}

} // verus!
