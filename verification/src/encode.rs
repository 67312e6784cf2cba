//! Output decisions: which output paths are acceptable, and the content of
//! an 8-bit indexed PNG (palette, transparency and per-pixel indices).

use vstd::prelude::*;

use crate::palette::{is_first_index, Palette};
use crate::paths::{chars_eq, extension_of, lower_ext_chars, lower_extension, lower_or_empty, opt_view};
use crate::quantize::rgb_of;

verus! {

/// How an image is written.
#[derive(Clone, Copy, Debug, PartialEq, Eq, Structural)]
pub enum OutputKind {
    /// An 8-bit paletted PNG.
    Indexed,
    /// The format that the output path's extension names.
    ByExtension,
}

/// Why an image cannot be written.
#[derive(Debug, PartialEq, Eq)]
pub enum SaveError {
    /// A lossy extension (`jpg`, `jpeg`, lower-cased here) would reintroduce
    /// off-palette colors.
    LossyFormat(String),
    /// Indexed output needs a `.png` path; this is the lower-cased extension
    /// that was given instead.
    IndexedNeedsPng(String),
    /// Palette plus transparent slot exceeds the 256 entries of an 8-bit
    /// indexed PNG; this is the number of entries needed.
    PaletteTooLarge(usize),
    /// A visible pixel's color is not in the palette.
    ColorNotInPalette,
}

pub open spec fn ext_jpg() -> Seq<char> {
    seq!['j', 'p', 'g']
}

pub open spec fn ext_jpeg() -> Seq<char> {
    seq!['j', 'p', 'e', 'g']
}

pub open spec fn ext_png() -> Seq<char> {
    seq!['p', 'n', 'g']
}

/// How a file with lower-cased extension `e` may be written: lossy
/// extensions are refused, indexed output needs `png`.
pub open spec fn output_kind_spec(e: Seq<char>, indexed: bool) -> Result<OutputKind, ()> {
    if e == ext_jpg() || e == ext_jpeg() {
        Err(())
    } else if indexed && e != ext_png() {
        Err(())
    } else if indexed {
        Ok(OutputKind::Indexed)
    } else {
        Ok(OutputKind::ByExtension)
    }
}

/// The contract of the output decision for lower-cased extension `e`: the
/// result follows [`output_kind_spec`], and each error names `e`.
pub open spec fn output_kind_result(e: Seq<char>, indexed: bool, r: Result<OutputKind, SaveError>) -> bool {
    match r {
        Ok(k) => output_kind_spec(e, indexed) == Ok::<OutputKind, ()>(k),
        Err(SaveError::LossyFormat(x)) => output_kind_spec(e, indexed) is Err && x@ == e && (e
            == ext_jpg() || e == ext_jpeg()),
        Err(SaveError::IndexedNeedsPng(x)) => output_kind_spec(e, indexed) is Err && x@ == e && e
            != ext_jpg() && e != ext_jpeg(),
        Err(_) => false,
    }
}

/// Decides how an image may be saved to `path`, judging by its extension
/// case-insensitively.
pub fn output_kind(path: &str, indexed: bool) -> (r: Result<OutputKind, SaveError>)
    ensures
        output_kind_result(lower_extension(path@), indexed, r),
{
    let e = extension_of(path);
    match &e {
        Some(x) => output_kind_for_extension(Some(x.as_str()), indexed),
        None => output_kind_for_extension(None, indexed),
    }
}

/// Decides how an image may be saved to a file with extension `ext` (as
/// `Path::extension` finds it), compared case-insensitively.
pub fn output_kind_for_extension(ext: Option<&str>, indexed: bool) -> (r: Result<OutputKind, SaveError>)
    ensures
        output_kind_result(lower_or_empty(opt_view(ext)), indexed, r),
{
    let e = lower_ext_chars(ext);
    let jpg: Vec<char> = vec!['j', 'p', 'g'];
    let jpeg: Vec<char> = vec!['j', 'p', 'e', 'g'];
    let png: Vec<char> = vec!['p', 'n', 'g'];
    if chars_eq(&e, &jpg) || chars_eq(&e, &jpeg) {
        return Err(SaveError::LossyFormat(string_of(&e)));
    }
    if indexed {
        if !chars_eq(&e, &png) {
            return Err(SaveError::IndexedNeedsPng(string_of(&e)));
        }
        Ok(OutputKind::Indexed)
    } else {
        Ok(OutputKind::ByExtension)
    }
}

/// A `String` holding the given characters.
fn string_of(cs: &Vec<char>) -> (s: String)
    ensures
        s@ == cs@,
{
    let mut s = String::new();
    let mut i: usize = 0;
    while i < cs.len()
        invariant
            i <= cs.len(),
            s@ == cs@.take(i as int),
        decreases cs.len() - i,
    {
        s.push(cs[i]);
        assert(cs@.take(i + 1) =~= cs@.take(i as int).push(cs@[i as int]));
        i += 1;
    }
    assert(cs@.take(cs.len() as int) =~= cs@);
    s
}

// ---------------------------------------------------------------------------
// Indexed PNG content
// ---------------------------------------------------------------------------

/// The content of an 8-bit indexed PNG.
pub struct IndexedImage {
    /// `PLTE`: three bytes (R, G, B) per palette entry.
    pub plte: Vec<u8>,
    /// `tRNS`: alpha per palette entry, present when some pixel is
    /// transparent.
    pub trns: Option<Vec<u8>>,
    /// One palette index per pixel, row-major.
    pub indices: Vec<u8>,
}

pub open spec fn has_transparent(pixels: Seq<[u8; 4]>) -> bool {
    exists|i: int| 0 <= i < pixels.len() && (#[trigger] pixels[i])[3] == 0
}

/// Entries an indexed PNG needs: the palette, plus one transparent slot
/// when some pixel is transparent.
pub open spec fn indexed_entries(pixels: Seq<[u8; 4]>, palette: Seq<[u8; 3]>) -> int {
    palette.len() + if has_transparent(pixels) {
        1int
    } else {
        0int
    }
}

/// Some visible pixel has a color that is not in the palette.
pub open spec fn has_foreign_color(pixels: Seq<[u8; 4]>, palette: Seq<[u8; 3]>) -> bool {
    exists|i: int|
        0 <= i < pixels.len() && (#[trigger] pixels[i])[3] != 0 && !palette.contains(
            rgb_of(pixels[i]),
        )
}

/// `plte` lists the palette's colors, three bytes each, then `[0, 0, 0]`
/// for the transparent slot when there is one.
pub open spec fn plte_matches(plte: Seq<u8>, palette: Seq<[u8; 3]>, transparent: bool) -> bool {
    &&& plte.len() == 3 * palette.len() + if transparent {
        3int
    } else {
        0int
    }
    &&& forall|j: int|
        0 <= j < palette.len() ==> plte[3 * j] == (#[trigger] palette[j])[0] && plte[3 * j + 1]
            == palette[j][1] && plte[3 * j + 2] == palette[j][2]
    &&& transparent ==> {
        let base = 3 * palette.len() as int;
        plte[base] == 0 && plte[base + 1] == 0 && plte[base + 2] == 0
    }
}

/// `trns` is absent without transparent pixels; otherwise it gives alpha
/// 255 to every palette entry and 0 to the transparent slot after them.
pub open spec fn trns_matches(trns: Option<Seq<u8>>, n: int, transparent: bool) -> bool {
    if transparent {
        &&& trns is Some
        &&& trns->0.len() == n + 1
        &&& forall|j: int| 0 <= j < n ==> #[trigger] trns->0[j] == 255
        &&& trns->0[n] == 0
    } else {
        trns is None
    }
}

/// Each transparent pixel indexes the transparent slot; every other pixel
/// indexes the first palette entry of its color.
pub open spec fn indices_match(
    indices: Seq<u8>,
    pixels: Seq<[u8; 4]>,
    palette: Seq<[u8; 3]>,
) -> bool {
    &&& indices.len() == pixels.len()
    &&& forall|i: int|
        0 <= i < pixels.len() ==> if (#[trigger] pixels[i])[3] == 0 {
            indices[i] == palette.len()
        } else {
            is_first_index(palette, rgb_of(pixels[i]), indices[i] as int)
        }
}

/// The content of the indexed PNG of `pixels` over `palette`. Fails when the
/// palette and transparent slot need more than 256 entries, and otherwise
/// when a visible pixel's color is not in the palette.
pub fn index_pixels(pixels: &Vec<[u8; 4]>, palette: &Palette) -> (r: Result<IndexedImage, SaveError>)
    requires
        palette@.len() < usize::MAX,
    ensures
        match r {
            Ok(img) => {
                &&& indexed_entries(pixels@, palette@) <= 256
                &&& !has_foreign_color(pixels@, palette@)
                &&& plte_matches(img.plte@, palette@, has_transparent(pixels@))
                &&& trns_matches(
                    match img.trns {
                        Some(t) => Some(t@),
                        None => None,
                    },
                    palette@.len() as int,
                    has_transparent(pixels@),
                )
                &&& indices_match(img.indices@, pixels@, palette@)
            },
            Err(SaveError::PaletteTooLarge(total)) => total == indexed_entries(pixels@, palette@)
                && total > 256,
            Err(SaveError::ColorNotInPalette) => indexed_entries(pixels@, palette@) <= 256
                && has_foreign_color(pixels@, palette@),
            Err(_) => false,
        },
{
    let n = pixels.len();
    // Is any pixel transparent?
    let mut transparent = false;
    let mut i: usize = 0;
    while i < n
        invariant
            n == pixels.len(),
            i <= n,
            !transparent ==> forall|j: int| 0 <= j < i ==> (#[trigger] pixels@[j])[3] != 0,
            transparent ==> has_transparent(pixels@),
        decreases n - i,
    {
        if pixels[i][3] == 0 {
            assert(pixels@[i as int][3] == 0);
            transparent = true;
        }
        i += 1;
    }
    assert(transparent == has_transparent(pixels@));
    let len = palette.len();
    if len >= 256 && (len > 256 || transparent) {
        let total = if transparent {
            len + 1
        } else {
            len
        };
        return Err(SaveError::PaletteTooLarge(total));
    }
    // PLTE
    let colors = palette.colors();
    let mut plte: Vec<u8> = Vec::new();
    let mut j: usize = 0;
    while j < len
        invariant
            len == colors.len(),
            colors@ == palette@,
            len <= 256,
            j <= len,
            plte.len() == 3 * j,
            forall|q: int|
                0 <= q < j ==> plte@[3 * q] == (#[trigger] colors@[q])[0] && plte@[3 * q + 1]
                    == colors@[q][1] && plte@[3 * q + 2] == colors@[q][2],
        decreases len - j,
    {
        let c = colors[j];
        plte.push(c[0]);
        plte.push(c[1]);
        plte.push(c[2]);
        j += 1;
    }
    let trns = if transparent {
        plte.push(0);
        plte.push(0);
        plte.push(0);
        let mut t: Vec<u8> = Vec::new();
        let mut q: usize = 0;
        while q < len
            invariant
                q <= len,
                t.len() == q,
                forall|p: int| 0 <= p < q ==> #[trigger] t@[p] == 255,
            decreases len - q,
        {
            t.push(255);
            q += 1;
        }
        t.push(0);
        Some(t)
    } else {
        None
    };
    // Indices
    let mut indices: Vec<u8> = Vec::new();
    let mut i: usize = 0;
    while i < n
        invariant
            n == pixels.len(),
            len == palette@.len(),
            len <= 256,
            transparent == has_transparent(pixels@),
            transparent ==> len < 256,
            i <= n,
            indices.len() == i,
            forall|k: int|
                0 <= k < i ==> if (#[trigger] pixels@[k])[3] == 0 {
                    indices@[k] == palette@.len()
                } else {
                    is_first_index(palette@, rgb_of(pixels@[k]), indices@[k] as int)
                },
        decreases n - i,
    {
        let p = pixels[i];
        if p[3] == 0 {
            assert(has_transparent(pixels@));
            indices.push(len as u8);
        } else {
            match palette.index_of([p[0], p[1], p[2]]) {
                Some(idx) => {
                    assert([p[0], p[1], p[2]] =~= rgb_of(p));
                    indices.push(idx as u8);
                },
                None => {
                    proof {
                        assert([p[0], p[1], p[2]] =~= rgb_of(p));
                        assert(!palette@.contains(rgb_of(pixels@[i as int])));
                        assert(has_foreign_color(pixels@, palette@));
                    }
                    return Err(SaveError::ColorNotInPalette);
                },
            }
        }
        i += 1;
    }
    proof {
        assert forall|k: int|
            0 <= k < pixels@.len() && (#[trigger] pixels@[k])[3] != 0 implies palette@.contains(
            rgb_of(pixels@[k]),
        ) by {
            let idx = indices@[k] as int;
            assert(palette@[idx] == rgb_of(pixels@[k]));
        }
    }
    Ok(IndexedImage { plte, trns, indices })
}

} // verus!
