//! Properties of the library as a whole, stated over the specifications
//! that the functions' contracts use.

use vstd::prelude::*;

use crate::files::{input_extensions, output_target_spec, OutputTarget};
use crate::paths::ascii_lower;
use crate::text::{lines, lines_from};
use crate::encode::{
    has_foreign_color, has_transparent, indexed_entries, indices_match, plte_matches, trns_matches,
};
use crate::palette::is_first_index;
use crate::quantize::{
    bayer8, classify_spec, kernel_divisor_spec, kernel_taps_spec, output_pixel_spec, rgb_of, weight_sum,
    AlphaMode, Kernel,
};

verus! {

/// Every color of a palette is found by lookup, at or before its own
/// position.
pub proof fn law_palette_colors_are_found(colors: Seq<[u8; 3]>, j: int)
    requires
        0 <= j < colors.len(),
    ensures
        exists|i: int| 0 <= i <= j && is_first_index(colors, colors[j], i),
    decreases j,
{
    if exists|q: int| 0 <= q < j && colors[q] == colors[j] {
        let q = choose|q: int| 0 <= q < j && colors[q] == colors[j];
        law_palette_colors_are_found(colors, q);
        let i = choose|i: int| 0 <= i <= q && is_first_index(colors, colors[q], i);
        assert(is_first_index(colors, colors[j], i));
    } else {
        assert(is_first_index(colors, colors[j], j));
    }
}

/// A quantized pixel is either fully transparent black or carries the chosen
/// palette color. Binarized alpha is 0 or 255, and 255 exactly when the input
/// alpha reaches the threshold; kept alpha is the input alpha. A fully
/// transparent input pixel stays fully transparent black, except under a
/// binarize threshold of 0, which makes every pixel opaque.
pub proof fn law_quantized_pixel(px: [u8; 4], alpha: AlphaMode, color: [u8; 3])
    ensures
        ({
            let o = output_pixel_spec(px, alpha, color);
            &&& o[3] == 0 ==> o == [0u8, 0u8, 0u8, 0u8]
            &&& o[3] != 0 ==> rgb_of(o) == color
            &&& alpha matches AlphaMode::Binarize(t) ==> (o[3] == 0 || o[3] == 255) && (o[3]
                == 255 <==> px[3] >= t)
            &&& alpha is Keep ==> o[3] == px[3]
            &&& px[3] == 0 && !(alpha == AlphaMode::Binarize(0)) ==> o == [0u8, 0u8, 0u8, 0u8]
        }),
{
    let o = output_pixel_spec(px, alpha, color);
    match classify_spec(px[3], alpha) {
        None => {},
        Some(oa) => {
            assert(rgb_of(o) =~= color);
        },
    }
}

/// What a PNG decoder shows for palette index `idx`: the `PLTE` color, with
/// the `tRNS` alpha of that index when `tRNS` covers it, else 255.
pub open spec fn decode_indexed(plte: Seq<u8>, trns: Option<Seq<u8>>, idx: u8) -> [u8; 4] {
    let i = idx as int;
    [
        plte[3 * i],
        plte[3 * i + 1],
        plte[3 * i + 2],
        match trns {
            Some(t) => if i < t.len() {
                t[i]
            } else {
                255u8
            },
            None => 255u8,
        },
    ]
}

/// A pixel as an indexed PNG can carry it: transparent pixels become
/// transparent black, all others opaque.
pub open spec fn indexed_form(px: [u8; 4]) -> [u8; 4] {
    if px[3] == 0 {
        [0u8, 0u8, 0u8, 0u8]
    } else {
        [px[0], px[1], px[2], 255u8]
    }
}

/// Decoding an indexed image built by `index_pixels` gives back every pixel
/// in its indexed form.
pub proof fn law_indexed_image_decodes_to_pixels(
    pixels: Seq<[u8; 4]>,
    palette: Seq<[u8; 3]>,
    plte: Seq<u8>,
    trns: Option<Seq<u8>>,
    indices: Seq<u8>,
    i: int,
)
    requires
        indexed_entries(pixels, palette) <= 256,
        !has_foreign_color(pixels, palette),
        plte_matches(plte, palette, has_transparent(pixels)),
        trns_matches(trns, palette.len() as int, has_transparent(pixels)),
        indices_match(indices, pixels, palette),
        0 <= i < pixels.len(),
    ensures
        decode_indexed(plte, trns, indices[i]) == indexed_form(pixels[i]),
{
    let px = pixels[i];
    let idx = indices[i] as int;
    let n = palette.len() as int;
    if px[3] == 0 {
        assert(has_transparent(pixels));
        assert(idx == n);
    } else {
        assert(is_first_index(palette, rgb_of(px), idx));
        assert(palette[idx] == rgb_of(px));
        if has_transparent(pixels) {
            assert(trns->0[idx] == 255);
        }
    }
    assert(decode_indexed(plte, trns, indices[i]) =~= indexed_form(px));
}

/// A binarized quantized pixel is already in indexed form, so an indexed PNG
/// of binarized output shows exactly the RGBA output.
pub proof fn law_binarized_pixels_survive_indexing(px: [u8; 4], t: u8, color: [u8; 3])
    ensures
        indexed_form(output_pixel_spec(px, AlphaMode::Binarize(t), color)) == output_pixel_spec(
            px,
            AlphaMode::Binarize(t),
            color,
        ),
{
    let o = output_pixel_spec(px, AlphaMode::Binarize(t), color);
    assert(indexed_form(o) =~= o);
}

/// Floyd–Steinberg passes on all of a pixel's error (its weights sum to its
/// divisor); Atkinson passes on three quarters of it.
pub proof fn law_kernel_error_shares()
    ensures
        weight_sum(kernel_taps_spec(Kernel::FloydSteinberg)) == kernel_divisor_spec(
            Kernel::FloydSteinberg,
        ),
        4 * weight_sum(kernel_taps_spec(Kernel::Atkinson)) == 3 * kernel_divisor_spec(
            Kernel::Atkinson,
        ),
{
    reveal_with_fuel(weight_sum, 7);
}

} // verus!

verus! {

// ---------------------------------------------------------------------------
// Ordered dithering
// ---------------------------------------------------------------------------

/// The 2×2 Bayer matrix `[[0, 2], [3, 1]]`, indexed by column and row.
pub open spec fn bayer2(col: int, row: int) -> int {
    if row == 0 {
        if col == 0 {
            0
        } else {
            2
        }
    } else {
        if col == 0 {
            3
        } else {
            1
        }
    }
}

/// The recursive Bayer construction: bit 0 of the coordinates selects the
/// coarsest level (weight 16), bit 1 the middle one (weight 4), bit 2 the
/// finest (weight 1).
pub open spec fn bayer_recursive(x: int, y: int) -> int {
    16 * bayer2(x % 2, y % 2) + 4 * bayer2((x / 2) % 2, (y / 2) % 2) + bayer2((x / 4) % 2, (y / 4) % 2)
}

proof fn lemma_bayer_table(c: int, r: int)
    requires
        0 <= c < 8,
        0 <= r < 8,
    ensures
        bayer8()[r][c] as int == bayer_recursive(c, r),
{
    if r == 0 {
        assert(bayer8()[0] == seq![0u8, 32, 8, 40, 2, 34, 10, 42]);
        if c == 0 {
            assert(bayer8()[0][0] == 0);
        }
        if c == 1 {
            assert(bayer8()[0][1] == 32);
        }
        if c == 2 {
            assert(bayer8()[0][2] == 8);
        }
        if c == 3 {
            assert(bayer8()[0][3] == 40);
        }
        if c == 4 {
            assert(bayer8()[0][4] == 2);
        }
        if c == 5 {
            assert(bayer8()[0][5] == 34);
        }
        if c == 6 {
            assert(bayer8()[0][6] == 10);
        }
        if c == 7 {
            assert(bayer8()[0][7] == 42);
        }
    }
    if r == 1 {
        assert(bayer8()[1] == seq![48u8, 16, 56, 24, 50, 18, 58, 26]);
        if c == 0 {
            assert(bayer8()[1][0] == 48);
        }
        if c == 1 {
            assert(bayer8()[1][1] == 16);
        }
        if c == 2 {
            assert(bayer8()[1][2] == 56);
        }
        if c == 3 {
            assert(bayer8()[1][3] == 24);
        }
        if c == 4 {
            assert(bayer8()[1][4] == 50);
        }
        if c == 5 {
            assert(bayer8()[1][5] == 18);
        }
        if c == 6 {
            assert(bayer8()[1][6] == 58);
        }
        if c == 7 {
            assert(bayer8()[1][7] == 26);
        }
    }
    if r == 2 {
        assert(bayer8()[2] == seq![12u8, 44, 4, 36, 14, 46, 6, 38]);
        if c == 0 {
            assert(bayer8()[2][0] == 12);
        }
        if c == 1 {
            assert(bayer8()[2][1] == 44);
        }
        if c == 2 {
            assert(bayer8()[2][2] == 4);
        }
        if c == 3 {
            assert(bayer8()[2][3] == 36);
        }
        if c == 4 {
            assert(bayer8()[2][4] == 14);
        }
        if c == 5 {
            assert(bayer8()[2][5] == 46);
        }
        if c == 6 {
            assert(bayer8()[2][6] == 6);
        }
        if c == 7 {
            assert(bayer8()[2][7] == 38);
        }
    }
    if r == 3 {
        assert(bayer8()[3] == seq![60u8, 28, 52, 20, 62, 30, 54, 22]);
        if c == 0 {
            assert(bayer8()[3][0] == 60);
        }
        if c == 1 {
            assert(bayer8()[3][1] == 28);
        }
        if c == 2 {
            assert(bayer8()[3][2] == 52);
        }
        if c == 3 {
            assert(bayer8()[3][3] == 20);
        }
        if c == 4 {
            assert(bayer8()[3][4] == 62);
        }
        if c == 5 {
            assert(bayer8()[3][5] == 30);
        }
        if c == 6 {
            assert(bayer8()[3][6] == 54);
        }
        if c == 7 {
            assert(bayer8()[3][7] == 22);
        }
    }
    if r == 4 {
        assert(bayer8()[4] == seq![3u8, 35, 11, 43, 1, 33, 9, 41]);
        if c == 0 {
            assert(bayer8()[4][0] == 3);
        }
        if c == 1 {
            assert(bayer8()[4][1] == 35);
        }
        if c == 2 {
            assert(bayer8()[4][2] == 11);
        }
        if c == 3 {
            assert(bayer8()[4][3] == 43);
        }
        if c == 4 {
            assert(bayer8()[4][4] == 1);
        }
        if c == 5 {
            assert(bayer8()[4][5] == 33);
        }
        if c == 6 {
            assert(bayer8()[4][6] == 9);
        }
        if c == 7 {
            assert(bayer8()[4][7] == 41);
        }
    }
    if r == 5 {
        assert(bayer8()[5] == seq![51u8, 19, 59, 27, 49, 17, 57, 25]);
        if c == 0 {
            assert(bayer8()[5][0] == 51);
        }
        if c == 1 {
            assert(bayer8()[5][1] == 19);
        }
        if c == 2 {
            assert(bayer8()[5][2] == 59);
        }
        if c == 3 {
            assert(bayer8()[5][3] == 27);
        }
        if c == 4 {
            assert(bayer8()[5][4] == 49);
        }
        if c == 5 {
            assert(bayer8()[5][5] == 17);
        }
        if c == 6 {
            assert(bayer8()[5][6] == 57);
        }
        if c == 7 {
            assert(bayer8()[5][7] == 25);
        }
    }
    if r == 6 {
        assert(bayer8()[6] == seq![15u8, 47, 7, 39, 13, 45, 5, 37]);
        if c == 0 {
            assert(bayer8()[6][0] == 15);
        }
        if c == 1 {
            assert(bayer8()[6][1] == 47);
        }
        if c == 2 {
            assert(bayer8()[6][2] == 7);
        }
        if c == 3 {
            assert(bayer8()[6][3] == 39);
        }
        if c == 4 {
            assert(bayer8()[6][4] == 13);
        }
        if c == 5 {
            assert(bayer8()[6][5] == 45);
        }
        if c == 6 {
            assert(bayer8()[6][6] == 5);
        }
        if c == 7 {
            assert(bayer8()[6][7] == 37);
        }
    }
    if r == 7 {
        assert(bayer8()[7] == seq![63u8, 31, 55, 23, 61, 29, 53, 21]);
        if c == 0 {
            assert(bayer8()[7][0] == 63);
        }
        if c == 1 {
            assert(bayer8()[7][1] == 31);
        }
        if c == 2 {
            assert(bayer8()[7][2] == 55);
        }
        if c == 3 {
            assert(bayer8()[7][3] == 23);
        }
        if c == 4 {
            assert(bayer8()[7][4] == 61);
        }
        if c == 5 {
            assert(bayer8()[7][5] == 29);
        }
        if c == 6 {
            assert(bayer8()[7][6] == 53);
        }
        if c == 7 {
            assert(bayer8()[7][7] == 21);
        }
    }
}

/// The ordered-dither threshold of every pixel is the standard recursive
/// 8×8 Bayer matrix, repeating every 8 pixels in each direction.
pub proof fn law_bayer_threshold_is_recursive_bayer(x: u32, y: u32)
    ensures
        bayer8()[(y % 8) as int][(x % 8) as int] as int == bayer_recursive(x as int, y as int),
{
    let c = x % 8;
    let r = y % 8;
    assert(x % 2 == c % 2 && (x / 2) % 2 == (c / 2) % 2 && (x / 4) % 2 == (c / 4) % 2) by (bit_vector)
        requires
            c == x % 8,
    ;
    assert(y % 2 == r % 2 && (y / 2) % 2 == (r / 2) % 2 && (y / 4) % 2 == (r / 4) % 2) by (bit_vector)
        requires
            r == y % 8,
    ;
    lemma_bayer_table(c as int, r as int);
}

} // verus!

verus! {

// ---------------------------------------------------------------------------
// Output locations
// ---------------------------------------------------------------------------

/// In-place processing overwrites the input, whatever else is given.
pub proof fn law_in_place_overwrites_input(has_output: bool, input_root_is_dir: bool, output_is_dir: bool)
    ensures
        output_target_spec(true, has_output, input_root_is_dir, output_is_dir)
            == OutputTarget::InPlace,
{
}

/// Without an output path, each result goes next to its input.
pub proof fn law_no_output_writes_sibling(input_root_is_dir: bool, output_is_dir: bool)
    ensures
        output_target_spec(false, false, input_root_is_dir, output_is_dir)
            == OutputTarget::SiblingQuantized,
{
}

/// With an output path, a directory input is always mirrored under it,
/// whether or not the output directory exists yet.
pub proof fn law_directory_input_is_mirrored(output_is_dir: bool)
    ensures
        output_target_spec(false, true, true, output_is_dir) == OutputTarget::MirrorUnderOutput,
{
}

/// With an output path, a single-file input goes into the output when it is
/// an existing directory, and to the output path otherwise.
pub proof fn law_file_input_output(output_is_dir: bool)
    ensures
        output_target_spec(false, true, false, output_is_dir) == (if output_is_dir {
            OutputTarget::IntoOutputDirectory
        } else {
            OutputTarget::OutputPath
        }),
{
}

// ---------------------------------------------------------------------------
// Input discovery
// ---------------------------------------------------------------------------

/// The extensions read as images are exactly `png`, `jpg`, `jpeg`, `webp`,
/// `bmp`, `tga`, `gif` and `qoi`, in any letter case.
pub proof fn law_input_extensions(e: Seq<char>)
    ensures
        input_extensions().contains(ascii_lower(e)) <==> {
            let l = ascii_lower(e);
            ||| l == seq!['p', 'n', 'g']
            ||| l == seq!['j', 'p', 'g']
            ||| l == seq!['j', 'p', 'e', 'g']
            ||| l == seq!['w', 'e', 'b', 'p']
            ||| l == seq!['b', 'm', 'p']
            ||| l == seq!['t', 'g', 'a']
            ||| l == seq!['g', 'i', 'f']
            ||| l == seq!['q', 'o', 'i']
        },
{
    let l = ascii_lower(e);
    let xs = input_extensions();
    if xs.contains(l) {
        let i = choose|i: int| 0 <= i < xs.len() && xs[i] == l;
        assert(0 <= i < 8);
    }
    if l == seq!['p', 'n', 'g'] {
        assert(xs[0] == l);
    }
    if l == seq!['j', 'p', 'g'] {
        assert(xs[1] == l);
    }
    if l == seq!['j', 'p', 'e', 'g'] {
        assert(xs[2] == l);
    }
    if l == seq!['w', 'e', 'b', 'p'] {
        assert(xs[3] == l);
    }
    if l == seq!['b', 'm', 'p'] {
        assert(xs[4] == l);
    }
    if l == seq!['t', 'g', 'a'] {
        assert(xs[5] == l);
    }
    if l == seq!['g', 'i', 'f'] {
        assert(xs[6] == l);
    }
    if l == seq!['q', 'o', 'i'] {
        assert(xs[7] == l);
    }
}

} // verus!

verus! {

// ---------------------------------------------------------------------------
// Lines of a palette file
// ---------------------------------------------------------------------------

/// Lines joined back together with `'\n'` between them.
pub open spec fn join_lines(ls: Seq<Seq<char>>) -> Seq<char>
    decreases ls.len(),
{
    if ls.len() == 0 {
        seq![]
    } else if ls.len() == 1 {
        ls[0]
    } else {
        ls[0] + seq!['\n'] + join_lines(ls.drop_first())
    }
}

/// A text without its final `'\n'`, if it ends in one.
pub open spec fn without_final_newline(s: Seq<char>) -> Seq<char> {
    if s.len() > 0 && s.last() == '\n' {
        s.drop_last()
    } else {
        s
    }
}

proof fn lemma_lines_from_nonempty(s: Seq<char>, cur: Seq<char>)
    requires
        s.len() > 0 || cur.len() > 0,
    ensures
        lines_from(s, cur).len() > 0,
    decreases s.len(),
{
    if s.len() > 0 {
        if s[0] != '\n' {
            lemma_lines_from_nonempty(s.drop_first(), cur.push(s[0]));
        }
    }
}

proof fn lemma_lines_from_partition(s: Seq<char>, cur: Seq<char>)
    requires
        !cur.contains('\n'),
    ensures
        join_lines(lines_from(s, cur)) == without_final_newline(cur + s),
        forall|i: int| 0 <= i < lines_from(s, cur).len() ==> !(#[trigger] lines_from(s, cur)[i]).contains('\n'),
    decreases s.len(),
{
    if s.len() == 0 {
        assert(cur + s =~= cur);
        if cur.len() > 0 {
            assert(cur.last() != '\n') by {
                assert(cur[cur.len() - 1] == cur.last());
            }
        }
    } else if s[0] == '\n' {
        let rest = s.drop_first();
        lemma_lines_from_partition(rest, seq![]);
        assert(!Seq::<char>::empty().contains('\n'));
        let ls = seq![cur] + lines_from(rest, seq![]);
        assert(ls.drop_first() =~= lines_from(rest, seq![]));
        assert(seq![] + rest =~= rest);
        if rest.len() == 0 {
            assert(cur + s =~= cur.push('\n'));
            assert((cur + s).drop_last() =~= cur);
        } else {
            lemma_lines_from_nonempty(rest, seq![]);
            assert(cur + s =~= cur + seq!['\n'] + rest);
            assert(without_final_newline(cur + s) =~= cur + seq!['\n'] + without_final_newline(rest));
        }
        assert forall|i: int| 0 <= i < ls.len() implies !(#[trigger] ls[i]).contains('\n') by {
            if i > 0 {
                assert(ls[i] == lines_from(rest, seq![])[i - 1]);
            }
        }
    } else {
        let rest = s.drop_first();
        let c2 = cur.push(s[0]);
        assert(!c2.contains('\n')) by {
            if c2.contains('\n') {
                let k = choose|k: int| 0 <= k < c2.len() && c2[k] == '\n';
                if k < cur.len() {
                    assert(cur[k] == '\n');
                }
            }
        }
        lemma_lines_from_partition(rest, c2);
        assert(c2 + rest =~= cur + s);
    }
}

/// The lines of a text partition it: joined with `'\n'` they give back the
/// text without its final `'\n'`, and no line holds a `'\n'`. So every
/// character of the text, including those after its last `'\n'`, belongs to
/// some line.
pub proof fn law_lines_partition_text(text: Seq<char>)
    ensures
        join_lines(lines(text)) == without_final_newline(text),
        forall|i: int| 0 <= i < lines(text).len() ==> !(#[trigger] lines(text)[i]).contains('\n'),
{
    assert(!Seq::<char>::empty().contains('\n'));
    lemma_lines_from_partition(text, seq![]);
    assert(Seq::<char>::empty() + text =~= text);
}

} // verus!
