//! Which files are read as images, and where each output goes.

use vstd::prelude::*;

use crate::paths::{chars_eq, extension_of, lower_ext_chars, lower_extension, lower_or_empty, opt_view};

verus! {

/// Image extensions the tool reads (lower case).
pub open spec fn input_extensions() -> Seq<Seq<char>> {
    seq![
        seq!['p', 'n', 'g'],
        seq!['j', 'p', 'g'],
        seq!['j', 'p', 'e', 'g'],
        seq!['w', 'e', 'b', 'p'],
        seq!['b', 'm', 'p'],
        seq!['t', 'g', 'a'],
        seq!['g', 'i', 'f'],
        seq!['q', 'o', 'i'],
    ]
}

/// Whether a path names an image the tool reads: its extension, compared
/// case-insensitively, is one of [`input_extensions`]. A path without an
/// extension is not read.
pub fn has_supported_extension(path: &str) -> (b: bool)
    ensures
        b == input_extensions().contains(lower_extension(path@)),
{
    let e = extension_of(path);
    match &e {
        Some(x) => is_supported_extension(Some(x.as_str())),
        None => is_supported_extension(None),
    }
}

/// Whether a file extension (as `Path::extension` finds it) is one of the
/// image extensions the tool reads, compared case-insensitively.
pub fn is_supported_extension(ext: Option<&str>) -> (b: bool)
    ensures
        b == input_extensions().contains(lower_or_empty(opt_view(ext))),
{
    let e = lower_ext_chars(ext);
    let known: Vec<Vec<char>> = vec![
        vec!['p', 'n', 'g'],
        vec!['j', 'p', 'g'],
        vec!['j', 'p', 'e', 'g'],
        vec!['w', 'e', 'b', 'p'],
        vec!['b', 'm', 'p'],
        vec!['t', 'g', 'a'],
        vec!['g', 'i', 'f'],
        vec!['q', 'o', 'i'],
    ];
    assert(known.len() == 8);
    assert(forall|i: int| 0 <= i < 8 ==> #[trigger] known@[i]@ == input_extensions()[i]);
    let mut i: usize = 0;
    while i < known.len()
        invariant
            known.len() == 8,
            forall|q: int| 0 <= q < 8 ==> #[trigger] known@[q]@ == input_extensions()[q],
            e@ == lower_or_empty(opt_view(ext)),
            i <= 8,
            forall|q: int| 0 <= q < i ==> input_extensions()[q] != e@,
        decreases 8 - i,
    {
        if chars_eq(&known[i], &e) {
            assert(input_extensions()[i as int] == e@);
            return true;
        }
        i += 1;
    }
    assert(!input_extensions().contains(e@));
    false
}

/// Where one input's output goes.
#[derive(Clone, Copy, Debug, PartialEq, Eq, Structural)]
pub enum OutputTarget {
    /// Overwrite the input itself.
    InPlace,
    /// A sibling of the input named `<stem>.quantized.png`.
    SiblingQuantized,
    /// The input's path relative to the input directory, under the output
    /// directory.
    MirrorUnderOutput,
    /// The input's file name inside the output directory.
    IntoOutputDirectory,
    /// The output path itself.
    OutputPath,
}

/// Where an input's output goes: in place when asked; otherwise next to the
/// input when no output is given; otherwise mirrored under the output for a
/// directory input; otherwise into the output when it is an existing
/// directory, or at the output path.
pub open spec fn output_target_spec(
    in_place: bool,
    has_output: bool,
    input_root_is_dir: bool,
    output_is_dir: bool,
) -> OutputTarget {
    if in_place {
        OutputTarget::InPlace
    } else if !has_output {
        OutputTarget::SiblingQuantized
    } else if input_root_is_dir {
        OutputTarget::MirrorUnderOutput
    } else if output_is_dir {
        OutputTarget::IntoOutputDirectory
    } else {
        OutputTarget::OutputPath
    }
}

pub fn output_target(
    in_place: bool,
    has_output: bool,
    input_root_is_dir: bool,
    output_is_dir: bool,
) -> (t: OutputTarget)
    ensures
        t == output_target_spec(in_place, has_output, input_root_is_dir, output_is_dir),
{
    if in_place {
        OutputTarget::InPlace
    } else if !has_output {
        OutputTarget::SiblingQuantized
    } else if input_root_is_dir {
        OutputTarget::MirrorUnderOutput
    } else if output_is_dir {
        OutputTarget::IntoOutputDirectory
    } else {
        OutputTarget::OutputPath
    }
}

pub open spec fn quantized_suffix() -> Seq<char> {
    seq!['.', 'q', 'u', 'a', 'n', 't', 'i', 'z', 'e', 'd', '.', 'p', 'n', 'g']
}

/// The default output file name for an input with file stem `stem`:
/// `<stem>.quantized.png`, which is lossless and keeps alpha.
pub fn quantized_file_name(stem: &str) -> (name: String)
    ensures
        name@ == stem@ + quantized_suffix(),
{
    let mut name = String::new();
    for c in it: stem.chars()
        invariant
            name@ == it.seq().take(it.index()),
            it.seq() == stem@,
    {
        name.push(c);
    }
    let suffix: Vec<char> = vec!['.', 'q', 'u', 'a', 'n', 't', 'i', 'z', 'e', 'd', '.', 'p', 'n', 'g'];
    let ghost base = name@;
    let mut i: usize = 0;
    while i < suffix.len()
        invariant
            suffix@ == quantized_suffix(),
            base == stem@,
            i <= suffix.len(),
            name@ == base + suffix@.take(i as int),
        decreases suffix.len() - i,
    {
        name.push(suffix[i]);
        assert(suffix@.take(i + 1) =~= suffix@.take(i as int).push(suffix@[i as int]));
        assert(base + suffix@.take(i + 1) =~= (base + suffix@.take(i as int)).push(suffix@[i as int]));
        i += 1;
    }
    assert(suffix@.take(suffix.len() as int) =~= suffix@);
    name
}

} // verus!
