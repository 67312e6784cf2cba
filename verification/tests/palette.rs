use quantize_palette::palette::{
    paintnet_text_readable, palette_text_readable, parse_gpl, parse_hex, parse_jasc, parse_paintnet, Palette,
};

#[test]
fn builtin_rgbwk_has_five_pure_colors() {
    let palette = Palette::rgbwk();
    assert_eq!(palette.len(), 5);
    for c in [
        [0, 0, 0],
        [255, 255, 255],
        [255, 0, 0],
        [0, 255, 0],
        [0, 0, 255],
    ] {
        assert!(palette.index_of(c).is_some(), "missing {c:?}");
    }
}

#[test]
fn parses_gpl_skipping_headers_and_transparent() {
    let text = "GIMP Palette\nChannels: RGBA\n#\n  0   0   0   0\tTransparent\n255 0 0 255\tRed\n  0 255   0 255\tGreen\n";
    let colors = parse_gpl(text);
    assert_eq!(colors, vec![[255, 0, 0], [0, 255, 0]]);
}

#[test]
fn parses_jasc_pal() {
    let text = "JASC-PAL\n0100\n2\n255 0 0\n0 255 0\n";
    assert_eq!(parse_jasc(text), vec![[255, 0, 0], [0, 255, 0]]);
}

#[test]
fn parses_hex_list() {
    let text = "; a comment\n#ff0000\n00ff00\n";
    assert_eq!(parse_hex(text), vec![[255, 0, 0], [0, 255, 0]]);
}

#[test]
fn parses_paintnet_dropping_transparent() {
    let text = ";paint.net Palette File\nFFFF0000\n00FFFFFF\nFF00FF00\n";
    assert_eq!(parse_paintnet(text), vec![[255, 0, 0], [0, 255, 0]]);
}

#[test]
fn index_of_finds_color() {
    let palette = Palette::from_colors(vec![[1, 2, 3], [4, 5, 6]]);
    assert_eq!(palette.index_of([4, 5, 6]), Some(1));
    assert_eq!(palette.index_of([9, 9, 9]), None);
}

#[test]
fn gpl_accepts_rgb_rows_without_alpha() {
    let text = "GIMP Palette\n10 20 30\t a\n40 50 60\n";
    assert_eq!(parse_gpl(text), vec![[10, 20, 30], [40, 50, 60]]);
}

#[test]
fn duplicate_colors_index_to_first_occurrence() {
    let palette = Palette::from_colors(vec![[7, 7, 7], [9, 9, 9], [7, 7, 7]]);
    assert_eq!(palette.len(), 3);
    assert_eq!(palette.index_of([7, 7, 7]), Some(0));
}

#[test]
fn unknown_extension_loads_as_gpl() {
    let palette = Palette::from_file_text("colors.palette", "GIMP Palette\n255 0 0\n0 255 0\n");
    assert_eq!(palette.len(), 2);
    assert_eq!(palette.index_of([255, 0, 0]), Some(0));
}

#[test]
fn load_dispatches_on_extension() {
    let hex = Palette::from_file_text("p.hex", "ff0000\n00ff00\n0000ff\n");
    assert_eq!(hex.len(), 3);
    let pal = Palette::from_file_text("p.pal", "JASC-PAL\n0100\n1\n12 34 56\n");
    assert_eq!(pal.index_of([12, 34, 56]), Some(0));
}

#[test]
fn extension_dispatch_ignores_case() {
    let txt = Palette::from_file_text("dir/P.TXT", "; c\nFF0A0B0C\n000D0E0F\n");
    assert_eq!(txt.colors(), &vec![[10, 11, 12]]);
    let upper = Palette::from_file_text("P.HEX", "#010203\n");
    assert_eq!(upper.colors(), &vec![[1, 2, 3]]);
    let by_ext = Palette::from_extension_text(Some("Pal"), "h\nh\nh\n1 2 3\n");
    assert_eq!(by_ext.colors(), &vec![[1, 2, 3]]);
    let none = Palette::from_extension_text(None, "1 2 3\n");
    assert_eq!(none.colors(), &vec![[1, 2, 3]]);
    assert!(palette_text_readable("p.gpl", "a\u{e9}12345\n"));
    assert!(!palette_text_readable("p.TXT", "a\u{e9}12345\n"));
}

#[test]
fn from_gpl_str_keeps_order_and_repeats() {
    let p = Palette::from_gpl_str("GIMP Palette\n1 2 3\n4 5 6\n1 2 3\n");
    assert_eq!(p.colors(), &vec![[1, 2, 3], [4, 5, 6], [1, 2, 3]]);
    assert_eq!(p.index_of([1, 2, 3]), Some(0));
    assert!(!p.is_empty());
    assert!(Palette::from_colors(vec![]).is_empty());
}

#[test]
fn gpl_edge_rows() {
    // Over-range numbers are skipped, words after the first non-number are
    // ignored, and a `+` sign is not a digit.
    let text = "300 1 2 3\n4 5 6 name 7\n+1 2 3\n 9 9 9 0 \r\n8\t8\t8\t8\n";
    assert_eq!(parse_gpl(text), vec![[1, 2, 3], [4, 5, 6], [8, 8, 8]]);
    assert_eq!(parse_gpl(""), Vec::<[u8; 3]>::new());
    assert_eq!(parse_gpl("12 13"), Vec::<[u8; 3]>::new());
}

#[test]
fn jasc_edge_rows() {
    assert_eq!(parse_jasc("JASC-PAL\n0100\n"), Vec::<[u8; 3]>::new());
    // Skips exactly three header lines; `+` signs parse; unparsable words
    // are skipped.
    assert_eq!(
        parse_jasc("a\nb\nc\n+1 x 2 3 4\n\n5 6\n007 8 9\r\n"),
        vec![[1, 2, 3], [7, 8, 9]]
    );
}

#[test]
fn hex_edge_rows() {
    assert_eq!(
        parse_hex("##AbCdEf\n  123456  \n12345\n1234567\nzz0000\n;ffffff\n"),
        vec![[0xab, 0xcd, 0xef], [0x12, 0x34, 0x56]]
    );
}

#[test]
fn paintnet_edge_rows() {
    // `+` is accepted in the alpha byte; six-digit rows carry no alpha.
    assert_eq!(
        parse_paintnet("+1112233\n#445566\n00778899\nGG112233\n"),
        vec![[0x11, 0x22, 0x33], [0x44, 0x55, 0x66]]
    );
}

#[test]
fn paintnet_readability() {
    assert!(paintnet_text_readable("FF000000\n; comment\n"));
    assert!(paintnet_text_readable("\u{e9}1234567\n"));
    // An eight-byte token whose second byte falls inside a character.
    assert!(!paintnet_text_readable("a\u{e9}12345\n"));
    assert_eq!(parse_paintnet("\u{e9}1234567\n"), Vec::<[u8; 3]>::new());
}

#[test]
fn unicode_whitespace_is_trimmed() {
    assert_eq!(parse_hex("\u{3000}ff0000\u{a0}\n"), vec![[255, 0, 0]]);
    assert_eq!(parse_gpl("1\u{2003}2\u{2003}3\n"), vec![[1, 2, 3]]);
}

fn demo_colors() -> Vec<[u8; 3]> {
    vec![
        [0, 0, 0],
        [255, 255, 255],
        [128, 128, 128],
        [228, 59, 68],
        [99, 199, 77],
        [0, 87, 132],
        [255, 205, 117],
        [38, 43, 68],
    ]
}

#[test]
fn gpl_text_roundtrip() {
    let mut text = String::from("GIMP Palette\nName: Demo\nColumns: 0\n#\n");
    for c in demo_colors() {
        text.push_str(&format!("{} {} {}\tcolor\n", c[0], c[1], c[2]));
    }
    let palette = Palette::from_file_text("demo.gpl", &text);
    assert_eq!(palette.len(), demo_colors().len());
    for c in demo_colors() {
        assert!(palette.index_of(c).is_some(), "missing {c:?}");
    }
    assert_eq!(palette.colors(), &demo_colors());
}
