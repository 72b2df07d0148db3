use aris_subset::ass::{
    ass_uu_decode, ass_uu_encode, decode_subtitle, encode_subtitle, is_system_font,
    normalize_lookup_name, parse_embedded_fonts, parse_font_subset_comments, parse_subtitle,
    rewrite_drawings_as_font, rewrite_strip_embedded, rewrite_with_embedded_fonts, strip_prefix_ci,
    AssEmbeddedFont, BomKind, DecodeError, DrawRestoreEntry, UuError,
};
use aris_subset::models::{EmbeddedFont, FontSlot};
use aris_subset::scanner::text_has_marker;
use aris_subset::strmap::StrMap;

fn names(pairs: &[(&str, &str)]) -> StrMap<String> {
    let mut m = StrMap::new();
    for (k, v) in pairs {
        m.insert(k.to_string(), v.to_string());
    }
    m
}

fn no_drawings() -> StrMap<DrawRestoreEntry> {
    StrMap::new()
}

#[test]
fn parses_style_and_inline_fonts_current() {
    let text = "[V4+ Styles]\nFormat: Name, Fontname, Fontsize, PrimaryColour, SecondaryColour, OutlineColour, BackColour, Bold, Italic\nStyle: Default,MainFont,20,&H0,&H0,&H0,&H0,-1,0\n[Events]\nFormat: Layer, Start, End, Style, Text\nDialogue: 0,0:00:00.00,0:00:01.00,Default,Hello {\\fnOther\\i1}字\n";
    let parsed = parse_subtitle(text);
    assert!(parsed.usages.get("MainFont").unwrap().bold.contains(&('H' as u32)));
    assert!(parsed.usages.get("Other").unwrap().bold_italic.contains(&('字' as u32)));
}

#[test]
fn uuencode_round_trips_ass_embedded_data() {
    assert_eq!(ass_uu_encode(&[0]), "!!");
    assert_eq!(ass_uu_encode(&[0, 0]), "!!!");
    assert_eq!(ass_uu_encode(&[0, 0, 0]), "!!!!");
    let data = b"hello subset";
    assert_eq!(ass_uu_decode(&ass_uu_encode(data)).unwrap(), data);
}

#[test]
fn rewrites_styles_and_font_tags_current() {
    let map = names(&[("mainfont", "ABCD1234")]);
    let text = "[Script Info]\nTitle: x\n[V4+ Styles]\nFormat: Name, Fontname\nStyle: Default,MainFont\n[Events]\nFormat: Layer, Start, End, Style, Text\nDialogue: 0,0,1,Default,{\\fnMainFont}Hi\n";
    let out = rewrite_with_embedded_fonts(text, "\n", &map, &[]);
    assert!(out.contains("Style: Default,ABCD1234"));
    assert!(out.contains("{\\fnABCD1234}Hi"));
    assert!(out.contains("; Font Subset: ABCD1234 - mainfont"));
}

#[test]
fn parses_embedded_fonts_and_subset_comments() {
    let payload = ass_uu_encode(b"abc");
    let text = format!(
        "[Script Info]\n; Font Subset: ABCD1234 - Main Font\n[Fonts]\nfontname: ABCD1234_0.ttf\n{payload}\n\n[Events]\n"
    );
    let fonts = parse_embedded_fonts(&text);
    assert_eq!(fonts.len(), 1);
    assert_eq!(fonts[0].fontname, "ABCD1234_0.ttf");
    assert_eq!(fonts[0].data, b"abc");
    let comments = parse_font_subset_comments(&text);
    assert_eq!(comments.get("abcd1234").unwrap(), "Main Font");
}

#[test]
fn strip_restores_names_keeps_unlisted_fonts() {
    let keep_payload = ass_uu_encode(b"keep");
    let text = format!(
        "[Script Info]\n; Font Subset: RANDNAME - Main Font\n[V4+ Styles]\nFormat: Name, Fontname\nStyle: Default,RANDNAME\n[Fonts]\nfontname: RANDNAME_0.ttf\n!!!!\n\nfontname: Keep_0.ttf\n{keep_payload}\n\n[Events]\nFormat: Layer, Start, End, Style, Text\nDialogue: 0,0,1,Default,{{\\fnRANDNAME}}Hi\n"
    );
    let restore = names(&[("randname", "Main Font")]);
    let kept = vec![AssEmbeddedFont { fontname: "Keep_0.ttf".to_string(), data: b"keep".to_vec() }];
    let out = rewrite_strip_embedded(&text, "\n", &restore, &kept, &no_drawings());
    assert!(out.contains("Style: Default,Main Font"));
    assert!(out.contains("{\\fnMain Font}Hi"));
    assert!(out.contains("fontname: Keep_0.ttf"));
    assert!(!out.contains("fontname: RANDNAME_0.ttf"));
}

#[test]
fn rewrites_and_restores_drawing_font_runs() {
    let text = "[Events]\nFormat: Layer, Start, End, Style, Text\nDialogue: 0,0,1,Default,{\\p1}m 0 0 l 10 0{\\p0} done\n";
    let rewritten = rewrite_drawings_as_font(text, "\n");
    assert_eq!(rewritten.entries.len(), 1);
    assert!(rewritten.text.contains("{\\fnASSDrawSubset\\p0}"));
    let mut draw_map = StrMap::new();
    draw_map.insert(rewritten.entries[0].ch.clone(), rewritten.entries[0].clone());
    let restored =
        rewrite_strip_embedded(&rewritten.text, "\n", &names(&[]), &[], &draw_map);
    assert!(restored.contains("{\\p1}m 0 0 l 10 0{\\p0} done"));
}

#[test]
fn case_insensitive_prefix_is_utf8_safe() {
    assert_eq!(strip_prefix_ci("方正准圆_GBK", "Fontname:"), None);
}

#[test]
fn case_insensitive_prefix_is_cut_off() {
    assert_eq!(strip_prefix_ci("fontNAME: Arial", "Fontname:"), Some(" Arial".to_string()));
    assert_eq!(strip_prefix_ci("Font", "Fontname:"), None);
}

#[test]
fn every_encoding_is_read_back() {
    let text = "[Script Info]\r\nTitle: 字幕 \u{1F600}\r\n";
    for bom in [BomKind::Absent, BomKind::Utf8, BomKind::Utf16Le, BomKind::Utf16Be] {
        let bytes = encode_subtitle(text, &bom);
        let decoded = decode_subtitle(&bytes).unwrap();
        assert_eq!(decoded.text, text);
        assert_eq!(decoded.bom, bom);
        assert_eq!(encode_subtitle(&decoded.text, &decoded.bom), bytes);
    }
    assert_eq!(encode_subtitle("A", &BomKind::Utf16Be), vec![0xfe, 0xff, 0, 0x41]);
    assert_eq!(encode_subtitle("A", &BomKind::Utf8), vec![0xef, 0xbb, 0xbf, 0x41]);
}

#[test]
fn unreadable_bytes_are_refused() {
    assert_eq!(
        decode_subtitle(&[0xef, 0xbb, 0xbf, 0xff]).unwrap_err(),
        DecodeError::InvalidUtf8AfterBom
    );
    assert_eq!(decode_subtitle(&[0xff, 0xfe, 0x41]).unwrap_err(), DecodeError::OddUtf16Length);
    assert_eq!(
        decode_subtitle(&[0xff, 0xfe, 0x00, 0xd8]).unwrap_err(),
        DecodeError::InvalidUtf16
    );
    let plain = decode_subtitle(&[0x80, 0x81]).unwrap_err();
    assert_eq!(plain, DecodeError::NotUnicode);
    assert_eq!(plain.message(), "subtitle has no Unicode BOM and is not valid UTF-8");
}

#[test]
fn uuencoded_text_ignores_line_breaks() {
    let data: Vec<u8> = (0..=255).collect();
    let text = ass_uu_encode(&data);
    let broken: String = text.chars().enumerate().fold(String::new(), |mut acc, (i, c)| {
        if i % 80 == 0 {
            acc.push_str("\r\n");
        }
        acc.push(c);
        acc
    });
    assert_eq!(ass_uu_decode(&broken).unwrap(), data);
}

#[test]
fn broken_uuencoding_is_refused() {
    assert!(matches!(ass_uu_decode("A"), Err(UuError::Truncated)));
    assert!(matches!(ass_uu_decode("!!!!字"), Err(UuError::InvalidCharacter)));
}

#[test]
fn lookup_names_ignore_case_space_and_the_vertical_mark() {
    assert_eq!(normalize_lookup_name(" @Main Font "), "main font");
    assert!(is_system_font("ARIAL"));
    assert!(is_system_font(" @SimSun "));
    assert!(!is_system_font("Source Han Sans"));
}

fn font(original: &str, embedded: &str, slot: FontSlot, data: &[u8]) -> EmbeddedFont {
    EmbeddedFont {
        original_name: original.to_string(),
        embedded_name: embedded.to_string(),
        slot,
        data: data.to_vec(),
    }
}

#[test]
fn embedded_fonts_are_read_back_from_the_file() {
    let text = "[Script Info]\nTitle: x\n[Fonts]\nfontname: Old_0.ttf\n!!!!\n\n[Events]\nFormat: Layer, Start, End, Style, Text\nDialogue: 0,0,1,Default,Hi\n";
    let fonts =
        [font("Main", "AS1", FontSlot::Normal, b"one"), font("Main", "AS1", FontSlot::Bold, b"two!")];
    let out = rewrite_with_embedded_fonts(text, "\n", &names(&[("main", "AS1")]), &fonts);
    let read = parse_embedded_fonts(&out);
    let got: Vec<(&str, &[u8])> =
        read.iter().map(|f| (f.fontname.as_str(), f.data.as_slice())).collect();
    assert_eq!(got, vec![("AS1_0.ttf", &b"one"[..]), ("AS1_B0.ttf", &b"two!"[..])]);
    assert_eq!(parse_font_subset_comments(&out).get("as1").unwrap(), "Main");
}

#[test]
fn subsetting_is_undone() {
    let row = "20,&H0,&H0,&H0,&H0,0,0,0,0,100,100,0,0,1,2,2,2,10,10,10,1";
    let text = format!(
        "[Script Info]\nTitle: x\n[V4+ Styles]\nFormat: Name, Fontname\nStyle: Default,Main Font,{row}\nStyle: Alt,Other,{row}\n[Events]\nFormat: Layer, Start, End, Style, Text\nDialogue: 0,0,1,Default,{{\\b1\\fnMain Font\\i1}}Hi{{\\fnOther}}yo\n"
    );
    let fonts = [font("Main Font", "AS1", FontSlot::Normal, b"one")];
    let out = rewrite_with_embedded_fonts(&text, "\n", &names(&[("main font", "AS1")]), &fonts);
    assert!(out.contains("Style: Default,AS1,20"));
    assert!(out.contains("{\\b1\\fnAS1\\i1}Hi{\\fnOther}yo"));
    assert!(out.contains("; Font Subset: AS1 - Main Font"));
    assert!(text_has_marker(&out));
    assert!(!text_has_marker(&text));
    let originals = parse_font_subset_comments(&out);
    assert_eq!(originals.get("as1").unwrap(), "Main Font");
    assert_eq!(rewrite_strip_embedded(&out, "\n", &originals, &[], &no_drawings()), text);
}

#[test]
fn subsetting_is_undone_without_a_last_line_break() {
    let row = "20,&H0,&H0,&H0,&H0,0,0,0,0,100,100,0,0,1,2,2,2,10,10,10,1";
    for nl in ["\n", "\r\n"] {
        let text = [
            "[Script Info]".to_string(),
            "[V4+ Styles]".to_string(),
            "Format: Name, Fontname".to_string(),
            format!("Style: Default,Main,{row}"),
            "[Events]".to_string(),
            "Format: Layer, Start, End, Style, Text".to_string(),
            "Dialogue: 0,0,1,Default,{\\fnMain}Hi".to_string(),
        ]
        .join(nl);
        let fonts = [font("Main", "AS1", FontSlot::Normal, b"one")];
        let out = rewrite_with_embedded_fonts(&text, nl, &names(&[("main", "AS1")]), &fonts);
        assert!(out.contains(&format!("fontname: AS1_0.ttf{nl}")));
        let originals = parse_font_subset_comments(&out);
        assert_eq!(rewrite_strip_embedded(&out, nl, &originals, &[], &no_drawings()), text);
    }
}

#[test]
fn a_conversion_with_drawings_is_undone() {
    let text = "[Script Info]\n[Events]\nFormat: Layer, Start, End, Style, Text\nDialogue: 0,0,1,Default,{\\fnMain}Hi{\\p1}m 0 0 l 1 1{\\p0}x\nComment: {\\p1}m 0 0{\\p0}\nDialogue: 0,0,1,Default,{\\p1}m 0 0 l 1 1{\\p0}, end\n";
    let drawn = rewrite_drawings_as_font(text, "\n");
    assert_eq!(drawn.entries.len(), 1);
    assert_eq!(drawn.entries[0].data, "{\\p1}m 0 0 l 1 1{\\p0}");
    assert_eq!((drawn.entries[0].ch.as_str(), drawn.entries[0].flags), ("\u{E000}", 17));
    assert!(drawn.text.contains("Hi{\\fnASSDrawSubset\\p0}\u{E000}x"));
    let mut by_char = no_drawings();
    for entry in &drawn.entries {
        by_char.insert(entry.ch.clone(), entry.clone());
    }
    let none = names(&[]);
    assert_eq!(rewrite_strip_embedded(&drawn.text, "\n", &none, &[], &by_char), text);

    let fonts = [
        font("Main", "AS1", FontSlot::Normal, b"one"),
        font("ASSDrawSubset", "ASSDrawSubset", FontSlot::Normal, b"two"),
    ];
    let out =
        rewrite_with_embedded_fonts(&drawn.text, "\n", &names(&[("main", "AS1")]), &fonts);
    assert_eq!(parse_embedded_fonts(&out).len(), 2);
    let originals = parse_font_subset_comments(&out);
    assert_eq!(originals.len(), 1);
    assert_eq!(rewrite_strip_embedded(&out, "\n", &originals, &[], &by_char), text);
}

#[test]
fn names_of_fonts_are_read_without_white_space() {
    let fonts = [font("Main", " AS 1", FontSlot::Bold, b"one")];
    let out = rewrite_with_embedded_fonts("[Events]\n", "\n", &names(&[]), &fonts);
    assert!(out.contains("fontname:  AS 1_B0.ttf\n"));
    let read = parse_embedded_fonts(&out);
    assert_eq!(read.len(), 1);
    assert_eq!(read[0].fontname, "AS 1_B0.ttf");
    assert_eq!(read[0].data, b"one");
}

#[test]
fn stripping_keeps_only_the_kept_fonts() {
    let text = "[Script Info]\n[Fonts]\nfontname: A_0.ttf\n!!!!\n\nfontname: B_0.ttf\n!!!!\n\n[Events]\n";
    let kept = vec![AssEmbeddedFont { fontname: "B_0.ttf".to_string(), data: vec![0, 0, 0] }];
    let out = rewrite_strip_embedded(text, "\n", &names(&[]), &kept, &no_drawings());
    let read = parse_embedded_fonts(&out);
    assert_eq!(read.len(), 1);
    assert_eq!(read[0].fontname, "B_0.ttf");
    assert_eq!(read[0].data, vec![0, 0, 0]);
    let none = rewrite_strip_embedded(text, "\n", &names(&[]), &[], &no_drawings());
    assert!(parse_embedded_fonts(&none).is_empty());
    assert!(!none.to_ascii_lowercase().contains("[fonts]"));
}

#[test]
fn renamed_tags_reach_only_listed_fonts() {
    let text = "[Events]\nFormat: Text\nDialogue: {\\b1\\fnMain\\i1}x{\\fnOther}y{\\fn@main}z\n";
    let out = rewrite_with_embedded_fonts(text, "\n", &names(&[("main", "AS9")]), &[]);
    assert!(out.contains("{\\b1\\fnAS9\\i1}x"));
    assert!(out.contains("{\\fnOther}y"));
}

#[test]
fn codepoints_are_listed_once_and_in_order() {
    let text = "[V4+ Styles]\nFormat: Name, Fontname\nStyle: Default,F\n[Events]\nFormat: Style, Text\nDialogue: Default,cabac{\\b1}z\n";
    let parsed = parse_subtitle(text);
    let usage = parsed.usages.get("F").unwrap();
    assert_eq!(usage.slot_codepoints(FontSlot::Normal), vec![97, 98, 99]);
    assert_eq!(usage.slot_codepoints(FontSlot::Bold), vec![122]);
    assert_eq!(usage.all_codepoints(), vec![97, 98, 99, 122]);
}

#[test]
fn drawings_are_counted_and_draw_no_text() {
    let text = "[V4+ Styles]\nFormat: Name, Fontname\nStyle: Default,F\n[Events]\nFormat: Style, Text\nDialogue: Default,{\\p1}m 0 0{\\p0}ok\n";
    let parsed = parse_subtitle(text);
    assert_eq!(parsed.drawing_count, 1);
    assert_eq!(parsed.usages.get("F").unwrap().all_codepoints(), vec![107, 111]);
}
