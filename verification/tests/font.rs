use blueboat::font::{
    stretch_value, font_weight_keyword, normalize_font_family, parse_font_stretch, FontStretch, FontStyle, FontVariant,
    ParseError,
};
use blueboat::fontmatch::{match_font_family, search_font};
use blueboat::fontrule::{get_face_name, parse_font_rule, FaceNameRecord, WeightChoice};

#[test]
fn font_stretch() {
    assert_eq!(
        parse_font_stretch("ultra-condensed"),
        Some(FontStretch::UltraCondensed)
    );
    assert_eq!(parse_font_stretch("50%"), Some(FontStretch::UltraCondensed));
    assert_eq!(
        parse_font_stretch("extra-condensed"),
        Some(FontStretch::ExtraCondensed)
    );
    assert_eq!(
        parse_font_stretch("62.5%"),
        Some(FontStretch::ExtraCondensed)
    );
    assert_eq!(
        parse_font_stretch("condensed"),
        Some(FontStretch::Condensed)
    );
    assert_eq!(parse_font_stretch("75%"), Some(FontStretch::Condensed));
    assert_eq!(
        parse_font_stretch("semi-condensed"),
        Some(FontStretch::SemiCondensed)
    );
    assert_eq!(
        parse_font_stretch("87.5%"),
        Some(FontStretch::SemiCondensed)
    );
    assert_eq!(parse_font_stretch("normal"), Some(FontStretch::Normal));
    assert_eq!(parse_font_stretch("100%"), Some(FontStretch::Normal));
    assert_eq!(
        parse_font_stretch("semi-expanded"),
        Some(FontStretch::SemiExpanded)
    );
    assert_eq!(
        parse_font_stretch("112.5%"),
        Some(FontStretch::SemiExpanded)
    );
    assert_eq!(parse_font_stretch("expanded"), Some(FontStretch::Expanded));
    assert_eq!(parse_font_stretch("125%"), Some(FontStretch::Expanded));
    assert_eq!(
        parse_font_stretch("extra-expanded"),
        Some(FontStretch::ExtraExpanded)
    );
    assert_eq!(
        parse_font_stretch("150%"),
        Some(FontStretch::ExtraExpanded)
    );
    assert_eq!(
        parse_font_stretch("ultra-expanded"),
        Some(FontStretch::UltraExpanded)
    );
    assert_eq!(parse_font_stretch("200%"), Some(FontStretch::UltraExpanded));
    assert_eq!(parse_font_stretch("52%"), None);
    assert_eq!(parse_font_stretch("-50%"), None);
    assert_eq!(parse_font_stretch("50"), None);
    assert_eq!(parse_font_stretch("ultra"), None);
}

#[test]
fn font_weight_keywords() {
    assert_eq!(font_weight_keyword("lighter"), Some(100));
    assert_eq!(font_weight_keyword("normal"), Some(400));
    assert_eq!(font_weight_keyword("bold"), Some(700));
    assert_eq!(font_weight_keyword("bolder"), Some(700));
    assert_eq!(font_weight_keyword("100"), Some(100));
    assert_eq!(font_weight_keyword("600"), Some(600));
    assert_eq!(font_weight_keyword("120"), None);
    assert_eq!(font_weight_keyword("whatever"), None);
}

#[test]
fn font_style_and_variant_keywords() {
    assert_eq!(FontStyle::from_str("italic"), Ok(FontStyle::Italic));
    assert_eq!(FontStyle::from_str("oblique"), Ok(FontStyle::Oblique));
    assert_eq!(
        FontStyle::from_str("slanted"),
        Err(ParseError::InvalidFontStyle("slanted".to_string()))
    );
    assert_eq!(FontVariant::from_str("small-caps"), Ok(FontVariant::SmallCaps));
    assert_eq!(
        FontVariant::from_str("caps"),
        Err(ParseError::InvalidFontVariant("caps".to_string()))
    );
    assert_eq!(FontStretch::from(1), FontStretch::UltraCondensed);
    assert_eq!(FontStretch::from(5), FontStretch::Normal);
    assert_eq!(FontStretch::from(9), FontStretch::UltraExpanded);
}

#[test]
fn font_family_normalization() {
    assert_eq!(normalize_font_family("Arial, sans-serif"), "Arial,sans-serif");
    assert_eq!(
        normalize_font_family("Helvetica ,  Arial, sans-serif"),
        "Helvetica,Arial,sans-serif"
    );
    assert_eq!(
        normalize_font_family("\"Helvetica Neue\", sans-serif"),
        "Helvetica Neue,sans-serif"
    );
    assert_eq!(normalize_font_family("'Microsoft YaHei'"), "Microsoft YaHei");
}

#[test]
fn font_rule_bold_italic() {
    let r = parse_font_rule("bold italic 50px Arial, sans-serif").unwrap();
    assert_eq!(r.style, FontStyle::Italic);
    assert_eq!(r.variant, FontVariant::Normal);
    assert_eq!(r.weight, WeightChoice::Known(700));
    assert_eq!(r.stretch, FontStretch::Normal);
    assert_eq!(r.size_text, "50");
    assert_eq!(r.unit, "px");
    assert_eq!(r.family, "Arial,sans-serif");
}

#[test]
fn font_rule_defaults_and_percent() {
    let r = parse_font_rule("50px").unwrap();
    assert_eq!(r.family, "sans-serif");
    assert_eq!(r.weight, WeightChoice::Known(400));
    let r = parse_font_rule("62.5% 50% Arial").unwrap();
    assert_eq!(r.stretch, FontStretch::ExtraCondensed);
    assert_eq!(r.size_text, "50");
    assert_eq!(r.unit, "%");
    let r = parse_font_rule("1.2em \"Fira Sans\"").unwrap();
    assert_eq!(r.size_text, "1.2");
    assert_eq!(r.unit, "em");
    assert_eq!(r.family, "Fira Sans");
    let r = parse_font_rule("300 20px Arial").unwrap();
    assert_eq!(r.weight, WeightChoice::Known(300));
    assert_eq!(r.family, "Arial");
}

#[test]
fn font_rule_rejected() {
    match parse_font_rule("Arial") {
        Err(ParseError::InvalidFontStyle(t)) => assert_eq!(t, "Arial"),
        _ => panic!("a rule without a size is refused"),
    }
}

#[test]
fn font_family_matching() {
    let names = vec![
        "noto sans".to_string(),
        "noto sans bold".to_string(),
        "noto sans light".to_string(),
        "fira code".to_string(),
    ];
    assert_eq!(match_font_family("Noto-Sans", &names, FontStyle::Normal, 400), Some(0));
    assert_eq!(match_font_family("Noto Sans", &names, FontStyle::Normal, 700), Some(1));
    assert_eq!(match_font_family("noto sans", &names, FontStyle::Normal, 200), Some(2));
    assert_eq!(match_font_family("Helvetica", &names, FontStyle::Normal, 400), None);
    assert_eq!(
        search_font("Helvetica, Fira Code, Noto Sans", &names, FontStyle::Normal, 400),
        vec![3, 0]
    );
}

#[test]
fn face_name_from_records() {
    let records = vec![
        FaceNameRecord { name_id: 1, is_unicode: true, name: vec![0, 0x41] },
        FaceNameRecord { name_id: 4, is_unicode: false, name: vec![0, 0x42] },
        FaceNameRecord { name_id: 4, is_unicode: true, name: vec![0, 0x43, 0] },
        FaceNameRecord { name_id: 4, is_unicode: true, name: vec![0, 0x46, 0, 0x69, 0, 0x72, 0, 0x61] },
    ];
    assert_eq!(get_face_name(&records), Some("Fira".to_string()));
    assert_eq!(get_face_name(&records[..3].to_vec()), None);
}

#[test]
fn stretch_numbers_roundtrip() {
    for n in 1..=9 {
        assert_eq!(stretch_value(FontStretch::from(n)), n);
    }
    assert_eq!(FontStretch::from(stretch_value(FontStretch::SemiExpanded)), FontStretch::SemiExpanded);
}
