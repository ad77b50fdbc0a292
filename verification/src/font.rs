//! CSS font shorthand components: style, variant, stretch, weight keywords and
//! the normalisation of a font-family list.

use vstd::prelude::*;
use crate::text::{
    chars_eq_str, chars_of, join_chars, join_seq, split_chars, split_seq, string_from_chars,
    trim_chars, trim_seq,
};

verus! {

/// Family used when a font rule names none.
pub const DEFAULT_FONT: &'static str = "sans-serif";

/// Error of parsing one keyword of a font rule; holds the rejected text.
#[derive(Clone, Debug, PartialEq)]
pub enum ParseError {
    InvalidFontStyle(String),
    InvalidFontVariant(String),
}

#[derive(Debug, Clone, Copy, PartialEq, Eq, Structural)]
pub enum FontStyle {
    Normal,
    Italic,
    Oblique,
}

#[derive(Debug, Clone, Copy, PartialEq, Eq, Structural)]
pub enum FontVariant {
    Normal,
    SmallCaps,
}

/// Font stretch, numbered 1 (ultra-condensed) to 9 (ultra-expanded).
#[derive(Debug, Clone, Copy, PartialEq, Eq, Structural)]
pub enum FontStretch {
    UltraCondensed,
    ExtraCondensed,
    Condensed,
    SemiCondensed,
    Normal,
    SemiExpanded,
    Expanded,
    ExtraExpanded,
    UltraExpanded,
}

/// The style that a keyword names.
pub open spec fn spec_font_style(s: Seq<char>) -> Option<FontStyle> {
    if s == "normal"@ {
        Some(FontStyle::Normal)
    } else if s == "italic"@ {
        Some(FontStyle::Italic)
    } else if s == "oblique"@ {
        Some(FontStyle::Oblique)
    } else {
        None
    }
}

/// The variant that a keyword names.
pub open spec fn spec_font_variant(s: Seq<char>) -> Option<FontVariant> {
    if s == "normal"@ {
        Some(FontVariant::Normal)
    } else if s == "small-caps"@ {
        Some(FontVariant::SmallCaps)
    } else {
        None
    }
}

/// The stretch that a keyword or percentage names.
pub open spec fn spec_font_stretch(s: Seq<char>) -> Option<FontStretch> {
    if s == "ultra-condensed"@ || s == "50%"@ {
        Some(FontStretch::UltraCondensed)
    } else if s == "extra-condensed"@ || s == "62.5%"@ {
        Some(FontStretch::ExtraCondensed)
    } else if s == "condensed"@ || s == "75%"@ {
        Some(FontStretch::Condensed)
    } else if s == "semi-condensed"@ || s == "87.5%"@ {
        Some(FontStretch::SemiCondensed)
    } else if s == "normal"@ || s == "100%"@ {
        Some(FontStretch::Normal)
    } else if s == "semi-expanded"@ || s == "112.5%"@ {
        Some(FontStretch::SemiExpanded)
    } else if s == "expanded"@ || s == "125%"@ {
        Some(FontStretch::Expanded)
    } else if s == "extra-expanded"@ || s == "150%"@ {
        Some(FontStretch::ExtraExpanded)
    } else if s == "ultra-expanded"@ || s == "200%"@ {
        Some(FontStretch::UltraExpanded)
    } else {
        None
    }
}

/// The weight that a keyword or one of the listed numbers names.
pub open spec fn spec_font_weight_keyword(s: Seq<char>) -> Option<u32> {
    if s == "lighter"@ || s == "100"@ {
        Some(100)
    } else if s == "200"@ {
        Some(200)
    } else if s == "300"@ {
        Some(300)
    } else if s == "normal"@ || s == "400"@ {
        Some(400)
    } else if s == "500"@ {
        Some(500)
    } else if s == "600"@ {
        Some(600)
    } else if s == "bold"@ || s == "bolder"@ || s == "700"@ {
        Some(700)
    } else {
        None
    }
}

/// The number of a stretch, 1 to 9.
pub open spec fn stretch_number(s: FontStretch) -> i32 {
    match s {
        FontStretch::UltraCondensed => 1,
        FontStretch::ExtraCondensed => 2,
        FontStretch::Condensed => 3,
        FontStretch::SemiCondensed => 4,
        FontStretch::Normal => 5,
        FontStretch::SemiExpanded => 6,
        FontStretch::Expanded => 7,
        FontStretch::ExtraExpanded => 8,
        FontStretch::UltraExpanded => 9,
    }
}

impl FontStyle {
    /// Parses a font-style keyword.
    pub fn from_str(s: &str) -> (res: Result<FontStyle, ParseError>)
        ensures
            match spec_font_style(s@) {
                Some(st) => res == Ok::<FontStyle, ParseError>(st),
                None => res matches Err(ParseError::InvalidFontStyle(t)) && t@ == s@,
            },
    {
        let c = chars_of(s);
        if chars_eq_str(c.as_slice(), "normal") {
            Ok(FontStyle::Normal)
        } else if chars_eq_str(c.as_slice(), "italic") {
            Ok(FontStyle::Italic)
        } else if chars_eq_str(c.as_slice(), "oblique") {
            Ok(FontStyle::Oblique)
        } else {
            Err(ParseError::InvalidFontStyle(string_from_chars(c.as_slice())))
        }
    }
}

impl FontVariant {
    /// Parses a font-variant keyword.
    pub fn from_str(s: &str) -> (res: Result<FontVariant, ParseError>)
        ensures
            match spec_font_variant(s@) {
                Some(v) => res == Ok::<FontVariant, ParseError>(v),
                None => res matches Err(ParseError::InvalidFontVariant(t)) && t@ == s@,
            },
    {
        let c = chars_of(s);
        if chars_eq_str(c.as_slice(), "normal") {
            Ok(FontVariant::Normal)
        } else if chars_eq_str(c.as_slice(), "small-caps") {
            Ok(FontVariant::SmallCaps)
        } else {
            Err(ParseError::InvalidFontVariant(string_from_chars(c.as_slice())))
        }
    }
}

impl FontStretch {
    /// The stretch numbered `value`.
    pub fn from(value: i32) -> (res: FontStretch)
        requires
            1 <= value <= 9,
        ensures
            stretch_number(res) == value,
    {
        match value {
            1 => FontStretch::UltraCondensed,
            2 => FontStretch::ExtraCondensed,
            3 => FontStretch::Condensed,
            4 => FontStretch::SemiCondensed,
            5 => FontStretch::Normal,
            6 => FontStretch::SemiExpanded,
            7 => FontStretch::Expanded,
            8 => FontStretch::ExtraExpanded,
            _ => FontStretch::UltraExpanded,
        }
    }
}

/// Parses a font-stretch keyword or percentage.
pub fn parse_font_stretch(stretch: &str) -> (res: Option<FontStretch>)
    ensures
        res == spec_font_stretch(stretch@),
{
    let c = chars_of(stretch);
    let c = c.as_slice();
    if chars_eq_str(c, "ultra-condensed") || chars_eq_str(c, "50%") {
        Some(FontStretch::UltraCondensed)
    } else if chars_eq_str(c, "extra-condensed") || chars_eq_str(c, "62.5%") {
        Some(FontStretch::ExtraCondensed)
    } else if chars_eq_str(c, "condensed") || chars_eq_str(c, "75%") {
        Some(FontStretch::Condensed)
    } else if chars_eq_str(c, "semi-condensed") || chars_eq_str(c, "87.5%") {
        Some(FontStretch::SemiCondensed)
    } else if chars_eq_str(c, "normal") || chars_eq_str(c, "100%") {
        Some(FontStretch::Normal)
    } else if chars_eq_str(c, "semi-expanded") || chars_eq_str(c, "112.5%") {
        Some(FontStretch::SemiExpanded)
    } else if chars_eq_str(c, "expanded") || chars_eq_str(c, "125%") {
        Some(FontStretch::Expanded)
    } else if chars_eq_str(c, "extra-expanded") || chars_eq_str(c, "150%") {
        Some(FontStretch::ExtraExpanded)
    } else if chars_eq_str(c, "ultra-expanded") || chars_eq_str(c, "200%") {
        Some(FontStretch::UltraExpanded)
    } else {
        None
    }
}

/// The weight named by a font-weight keyword (`lighter`, `normal`, `bold`,
/// `bolder`) or by one of the numbers 100 to 700 in steps of 100; `None` for
/// any other text, which a caller then reads as a number.
pub fn font_weight_keyword(weight: &str) -> (res: Option<u32>)
    ensures
        res == spec_font_weight_keyword(weight@),
{
    let c = chars_of(weight);
    let c = c.as_slice();
    if chars_eq_str(c, "lighter") || chars_eq_str(c, "100") {
        Some(100)
    } else if chars_eq_str(c, "200") {
        Some(200)
    } else if chars_eq_str(c, "300") {
        Some(300)
    } else if chars_eq_str(c, "normal") || chars_eq_str(c, "400") {
        Some(400)
    } else if chars_eq_str(c, "500") {
        Some(500)
    } else if chars_eq_str(c, "600") {
        Some(600)
    } else if chars_eq_str(c, "bold") || chars_eq_str(c, "bolder") || chars_eq_str(c, "700") {
        Some(700)
    } else {
        None
    }
}

/// A family name without the quotes around it: a name that starts with `"` or
/// `'` loses its first and its last character.
pub open spec fn unquote(s: Seq<char>) -> Seq<char> {
    if s.len() > 0 && (s[0] == '"' || s[0] == '\'') {
        if s.len() >= 2 {
            s.subrange(1, s.len() - 1)
        } else {
            Seq::<char>::empty()
        }
    } else {
        s
    }
}

/// The normalised family list: the names between commas, each trimmed and
/// unquoted, joined again with commas.
pub open spec fn spec_normalize_family(family: Seq<char>) -> Seq<char> {
    join_seq(split_seq(family, ',').map_values(|p: Seq<char>| unquote(trim_seq(p))), ',')
}

/// Normalises a font-family list as a font rule gives it, for example
/// `Helvetica ,  "Arial"` becomes `Helvetica,Arial`.
pub fn normalize_font_family(family: &str) -> (res: String)
    ensures
        res@ == spec_normalize_family(family@),
{
    let c = chars_of(family);
    let parts = split_chars(c.as_slice(), ',');
    let ghost sp = split_seq(family@, ',');
    let mut names: Vec<Vec<char>> = Vec::new();
    let mut i: usize = 0;
    while i < parts.len()
        invariant
            i <= parts.len(),
            parts@.len() == sp.len(),
            forall|j: int| 0 <= j < parts@.len() ==> #[trigger] parts@[j]@ == sp[j],
            names@.len() == i,
            forall|j: int| 0 <= j < i ==> #[trigger] names@[j]@ == unquote(trim_seq(sp[j])),
        decreases parts.len() - i,
    {
        let t = trim_chars(parts[i].as_slice());
        let n = t.len();
        let u: Vec<char> = if n > 0 && (t[0] == '"' || t[0] == '\'') {
            let mut v: Vec<char> = Vec::new();
            if n >= 2 {
                let mut k: usize = 1;
                while k < n - 1
                    invariant
                        2 <= n == t@.len(),
                        1 <= k <= n - 1,
                        v@ == t@.subrange(1, k as int),
                    decreases n - 1 - k,
                {
                    v.push(t[k]);
                    assert(t@.subrange(1, k + 1) == t@.subrange(1, k as int).push(t@[k as int]));
                    k += 1;
                }
            }
            assert(v@ == unquote(t@));
            v
        } else {
            t
        };
        names.push(u);
        i += 1;
    }
    let joined = join_chars(&names, ',');
    proof {
        assert(names@.map_values(|p: Vec<char>| p@) =~= sp.map_values(
            |p: Seq<char>| unquote(trim_seq(p)),
        ));
    }
    string_from_chars(joined.as_slice())
}

/// The number of a stretch (its place from ultra-condensed to
/// ultra-expanded, 1 to 9).
pub fn stretch_value(s: FontStretch) -> (res: i32)
    ensures
        res == stretch_number(s),
        1 <= res <= 9,
{
    match s {
        FontStretch::UltraCondensed => 1,
        FontStretch::ExtraCondensed => 2,
        FontStretch::Condensed => 3,
        FontStretch::SemiCondensed => 4,
        FontStretch::Normal => 5,
        FontStretch::SemiExpanded => 6,
        FontStretch::Expanded => 7,
        FontStretch::ExtraExpanded => 8,
        FontStretch::UltraExpanded => 9,
    }
}

/// Stretch numbers name stretches one to one: every stretch has a number from
/// 1 to 9, and no other stretch has the same number; so the stretch built
/// from a stretch's number (`FontStretch::from`) is that stretch.
pub proof fn law_stretch_number_roundtrip(s: FontStretch)
    ensures
        1 <= stretch_number(s) <= 9,
        forall|t: FontStretch| stretch_number(t) == stretch_number(s) ==> t == s,
{
}

/// The decimal text of the hundreds `100 * d`, for a digit `d` from 1 to 9.
pub open spec fn hundreds_text(d: int) -> Seq<char> {
    seq!["123456789"@[d - 1], '0', '0']
}

/// A numeric weight from 100 to 700 is read as its own number, and the
/// weight keywords name the numbers CSS gives them (`lighter` 100, `normal`
/// 400, `bold` and `bolder` 700); every weight read is one of the hundreds
/// from 100 to 700, and `800` and `900` are not weight keywords.
pub proof fn law_weight_keyword_reads_its_number(d: int, s: Seq<char>)
    ensures
        1 <= d <= 7 ==> spec_font_weight_keyword(hundreds_text(d)) == Some((100 * d) as u32),
        8 <= d <= 9 ==> spec_font_weight_keyword(hundreds_text(d)) is None,
        spec_font_weight_keyword("lighter"@) == Some(100u32),
        spec_font_weight_keyword("normal"@) == Some(400u32),
        spec_font_weight_keyword("bold"@) == Some(700u32),
        spec_font_weight_keyword("bolder"@) == Some(700u32),
        spec_font_weight_keyword(s) matches Some(w) ==> (100 <= w <= 700 && w % 100 == 0),
{
    reveal_strlit("123456789");
    reveal_strlit("lighter");
    reveal_strlit("normal");
    reveal_strlit("bold");
    reveal_strlit("bolder");
    reveal_strlit("100");
    reveal_strlit("200");
    reveal_strlit("300");
    reveal_strlit("400");
    reveal_strlit("500");
    reveal_strlit("600");
    reveal_strlit("700");
    assert("normal"@ != "lighter"@ && "normal"@ != "100"@ && "normal"@ != "200"@ && "normal"@ != "300"@) by {
        assert("normal"@.len() != "lighter"@.len() && "normal"@.len() != "100"@.len());
    }
    assert("bold"@.len() == 4 && "bolder"@.len() == 6 && "normal"@.len() == 6 && "lighter"@.len() == 7);
    assert("100"@.len() == 3 && "200"@.len() == 3 && "300"@.len() == 3 && "400"@.len() == 3);
    assert("500"@.len() == 3 && "600"@.len() == 3);
    assert("bolder"@ != "normal"@) by {
        assert("bolder"@[0] != "normal"@[0]);
    }
    if 1 <= d <= 9 {
        let t = hundreds_text(d);
        assert(t.len() == 3);
        assert(t[0] == "123456789"@[d - 1]);
        assert(t != "lighter"@ && t != "normal"@ && t != "bold"@ && t != "bolder"@);
        let texts = seq!["100"@, "200"@, "300"@, "400"@, "500"@, "600"@, "700"@];
        assert forall|j: int| 0 <= j < 7 implies (#[trigger] texts[j] == t) == (j == d - 1) by {
            if j == d - 1 {
                assert(texts[j] =~= t);
            } else {
                assert(texts[j][0] != t[0]);
            }
        }
        assert(texts[0] == "100"@ && texts[1] == "200"@ && texts[2] == "300"@ && texts[3] == "400"@);
        assert(texts[4] == "500"@ && texts[5] == "600"@ && texts[6] == "700"@);
    }
}

} // verus!
