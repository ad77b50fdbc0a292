//! Reading a CSS font shorthand rule (`bold italic 50px Arial, sans-serif`)
//! from the groups that the rule's regular expression captures, and reading a
//! font's full name from the name records of its font file.

use vstd::prelude::*;
use crate::font::{
    font_weight_keyword, normalize_font_family, spec_font_stretch, spec_font_style, spec_font_variant,
    spec_font_weight_keyword, spec_normalize_family, FontStretch, FontStyle, FontVariant, ParseError,
};
use crate::text::{chars_of, string_from_chars};
use crate::mds::opt_string_view;

verus! {

/// The regular expression of a font rule, in extended syntax: up to four of
/// style, variant, weight and stretch, then the size with its unit, then the
/// family list.
pub const FONT_RULE_PATTERN: &'static str = r#"(?x)
    (
      (italic|oblique|normal){0,1}\s+              |  # style
      (small-caps|normal){0,1}\s+                  |  # variant
      (bold|bolder|lighter|[1-9]00|normal){0,1}\s+ |  # weight
      (ultra-condensed|extra-condensed|condensed|semi-condensed|semi-expanded|expanded|extra-expanded|ultra-expanded|[\d\.]+%){0,1}\s+ # stretch
    ){0,4}
    (
      ([\d\.]+)                                       # size
      (%|px|pt|pc|in|cm|mm|%|em|ex|ch|rem|q)?\s*      # unit
    )
    ((?:'([^']+)'|"([^"]+)"|[\w\s-]+)(\s*,\s*(?:'([^']+)'|"([^"]+)"|[\w\s-]+))*)?
  "#;

/// Whether `Regex::new` accepts a pattern.
pub uninterp spec fn regex_compiles(pattern: Seq<char>) -> bool;

/// What `Regex::captures` gives for a pattern and a text: for a match, the
/// text of each group of the first match (group 0 the whole match) that took
/// part in it.
pub uninterp spec fn regex_captures_of(pattern: Seq<char>, text: Seq<char>) -> Option<Seq<Option<Seq<char>>>>;

/// The groups of a match as texts.
pub open spec fn captures_view(v: Vec<Option<String>>) -> Seq<Option<Seq<char>>> {
    v@.map_values(|o: Option<String>| opt_string_view(o))
}

/// `Regex::new` on `pattern`, then `Regex::captures` on `text`: `None` when
/// the pattern does not compile, else the groups of the first match, if any,
/// as the two names give them.
#[verifier::external_body]
fn regex_captures(pattern: &str, text: &str) -> (res: Option<Option<Vec<Option<String>>>>)
    ensures
        res is Some <==> regex_compiles(pattern@),
        res matches Some(r) ==> match regex_captures_of(pattern@, text@) {
            None => r is None,
            Some(c) => r matches Some(v) && captures_view(v) == c,
        },
{
    match regex::Regex::new(pattern) {
        Ok(re) => Some(re.captures(text).map(|caps| caps.iter().map(|m| m.map(|m| m.as_str().to_string())).collect())),
        Err(_) => None,
    }
}

/// The weight of a rule: the weight a keyword names, or text for the caller
/// to read as a number.
#[derive(Debug, Clone, PartialEq, Eq)]
pub enum WeightChoice {
    Known(u32),
    Number(String),
}

/// The parts of a font rule, its size still as text: the caller reads the
/// number and scales it by the unit.
#[derive(Debug, Clone)]
pub struct FontRule {
    pub style: FontStyle,
    pub variant: FontVariant,
    pub weight: WeightChoice,
    pub stretch: FontStretch,
    pub family: String,
    /// The size's number, with a `%` when the size is a percentage.
    pub size_text: String,
    /// The size's unit; `px` when the rule gives none.
    pub unit: String,
}

/// The style of a rule: the keyword's style, normal when it names none.
pub open spec fn rule_style(c: Option<Seq<char>>) -> FontStyle {
    match c {
        Some(t) => match spec_font_style(t) {
            Some(s) => s,
            None => FontStyle::Normal,
        },
        None => FontStyle::Normal,
    }
}

/// The variant of a rule: the keyword's variant, normal when it names none.
pub open spec fn rule_variant(c: Option<Seq<char>>) -> FontVariant {
    match c {
        Some(t) => match spec_font_variant(t) {
            Some(v) => v,
            None => FontVariant::Normal,
        },
        None => FontVariant::Normal,
    }
}

/// The stretch of a rule: read from group 5 when group 6 took part, normal
/// when it names none.
pub open spec fn rule_stretch(c5: Option<Seq<char>>, c6: Option<Seq<char>>) -> FontStretch {
    if c6 is None {
        FontStretch::Normal
    } else {
        match c5 {
            Some(t) => match spec_font_stretch(t) {
                Some(s) => s,
                None => FontStretch::Normal,
            },
            None => FontStretch::Normal,
        }
    }
}

/// Whether a weight choice is what group 4 gives: 400 when absent, the
/// keyword's weight, or the text to read as a number.
pub open spec fn rule_weight(c: Option<Seq<char>>, w: WeightChoice) -> bool {
    match c {
        None => w == WeightChoice::Known(400),
        Some(t) => match spec_font_weight_keyword(t) {
            Some(k) => w == WeightChoice::Known(k),
            None => w matches WeightChoice::Number(n) && n@ == t,
        },
    }
}

/// Whether `r` is the rule that the captured groups `c` describe.
pub open spec fn spec_font_rule(c: Seq<Option<Seq<char>>>, r: FontRule) -> bool {
    &&& r.style == rule_style(c[2])
    &&& r.variant == rule_variant(c[3])
    &&& rule_weight(c[4], r.weight)
    &&& r.stretch == rule_stretch(c[5], c[6])
    &&& r.family@ == spec_normalize_family(
        match c[9] {
            Some(f) => f,
            None => "sans-serif"@,
        },
    )
    &&& r.size_text@ == match c[7] {
        Some(s) => s,
        None => c[5]->0,
    }
    &&& r.unit@ == match c[8] {
        Some(u) => u,
        None => "px"@,
    }
}

/// Whether the groups of a match are those of the font rule expression, with
/// a size: fifteen entries, and group 7 or group 5 present.
pub open spec fn font_rule_groups_fit(c: Seq<Option<Seq<char>>>) -> bool {
    &&& c.len() == 15
    &&& (c[7] is Some || c[5] is Some)
}

/// The rule that the captured groups describe (group 7, else group 5, is the
/// size; group 9 the family list, `sans-serif` when absent).
pub fn font_rule_from_captures(caps: &Vec<Option<String>>) -> (res: FontRule)
    requires
        font_rule_groups_fit(captures_view(*caps)),
    ensures
        spec_font_rule(captures_view(*caps), res),
{
    let ghost cv = captures_view(*caps);
    proof {
        assert(cv[7] == opt_string_view(caps@[7]));
        assert(cv[5] == opt_string_view(caps@[5]));
    }
    let style = match &caps[2] {
        Some(t) => match FontStyle::from_str(t.as_str()) {
            Ok(s) => s,
            Err(_) => FontStyle::Normal,
        },
        None => FontStyle::Normal,
    };
    let variant = match &caps[3] {
        Some(t) => match FontVariant::from_str(t.as_str()) {
            Ok(v) => v,
            Err(_) => FontVariant::Normal,
        },
        None => FontVariant::Normal,
    };
    let weight = match &caps[4] {
        Some(t) => match font_weight_keyword(t.as_str()) {
            Some(k) => WeightChoice::Known(k),
            None => WeightChoice::Number(string_from_chars(chars_of(t.as_str()).as_slice())),
        },
        None => WeightChoice::Known(400),
    };
    let stretch = if caps[6].is_none() {
        FontStretch::Normal
    } else {
        match &caps[5] {
            Some(t) => match crate::font::parse_font_stretch(t.as_str()) {
                Some(s) => s,
                None => FontStretch::Normal,
            },
            None => FontStretch::Normal,
        }
    };
    let family = match &caps[9] {
        Some(f) => normalize_font_family(f.as_str()),
        None => normalize_font_family("sans-serif"),
    };
    let size_text = match &caps[7] {
        Some(s) => string_from_chars(chars_of(s.as_str()).as_slice()),
        None => match &caps[5] {
            Some(s) => string_from_chars(chars_of(s.as_str()).as_slice()),
            None => String::new(),
        },
    };
    let unit = match &caps[8] {
        Some(u) => string_from_chars(chars_of(u.as_str()).as_slice()),
        None => string_from_chars(chars_of("px").as_slice()),
    };
    proof {
        assert(cv[2] == opt_string_view(caps@[2]));
    }
    FontRule { style, variant, weight, stretch, family, size_text, unit }
}

/// What reading `rule` gives: the rule that the expression's groups describe
/// when the expression compiles, matches `rule` and its groups fit;
/// `InvalidFontStyle` with the rule's text otherwise.
pub open spec fn spec_parse_font_rule(rule: Seq<char>, res: Result<FontRule, ParseError>) -> bool {
    let refused = res matches Err(ParseError::InvalidFontStyle(t)) && t@ == rule;
    if !regex_compiles(FONT_RULE_PATTERN@) {
        refused
    } else {
        match regex_captures_of(FONT_RULE_PATTERN@, rule) {
            Some(c) => if font_rule_groups_fit(c) {
                res matches Ok(r) && spec_font_rule(c, r)
            } else {
                refused
            },
            None => refused,
        }
    }
}

/// Reads a font rule with the font rule expression: the rule its groups
/// describe, or `InvalidFontStyle` with the rule's text where the expression
/// does not match it (or does not give a size).
pub fn parse_font_rule(rule: &str) -> (res: Result<FontRule, ParseError>)
    ensures
        spec_parse_font_rule(rule@, res),
{
    match regex_captures(FONT_RULE_PATTERN, rule) {
        Some(Some(caps)) => {
            if caps.len() == 15 && (caps[7].is_some() || caps[5].is_some()) {
                proof {
                    assert(captures_view(caps)[7] == opt_string_view(caps@[7]));
                    assert(captures_view(caps)[5] == opt_string_view(caps@[5]));
                }
                Ok(font_rule_from_captures(&caps))
            } else {
                proof {
                    if caps@.len() == 15 {
                        assert(captures_view(caps)[7] == opt_string_view(caps@[7]));
                        assert(captures_view(caps)[5] == opt_string_view(caps@[5]));
                    }
                }
                Err(ParseError::InvalidFontStyle(string_from_chars(chars_of(rule).as_slice())))
            }
        },
        _ => Err(ParseError::InvalidFontStyle(string_from_chars(chars_of(rule).as_slice()))),
    }
}

/// A record of a font file's name table, by the fields the name is read from.
#[derive(Debug, Clone)]
pub struct FaceNameRecord {
    pub name_id: u16,
    pub is_unicode: bool,
    pub name: Vec<u8>,
}

/// `String::from_utf16`: the text that UTF-16 code units spell, if they are
/// well formed.
pub uninterp spec fn utf16_decoded(units: Seq<u16>) -> Option<Seq<char>>;

/// `String::from_utf16`: the decoded text, named; an error exactly when the
/// name gives none.
#[verifier::external_body]
fn from_utf16(units: &[u16]) -> (res: Option<String>)
    ensures
        match utf16_decoded(units@) {
            Some(t) => res matches Some(s) && s@ == t,
            None => res is None,
        },
{
    String::from_utf16(units).ok()
}

/// Big-endian 16-bit units of bytes of even length.
pub open spec fn be_units(b: Seq<u8>) -> Seq<u16> {
    Seq::new(b.len() / 2, |i: int| (b[2 * i] as int * 256 + b[2 * i + 1] as int) as u16)
}

/// Whether a record holds a full font name (name 4, Unicode, an even number
/// of bytes) that decodes.
pub open spec fn record_name(r: FaceNameRecord) -> Option<Seq<char>> {
    if r.name_id == 4 && r.is_unicode && r.name@.len() % 2 == 0 {
        utf16_decoded(be_units(r.name@))
    } else {
        None
    }
}

/// The first full font name among records.
pub open spec fn first_face_name(records: Seq<FaceNameRecord>) -> Option<Seq<char>>
    decreases records.len(),
{
    if records.len() == 0 {
        None
    } else {
        match first_face_name(records.drop_last()) {
            Some(n) => Some(n),
            None => record_name(records.last()),
        }
    }
}

/// The full name of a font: the first name record with name 4, in a Unicode
/// encoding and of even length, whose big-endian UTF-16 text decodes.
pub fn get_face_name(records: &Vec<FaceNameRecord>) -> (res: Option<String>)
    ensures
        match first_face_name(records@) {
            Some(n) => res matches Some(s) && s@ == n,
            None => res is None,
        },
{
    let mut i: usize = 0;
    while i < records.len()
        invariant
            i <= records.len(),
            first_face_name(records@.take(i as int)) is None,
        decreases records.len() - i,
    {
        proof {
            assert(records@.take(i + 1).drop_last() =~= records@.take(i as int));
        }
        let r = &records[i];
        if r.name_id == 4 && r.is_unicode && r.name.len() % 2 == 0 {
            let len = r.name.len();
            let n = len / 2;
            let mut units: Vec<u16> = Vec::new();
            let mut k: usize = 0;
            while k < n
                invariant
                    k <= n,
                    len == r.name@.len(),
                    n == r.name@.len() / 2,
                    units@ == be_units(r.name@).take(k as int),
                decreases n - k,
            {
                proof {
                    assert(2 * k + 1 < len) by (nonlinear_arith)
                        requires
                            k < n,
                            n == len / 2,
                    ;
                }
                let hi = r.name[2 * k] as u16;
                let lo = r.name[2 * k + 1] as u16;
                units.push(hi * 256 + lo);
                proof {
                    assert(be_units(r.name@).take(k + 1) =~= be_units(r.name@).take(k as int).push(
                        (r.name@[2 * k] as int * 256 + r.name@[2 * k + 1] as int) as u16,
                    ));
                }
                k += 1;
            }
            proof {
                assert(be_units(r.name@).take(n as int) =~= be_units(r.name@));
            }
            match from_utf16(units.as_slice()) {
                Some(s) => {
                    proof {
                        lemma_first_face_name_found(records@, i as int);
                    }
                    return Some(s);
                },
                None => {},
            }
        }
        i += 1;
    }
    proof {
        assert(records@.take(records@.len() as int) =~= records@);
    }
    None
}

proof fn lemma_first_face_name_found(records: Seq<FaceNameRecord>, i: int)
    requires
        0 <= i < records.len(),
        first_face_name(records.take(i)) is None,
        record_name(records[i]) is Some,
    ensures
        first_face_name(records) == record_name(records[i]),
    decreases records.len(),
{
    assert(records.take(i + 1).drop_last() =~= records.take(i));
    if i + 1 == records.len() {
        assert(records.take(i + 1) =~= records);
    } else {
        assert(records.drop_last().take(i) =~= records.take(i));
        lemma_first_face_name_found(records.drop_last(), i);
    }
}

} // verus!
