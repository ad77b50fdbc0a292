//! Choosing installed fonts for a font rule: each family name of the rule is
//! scored against the names of the installed fonts, by shared words and by
//! words that match the rule's style and weight.

use vstd::prelude::*;
use crate::font::FontStyle;
use crate::text::{chars_eq, chars_of, split_chars, split_seq, trim_chars, trim_seq};

verus! {

/// `str::to_lowercase`, as a function of the text alone.
pub uninterp spec fn lowercase_of(s: Seq<char>) -> Seq<char>;

/// `str::to_lowercase`: the text with every character mapped by Unicode's
/// lowercase mapping. Its result is named here, not spelled out.
#[verifier::external_body]
pub(crate) fn to_lowercase(s: &str) -> (res: String)
    ensures
        res@ == lowercase_of(s@),
{
    s.to_lowercase()
}

/// The text with every `-` replaced by a space.
pub open spec fn dashes_to_spaces(s: Seq<char>) -> Seq<char> {
    s.map_values(|c: char| if c == '-' { ' ' } else { c })
}

/// The words of a family name as it is looked up: lowercased, dashes made
/// spaces, split at each space.
pub open spec fn candidate_words(candidate: Seq<char>) -> Seq<Seq<char>> {
    split_seq(dashes_to_spaces(lowercase_of(candidate)), ' ')
}

/// The words of an installed font's name, split at each space.
pub open spec fn name_words(name: Seq<char>) -> Seq<Seq<char>> {
    split_seq(name, ' ')
}

/// How many of the candidate's words (counted with repetition) occur among
/// the name's words.
pub open spec fn shared_words(cand: Seq<Seq<char>>, words: Seq<Seq<char>>) -> nat
    decreases cand.len(),
{
    if cand.len() == 0 {
        0
    } else {
        shared_words(cand.drop_last(), words) + if words.contains(cand.last()) {
            1nat
        } else {
            0nat
        }
    }
}

/// The bonus of a font name for the rule's style and weight: one for `italic`
/// when the style is italic; for weights below 300, two for `extralight` or
/// else one for `light`; for 300 to 399, one for `extralight` or else two for
/// `light`; for 500 to 599, one for `medium`; for 600 to 699, two for
/// `semibold` or else one for `bold`; for 700 to 899, two for `bold`; from
/// 900 on, one for `black`.
pub open spec fn style_bonus(words: Seq<Seq<char>>, style: FontStyle, weight: u32) -> nat {
    let italic: nat = if style == FontStyle::Italic && words.contains("italic"@) {
        1
    } else {
        0
    };
    let w: nat = if weight < 300 {
        if words.contains("extralight"@) {
            2
        } else if words.contains("light"@) {
            1
        } else {
            0
        }
    } else if weight < 400 {
        if words.contains("extralight"@) {
            1
        } else if words.contains("light"@) {
            2
        } else {
            0
        }
    } else if weight < 500 {
        0
    } else if weight < 600 {
        if words.contains("medium"@) {
            1
        } else {
            0
        }
    } else if weight < 700 {
        if words.contains("semibold"@) {
            2
        } else if words.contains("bold"@) {
            1
        } else {
            0
        }
    } else if weight < 900 {
        if words.contains("bold"@) {
            2
        } else {
            0
        }
    } else {
        if words.contains("black"@) {
            1
        } else {
            0
        }
    };
    italic + w
}

/// The score of an installed font's name for a family candidate: zero when
/// they share no word, else the shared words plus the style bonus.
pub open spec fn font_score(cand: Seq<Seq<char>>, name: Seq<char>, style: FontStyle, weight: u32) -> nat {
    let words = name_words(name);
    let base = shared_words(cand, words);
    if base == 0 {
        0
    } else {
        base + style_bonus(words, style, weight)
    }
}

/// The index of the first name with the highest positive score, if any.
pub open spec fn best_index(scores: Seq<nat>) -> Option<int>
    decreases scores.len(),
{
    if scores.len() == 0 {
        None
    } else {
        let prev = best_index(scores.drop_last());
        let s = scores.last();
        if s == 0 {
            prev
        } else {
            match prev {
                None => Some(scores.len() - 1),
                Some(b) => if scores[b] < s {
                    Some(scores.len() - 1)
                } else {
                    prev
                },
            }
        }
    }
}

/// The scores of the installed font names for a candidate.
pub open spec fn name_scores(cand: Seq<Seq<char>>, names: Seq<String>, style: FontStyle, weight: u32) -> Seq<nat> {
    Seq::new(names.len(), |i: int| font_score(cand, names[i]@, style, weight))
}

/// Whether a list of words holds the given word.
fn words_contain(words: &Vec<Vec<char>>, w: &[char]) -> (res: bool)
    ensures
        res == words@.map_values(|x: Vec<char>| x@).contains(w@),
{
    let ghost wv = words@.map_values(|x: Vec<char>| x@);
    let mut i: usize = 0;
    while i < words.len()
        invariant
            i <= words.len(),
            wv == words@.map_values(|x: Vec<char>| x@),
            forall|j: int| 0 <= j < i ==> wv[j] != w@,
        decreases words.len() - i,
    {
        if chars_eq(words[i].as_slice(), w) {
            proof {
                assert(wv[i as int] == w@);
            }
            return true;
        }
        i += 1;
    }
    false
}

/// Whether a list of words holds the given literal word.
fn words_contain_str(words: &Vec<Vec<char>>, w: &str) -> (res: bool)
    ensures
        res == words@.map_values(|x: Vec<char>| x@).contains(w@),
{
    let c = chars_of(w);
    words_contain(words, c.as_slice())
}

/// The view of a list of words.
pub open spec fn words_view(v: Seq<Vec<char>>) -> Seq<Seq<char>> {
    v.map_values(|x: Vec<char>| x@)
}

/// The words of a font name.
fn split_words(name: &str) -> (res: Vec<Vec<char>>)
    ensures
        words_view(res@) == name_words(name@),
{
    let c = chars_of(name);
    let r = split_chars(c.as_slice(), ' ');
    proof {
        assert(words_view(r@) =~= name_words(name@));
    }
    r
}

/// The style bonus of a name's words.
fn bonus(words: &Vec<Vec<char>>, style: FontStyle, weight: u32) -> (res: u128)
    ensures
        res == style_bonus(words_view(words@), style, weight),
        res <= 3,
{
    let italic: u128 = if style == FontStyle::Italic && words_contain_str(words, "italic") {
        1
    } else {
        0
    };
    let w: u128 = if weight < 300 {
        if words_contain_str(words, "extralight") {
            2
        } else if words_contain_str(words, "light") {
            1
        } else {
            0
        }
    } else if weight < 400 {
        if words_contain_str(words, "extralight") {
            1
        } else if words_contain_str(words, "light") {
            2
        } else {
            0
        }
    } else if weight < 500 {
        0
    } else if weight < 600 {
        if words_contain_str(words, "medium") {
            1
        } else {
            0
        }
    } else if weight < 700 {
        if words_contain_str(words, "semibold") {
            2
        } else if words_contain_str(words, "bold") {
            1
        } else {
            0
        }
    } else if weight < 900 {
        if words_contain_str(words, "bold") {
            2
        } else {
            0
        }
    } else {
        if words_contain_str(words, "black") {
            1
        } else {
            0
        }
    };
    italic + w
}

/// The score of one installed font name for a candidate's words.
fn score_name(cand: &Vec<Vec<char>>, name: &str, style: FontStyle, weight: u32) -> (res: u128)
    ensures
        res == font_score(words_view(cand@), name@, style, weight),
{
    let words = split_words(name);
    let ghost cv = words_view(cand@);
    let ghost wv = words_view(words@);
    let mut base: u128 = 0;
    let mut i: usize = 0;
    while i < cand.len()
        invariant
            i <= cand.len(),
            cv == words_view(cand@),
            wv == words_view(words@),
            base == shared_words(cv.take(i as int), wv),
            base <= i,
        decreases cand.len() - i,
    {
        proof {
            assert(cv.take(i + 1).drop_last() =~= cv.take(i as int));
            assert(cv.take(i + 1).last() == cand@[i as int]@);
        }
        if words_contain(&words, cand[i].as_slice()) {
            base = base + 1;
        }
        i += 1;
    }
    proof {
        assert(cv.take(cand@.len() as int) =~= cv);
    }
    if base == 0 {
        0
    } else {
        base + bonus(&words, style, weight)
    }
}

/// The words of a family candidate as it is looked up.
fn candidate_words_of(candidate: &str) -> (res: Vec<Vec<char>>)
    ensures
        words_view(res@) == candidate_words(candidate@),
{
    let lower = to_lowercase(candidate);
    let c = chars_of(lower.as_str());
    let mut d: Vec<char> = Vec::new();
    let mut i: usize = 0;
    while i < c.len()
        invariant
            i <= c.len(),
            c@ == lower@,
            d@ == dashes_to_spaces(c@.take(i as int)),
        decreases c.len() - i,
    {
        let ch = c[i];
        d.push(if ch == '-' { ' ' } else { ch });
        proof {
            assert(dashes_to_spaces(c@.take(i + 1)) =~= dashes_to_spaces(c@.take(i as int)).push(
                if ch == '-' { ' ' } else { ch },
            ));
        }
        i += 1;
    }
    proof {
        assert(c@.take(c@.len() as int) =~= c@);
    }
    let r = split_chars(d.as_slice(), ' ');
    proof {
        assert(words_view(r@) =~= candidate_words(candidate@));
    }
    r
}

/// The installed font that best matches one family name of a rule: among the
/// fonts, in the given order, the first with the highest positive score; none
/// when no font name shares a word with the family name.
pub fn match_font_family(candidate: &str, names: &Vec<String>, style: FontStyle, weight: u32) -> (res: Option<usize>)
    ensures
        match res {
            Some(r) => best_index(name_scores(candidate_words(candidate@), names@, style, weight)) == Some(r as int),
            None => best_index(name_scores(candidate_words(candidate@), names@, style, weight)) is None,
        },
{
    let cand = candidate_words_of(candidate);
    let ghost cw = candidate_words(candidate@);
    let ghost scores = name_scores(cw, names@, style, weight);
    let mut best: Option<(u128, usize)> = None;
    let mut i: usize = 0;
    while i < names.len()
        invariant
            i <= names.len(),
            words_view(cand@) == cw,
            scores == name_scores(cw, names@, style, weight),
            match best_index(scores.take(i as int)) {
                Some(b) => best matches Some((s, bi)) && bi == b && s == scores[b] && b < i,
                None => best is None,
            },
        decreases names.len() - i,
    {
        proof {
            assert(scores.take(i + 1).drop_last() =~= scores.take(i as int));
            assert(scores.take(i + 1).last() == scores[i as int]);
        }
        let s = score_name(&cand, names[i].as_str(), style, weight);
        if s != 0 {
            match best {
                None => {
                    best = Some((s, i));
                },
                Some((bs, _)) => {
                    if bs < s {
                        best = Some((s, i));
                    }
                },
            }
        }
        i += 1;
    }
    proof {
        assert(scores.take(names@.len() as int) =~= scores);
    }
    match best {
        Some((_, b)) => Some(b),
        None => None,
    }
}

/// The family names of a rule's family list, split at commas and trimmed.
pub open spec fn family_candidates(family: Seq<char>) -> Seq<Seq<char>> {
    split_seq(family, ',').map_values(|p: Seq<char>| trim_seq(p))
}

/// The installed fonts for a rule's family list: for each family name, in
/// order, the best matching font, when there is one.
pub open spec fn spec_search_font(cands: Seq<Seq<char>>, names: Seq<String>, style: FontStyle, weight: u32) -> Seq<int>
    decreases cands.len(),
{
    if cands.len() == 0 {
        Seq::empty()
    } else {
        let prev = spec_search_font(cands.drop_last(), names, style, weight);
        match best_index(name_scores(candidate_words(cands.last()), names, style, weight)) {
            Some(b) => prev.push(b),
            None => prev,
        }
    }
}

/// Looks up the installed fonts for a rule's family list: the indices, into
/// `names`, of the best match of each family name in turn.
pub fn search_font(family: &str, names: &Vec<String>, style: FontStyle, weight: u32) -> (res: Vec<usize>)
    ensures
        res@.map_values(|x: usize| x as int) == spec_search_font(family_candidates(family@), names@, style, weight),
{
    let c = chars_of(family);
    let parts = split_chars(c.as_slice(), ',');
    let ghost cands = family_candidates(family@);
    let mut out: Vec<usize> = Vec::new();
    let mut i: usize = 0;
    while i < parts.len()
        invariant
            i <= parts.len(),
            cands == family_candidates(family@),
            parts@.len() == cands.len(),
            forall|j: int| 0 <= j < parts@.len() ==> #[trigger] parts@[j]@ == split_seq(family@, ',')[j],
            out@.map_values(|x: usize| x as int) == spec_search_font(cands.take(i as int), names@, style, weight),
        decreases parts.len() - i,
    {
        proof {
            assert(cands.take(i + 1).drop_last() =~= cands.take(i as int));
            assert(cands.take(i + 1).last() == trim_seq(parts@[i as int]@));
        }
        let t = trim_chars(parts[i].as_slice());
        let name = crate::text::string_from_chars(t.as_slice());
        proof {
            assert(name@ == cands[i as int]);
        }
        let ghost before = out@;
        proof {
            law_best_font_is_first_maximum(name_scores(candidate_words(name@), names@, style, weight));
        }
        match match_font_family(name.as_str(), names, style, weight) {
            Some(b) => {
                out.push(b);
                proof {
                    assert(best_index(name_scores(candidate_words(cands[i as int]), names@, style, weight)) == Some(b as int));
                    assert(spec_search_font(cands.take(i + 1), names@, style, weight) == spec_search_font(
                        cands.take(i as int),
                        names@,
                        style,
                        weight,
                    ).push(b as int));
                    assert(out@.map_values(|x: usize| x as int) =~= before.map_values(|x: usize| x as int).push(
                        b as int,
                    ));
                }
            },
            None => {
                proof {
                    assert(spec_search_font(cands.take(i + 1), names@, style, weight) == spec_search_font(
                        cands.take(i as int),
                        names@,
                        style,
                        weight,
                    ));
                }
            },
        }
        i += 1;
    }
    proof {
        assert(cands.take(parts@.len() as int) =~= cands);
    }
    out
}

/// The font chosen for a family name has the highest score of all, no font
/// before it scores as high, and its score is positive; no font is chosen
/// exactly when every font scores zero.
pub proof fn law_best_font_is_first_maximum(scores: Seq<nat>)
    ensures
        match best_index(scores) {
            Some(b) => {
                &&& 0 <= b < scores.len()
                &&& scores[b] > 0
                &&& forall|i: int| 0 <= i < scores.len() ==> scores[i] <= scores[b]
                &&& forall|i: int| 0 <= i < b ==> scores[i] < scores[b]
            },
            None => forall|i: int| 0 <= i < scores.len() ==> scores[i] == 0,
        },
    decreases scores.len(),
{
    if scores.len() > 0 {
        let d = scores.drop_last();
        law_best_font_is_first_maximum(d);
        assert forall|i: int| 0 <= i < d.len() implies d[i] == scores[i] by {}
    }
}

/// A word that no candidate word equals does not change the count of shared
/// words.
proof fn lemma_shared_words_other_word(cand: Seq<Seq<char>>, words: Seq<Seq<char>>, w: Seq<char>)
    requires
        !cand.contains(w),
    ensures
        shared_words(cand, words.push(w)) == shared_words(cand, words),
    decreases cand.len(),
{
    if cand.len() > 0 {
        let d = cand.drop_last();
        assert forall|x: Seq<char>| d.contains(x) implies cand.contains(x) by {
            let j = choose|j: int| 0 <= j < d.len() && d[j] == x;
            assert(cand[j] == x);
        }
        lemma_shared_words_other_word(d, words, w);
        let l = cand.last();
        assert(cand.contains(l) && l != w) by {
            assert(cand[cand.len() - 1] == l);
        }
        if words.push(w).contains(l) {
            let j = choose|j: int| 0 <= j < words.push(w).len() && words.push(w)[j] == l;
            assert(j < words.len());
            assert(words[j] == l);
        }
        if words.contains(l) {
            let j = choose|j: int| 0 <= j < words.len() && words[j] == l;
            assert(words.push(w)[j] == l);
        }
    }
}

/// The word `italic` earns exactly one point of style bonus, and only when
/// the style asked for is italic: adding it to the words of a name that lacks
/// it raises the bonus by one for an italic request and leaves it unchanged
/// for any other style, at every weight.
pub proof fn law_italic_word_bonus(words: Seq<Seq<char>>, style: FontStyle, weight: u32)
    requires
        !words.contains("italic"@),
    ensures
        style_bonus(words.push("italic"@), style, weight) == style_bonus(words, style, weight) + if style
            == FontStyle::Italic {
            1nat
        } else {
            0nat
        },
{
    reveal_strlit("italic");
    reveal_strlit("extralight");
    reveal_strlit("light");
    reveal_strlit("medium");
    reveal_strlit("semibold");
    reveal_strlit("bold");
    reveal_strlit("black");
    let ws = words.push("italic"@);
    assert(ws[words.len() as int] == "italic"@);
    assert(ws.contains("italic"@));
    assert forall|w: Seq<char>| w != "italic"@ implies ws.contains(w) == words.contains(w) by {
        if ws.contains(w) {
            let j = choose|j: int| 0 <= j < ws.len() && ws[j] == w;
            assert(j < words.len());
            assert(words[j] == w);
        }
        if words.contains(w) {
            let j = choose|j: int| 0 <= j < words.len() && words[j] == w;
            assert(ws[j] == w);
        }
    }
    assert("extralight"@ != "italic"@ && "light"@ != "italic"@ && "medium"@ != "italic"@) by {
        assert("extralight"@.len() != "italic"@.len());
        assert("light"@.len() != "italic"@.len());
        assert("medium"@[0] != "italic"@[0]);
    }
    assert("semibold"@ != "italic"@ && "bold"@ != "italic"@ && "black"@ != "italic"@) by {
        assert("bold"@.len() != "italic"@.len());
        assert("black"@[0] != "italic"@[0]);
        assert("semibold"@.len() != "italic"@.len());
    }
}

/// Among names with the same words, an italic request scores the one that
/// also has the word `italic` exactly one point higher (other styles score
/// them alike), when the family name itself has no word `italic` and shares
/// a word with them.
pub proof fn law_italic_name_scores_higher(
    cand: Seq<Seq<char>>,
    name: Seq<char>,
    italic_name: Seq<char>,
    style: FontStyle,
    weight: u32,
)
    requires
        name_words(italic_name) == name_words(name).push("italic"@),
        !name_words(name).contains("italic"@),
        !cand.contains("italic"@),
        shared_words(cand, name_words(name)) > 0,
    ensures
        font_score(cand, italic_name, style, weight) == font_score(cand, name, style, weight) + if style
            == FontStyle::Italic {
            1nat
        } else {
            0nat
        },
{
    lemma_shared_words_other_word(cand, name_words(name), "italic"@);
    law_italic_word_bonus(name_words(name), style, weight);
}

} // verus!
