//! Sequence and string helpers shared by the parsers of this crate: splitting,
//! joining, trimming and comparing, each with a specification over `Seq`.

use vstd::prelude::*;

verus! {

broadcast use vstd::string::group_string_axioms;

/// The pieces of `s` between occurrences of `sep`, as `str::split` yields them:
/// there is always at least one piece, and empty pieces are kept.
pub open spec fn split_seq<A>(s: Seq<A>, sep: A) -> Seq<Seq<A>>
    decreases s.len(),
{
    if s.len() == 0 {
        seq![Seq::<A>::empty()]
    } else {
        let init = split_seq(s.drop_last(), sep);
        if s.last() == sep {
            init.push(Seq::<A>::empty())
        } else {
            init.update(init.len() - 1, init.last().push(s.last()))
        }
    }
}

/// The pieces of `parts` joined with `sep` between neighbours, as `join` does.
pub open spec fn join_seq<A>(parts: Seq<Seq<A>>, sep: A) -> Seq<A>
    decreases parts.len(),
{
    if parts.len() == 0 {
        Seq::<A>::empty()
    } else if parts.len() == 1 {
        parts[0]
    } else {
        join_seq(parts.drop_last(), sep).push(sep) + parts.last()
    }
}

/// `char::is_whitespace`: the characters of Unicode's White_Space property.
pub open spec fn is_white_space(c: char) -> bool {
    ||| c == '\t' || c == '\n' || c == '\u{0B}' || c == '\u{0C}' || c == '\r' || c == ' '
    ||| c == '\u{85}' || c == '\u{A0}' || c == '\u{1680}'
    ||| ('\u{2000}' <= c && c <= '\u{200A}')
    ||| c == '\u{2028}' || c == '\u{2029}' || c == '\u{202F}' || c == '\u{205F}'
    ||| c == '\u{3000}'
}

/// Number of leading white-space characters of `s`.
pub open spec fn leading_ws(s: Seq<char>) -> nat
    decreases s.len(),
{
    if s.len() > 0 && is_white_space(s[0]) {
        1 + leading_ws(s.drop_first())
    } else {
        0
    }
}

/// Number of trailing white-space characters of `s`.
pub open spec fn trailing_ws(s: Seq<char>) -> nat
    decreases s.len(),
{
    if s.len() > 0 && is_white_space(s.last()) {
        1 + trailing_ws(s.drop_last())
    } else {
        0
    }
}

/// `str::trim`: `s` without its leading and trailing white space.
pub open spec fn trim_seq(s: Seq<char>) -> Seq<char> {
    let t = s.skip(leading_ws(s) as int);
    t.take(t.len() - trailing_ws(t))
}

/// Appends one character to a string.
#[verifier::external_body]
pub(crate) fn push_char(s: &mut String, c: char)
    ensures
        final(s)@ == old(s)@.push(c),
{
    s.push(c);
}

/// The characters of a string slice, in order.
pub fn chars_of(s: &str) -> (res: Vec<char>)
    ensures
        res@ == s@,
{
    let mut out: Vec<char> = Vec::new();
    for c in it: s.chars()
        invariant
            out@ == it.seq().take(it.index() as int),
            it.seq() == s@,
    {
        out.push(c);
    }
    out
}

/// A string made of the given characters.
pub fn string_from_chars(v: &[char]) -> (res: String)
    ensures
        res@ == v@,
{
    let mut s = String::new();
    let mut i: usize = 0;
    while i < v.len()
        invariant
            i <= v.len(),
            s@ == v@.take(i as int),
        decreases v.len() - i,
    {
        push_char(&mut s, v[i]);
        assert(v@.take(i + 1) == v@.take(i as int).push(v@[i as int]));
        i += 1;
    }
    assert(v@.take(v.len() as int) == v@);
    s
}

/// Whether two character vectors are equal.
pub fn chars_eq(a: &[char], b: &[char]) -> (res: bool)
    ensures
        res == (a@ == b@),
{
    if a.len() != b.len() {
        return false;
    }
    let mut i: usize = 0;
    while i < a.len()
        invariant
            a.len() == b.len(),
            i <= a.len(),
            forall|j: int| 0 <= j < i ==> a@[j] == b@[j],
        decreases a.len() - i,
    {
        if a[i] != b[i] {
            return false;
        }
        i += 1;
    }
    assert(a@ =~= b@);
    true
}

/// Whether the characters `a` spell the string `b`.
pub fn chars_eq_str(a: &[char], b: &str) -> (res: bool)
    ensures
        res == (a@ == b@),
{
    let bv = chars_of(b);
    chars_eq(a, bv.as_slice())
}

/// Whether two string slices are equal.
pub fn str_eq(a: &str, b: &str) -> (res: bool)
    ensures
        res == (a@ == b@),
{
    let av = chars_of(a);
    chars_eq_str(av.as_slice(), b)
}

/// `str::split` on characters.
pub fn split_chars(s: &[char], sep: char) -> (res: Vec<Vec<char>>)
    ensures
        res@.len() == split_seq(s@, sep).len(),
        forall|i: int| 0 <= i < res@.len() ==> #[trigger] res@[i]@ == split_seq(s@, sep)[i],
{
    let mut out: Vec<Vec<char>> = Vec::new();
    let mut cur: Vec<char> = Vec::new();
    let mut i: usize = 0;
    while i < s.len()
        invariant
            i <= s.len(),
            out@.len() + 1 == split_seq(s@.take(i as int), sep).len(),
            forall|j: int| 0 <= j < out@.len() ==> #[trigger] out@[j]@ == split_seq(s@.take(i as int), sep)[j],
            cur@ == split_seq(s@.take(i as int), sep).last(),
        decreases s.len() - i,
    {
        assert(s@.take(i + 1).drop_last() == s@.take(i as int));
        if s[i] == sep {
            out.push(cur);
            cur = Vec::new();
        } else {
            cur.push(s[i]);
        }
        i += 1;
    }
    assert(s@.take(s.len() as int) == s@);
    out.push(cur);
    out
}

/// `str::split` on bytes.
pub fn split_bytes(s: &[u8], sep: u8) -> (res: Vec<Vec<u8>>)
    ensures
        res@.len() == split_seq(s@, sep).len(),
        forall|i: int| 0 <= i < res@.len() ==> #[trigger] res@[i]@ == split_seq(s@, sep)[i],
{
    let mut out: Vec<Vec<u8>> = Vec::new();
    let mut cur: Vec<u8> = Vec::new();
    let mut i: usize = 0;
    while i < s.len()
        invariant
            i <= s.len(),
            out@.len() + 1 == split_seq(s@.take(i as int), sep).len(),
            forall|j: int| 0 <= j < out@.len() ==> #[trigger] out@[j]@ == split_seq(s@.take(i as int), sep)[j],
            cur@ == split_seq(s@.take(i as int), sep).last(),
        decreases s.len() - i,
    {
        assert(s@.take(i + 1).drop_last() == s@.take(i as int));
        if s[i] == sep {
            out.push(cur);
            cur = Vec::new();
        } else {
            cur.push(s[i]);
        }
        i += 1;
    }
    assert(s@.take(s.len() as int) == s@);
    out.push(cur);
    out
}

/// `char::is_whitespace`.
pub fn is_whitespace(c: char) -> (res: bool)
    ensures
        res == is_white_space(c),
{
    c == '\t' || c == '\n' || c == '\u{0B}' || c == '\u{0C}' || c == '\r' || c == ' '
        || c == '\u{85}' || c == '\u{A0}' || c == '\u{1680}' || ('\u{2000}' <= c && c
        <= '\u{200A}') || c == '\u{2028}' || c == '\u{2029}' || c == '\u{202F}' || c
        == '\u{205F}' || c == '\u{3000}'
}

proof fn lemma_leading_ws_bound(s: Seq<char>)
    ensures
        leading_ws(s) <= s.len(),
        forall|j: int| 0 <= j < leading_ws(s) ==> is_white_space(#[trigger] s[j]),
        leading_ws(s) < s.len() ==> !is_white_space(s[leading_ws(s) as int]),
    decreases s.len(),
{
    if s.len() > 0 && is_white_space(s[0]) {
        lemma_leading_ws_bound(s.drop_first());
        assert forall|j: int| 0 <= j < leading_ws(s) implies is_white_space(#[trigger] s[j]) by {
            if j > 0 {
                assert(s[j] == s.drop_first()[j - 1]);
            }
        }
    }
}

proof fn lemma_leading_ws_from(s: Seq<char>, i: int)
    requires
        0 <= i <= s.len(),
        forall|j: int| 0 <= j < i ==> is_white_space(#[trigger] s[j]),
        i == s.len() || !is_white_space(s[i]),
    ensures
        leading_ws(s) == i,
    decreases i,
{
    if i > 0 {
        assert forall|j: int| 0 <= j < i - 1 implies is_white_space(#[trigger] s.drop_first()[j]) by {
            assert(s.drop_first()[j] == s[j + 1]);
        }
        if i - 1 < s.drop_first().len() {
            assert(s.drop_first()[i - 1] == s[i]);
        }
        lemma_leading_ws_from(s.drop_first(), i - 1);
    }
}

proof fn lemma_trailing_ws_from(s: Seq<char>, k: int)
    requires
        0 <= k <= s.len(),
        forall|j: int| s.len() - k <= j < s.len() ==> is_white_space(#[trigger] s[j]),
        k == s.len() || !is_white_space(s[s.len() - k - 1]),
    ensures
        trailing_ws(s) == k,
    decreases k,
{
    if k > 0 {
        let d = s.drop_last();
        assert forall|j: int| d.len() - (k - 1) <= j < d.len() implies is_white_space(#[trigger] d[j]) by {
            assert(d[j] == s[j]);
        }
        if k - 1 < d.len() {
            assert(d[d.len() - (k - 1) - 1] == s[s.len() - k - 1]);
        }
        lemma_trailing_ws_from(d, k - 1);
    }
}

/// `str::trim` on characters.
pub fn trim_chars(s: &[char]) -> (res: Vec<char>)
    ensures
        res@ == trim_seq(s@),
{
    let mut start: usize = 0;
    while start < s.len() && is_whitespace(s[start])
        invariant
            start <= s.len(),
            forall|j: int| 0 <= j < start ==> is_white_space(#[trigger] s@[j]),
        decreases s.len() - start,
    {
        start += 1;
    }
    proof {
        lemma_leading_ws_from(s@, start as int);
    }
    let ghost t = s@.skip(start as int);
    let mut end: usize = s.len();
    while end > start && is_whitespace(s[end - 1])
        invariant
            start <= end <= s.len(),
            t == s@.skip(start as int),
            forall|j: int| end <= j < s.len() ==> is_white_space(#[trigger] s@[j]),
        decreases end,
    {
        end -= 1;
    }
    proof {
        let k = s.len() - end;
        assert forall|j: int| t.len() - k <= j < t.len() implies is_white_space(#[trigger] t[j]) by {
            assert(t[j] == s@[j + start]);
        }
        if k < t.len() {
            assert(t[t.len() - k - 1] == s@[end - 1]);
        }
        lemma_trailing_ws_from(t, k as int);
    }
    let mut out: Vec<char> = Vec::new();
    let mut i: usize = start;
    while i < end
        invariant
            start <= i <= end <= s.len(),
            out@ == s@.subrange(start as int, i as int),
        decreases end - i,
    {
        out.push(s[i]);
        assert(s@.subrange(start as int, i + 1) == s@.subrange(start as int, i as int).push(s@[i as int]));
        i += 1;
    }
    assert(out@ =~= t.take(t.len() - trailing_ws(t)));
    out
}

/// `join` on character sequences.
pub fn join_chars(parts: &Vec<Vec<char>>, sep: char) -> (res: Vec<char>)
    ensures
        res@ == join_seq(parts@.map_values(|p: Vec<char>| p@), sep),
{
    let ghost pv = parts@.map_values(|p: Vec<char>| p@);
    let mut out: Vec<char> = Vec::new();
    let mut i: usize = 0;
    while i < parts.len()
        invariant
            i <= parts.len(),
            pv == parts@.map_values(|p: Vec<char>| p@),
            out@ == join_seq(pv.take(i as int), sep),
        decreases parts.len() - i,
    {
        assert(pv.take(i + 1).drop_last() == pv.take(i as int));
        if i > 0 {
            out.push(sep);
        }
        let ghost before = out@;
        let p = &parts[i];
        let mut j: usize = 0;
        while j < p.len()
            invariant
                j <= p.len(),
                out@ == before + p@.take(j as int),
            decreases p.len() - j,
        {
            out.push(p[j]);
            assert(p@.take(j + 1) == p@.take(j as int).push(p@[j as int]));
            j += 1;
        }
        assert(p@.take(p.len() as int) == p@);
        assert(pv.take(i + 1).last() == p@);
        if i == 0 {
            assert(out@ =~= pv.take(1)[0]);
        }
        i += 1;
    }
    assert(pv.take(parts.len() as int) == pv);
    out
}

/// A split has at least one piece.
pub proof fn lemma_split_nonempty<A>(s: Seq<A>, sep: A)
    ensures
        split_seq(s, sep).len() >= 1,
    decreases s.len(),
{
    if s.len() > 0 {
        lemma_split_nonempty(s.drop_last(), sep);
    }
}

/// Splitting a sequence that starts with the separator.
pub proof fn lemma_split_sep_front<A>(b: Seq<A>, sep: A)
    ensures
        split_seq(seq![sep] + b, sep) =~= seq![Seq::<A>::empty()] + split_seq(b, sep),
    decreases b.len(),
{
    lemma_split_nonempty(b, sep);
    let ab = seq![sep] + b;
    if b.len() == 0 {
        assert(ab =~= seq![sep]);
        assert(ab.drop_last() =~= Seq::<A>::empty());
        assert(ab.last() == sep);
        assert(split_seq(ab, sep) == split_seq(ab.drop_last(), sep).push(Seq::<A>::empty()));
    } else {
        assert(ab.drop_last() =~= seq![sep] + b.drop_last());
        lemma_split_sep_front(b.drop_last(), sep);
        lemma_split_nonempty(b.drop_last(), sep);
        assert(ab.last() == b.last());
        let y = split_seq(b.drop_last(), sep);
        let z = seq![Seq::<A>::empty()] + y;
        if b.last() == sep {
            assert(split_seq(ab, sep) == z.push(Seq::<A>::empty()));
            assert(z.push(Seq::<A>::empty()) =~= seq![Seq::<A>::empty()] + y.push(Seq::<A>::empty()));
        } else {
            assert(split_seq(ab, sep) == z.update(z.len() - 1, z.last().push(b.last())));
            assert(z.update(z.len() - 1, z.last().push(b.last())) =~= seq![Seq::<A>::empty()] + y.update(y.len() - 1, y.last().push(b.last())));
        }
    }
}

/// Splitting a sequence that starts with a piece free of the separator.
pub proof fn lemma_split_plain_front<A>(a: Seq<A>, b: Seq<A>, sep: A)
    requires
        forall|i: int| 0 <= i < a.len() ==> a[i] != sep,
    ensures
        split_seq(a + b, sep) =~= split_seq(b, sep).update(0, a + split_seq(b, sep)[0]),
    decreases a.len() + b.len(),
{
    lemma_split_nonempty(b, sep);
    if b.len() == 0 {
        assert(a + b =~= a);
        if a.len() > 0 {
            lemma_split_plain_front(a.drop_last(), b, sep);
            assert(a.drop_last() + b =~= a.drop_last());
            assert((a + b).drop_last() =~= a.drop_last());
            assert(split_seq(a.drop_last(), sep)[0] =~= a.drop_last());
            assert(a.drop_last().push(a.last()) =~= a);
        }
    } else {
        let ab = a + b;
        assert(ab.drop_last() =~= a + b.drop_last());
        lemma_split_plain_front(a, b.drop_last(), sep);
        lemma_split_nonempty(b.drop_last(), sep);
        assert(ab.last() == b.last());
        let y = split_seq(b.drop_last(), sep);
        if b.last() != sep && y.len() == 1 {
            assert((a + y[0]).push(b.last()) =~= a + y[0].push(b.last()));
        }
    }
}

/// Joining the pieces of a split gives back the whole.
pub proof fn lemma_join_split<A>(s: Seq<A>, sep: A)
    ensures
        join_seq(split_seq(s, sep), sep) == s,
    decreases s.len(),
{
    if s.len() > 0 {
        let x = split_seq(s.drop_last(), sep);
        lemma_join_split(s.drop_last(), sep);
        lemma_split_nonempty(s.drop_last(), sep);
        if s.last() == sep {
            let y = x.push(Seq::<A>::empty());
            assert(y.drop_last() =~= x);
            assert(join_seq(y, sep) =~= s);
        } else {
            let y = x.update(x.len() - 1, x.last().push(s.last()));
            if x.len() == 1 {
                assert(join_seq(y, sep) =~= s);
            } else {
                assert(y.drop_last() =~= x.drop_last());
                assert(y.last() == x.last().push(s.last()));
                assert(join_seq(x, sep) == join_seq(x.drop_last(), sep).push(sep) + x.last());
                assert(join_seq(y, sep) == join_seq(x.drop_last(), sep).push(sep) + x.last().push(s.last()));
                assert(s =~= s.drop_last().push(s.last()));
                assert(join_seq(y, sep) =~= s);
            }
        }
    }
}

/// The position of the first `c` in `s`, if any.
pub open spec fn first_index_of_char(s: Seq<char>, c: char) -> Option<nat>
    decreases s.len(),
{
    if s.len() == 0 {
        None
    } else if s[0] == c {
        Some(0)
    } else {
        match first_index_of_char(s.drop_first(), c) {
            Some(i) => Some(i + 1),
            None => None,
        }
    }
}

/// `str::split_once`: the parts before and after the first `c`.
pub open spec fn split_once_seq(s: Seq<char>, c: char) -> Option<(Seq<char>, Seq<char>)> {
    match first_index_of_char(s, c) {
        Some(i) => Some((s.take(i as int), s.skip(i as int + 1))),
        None => None,
    }
}

proof fn lemma_first_index_of_char(s: Seq<char>, c: char, j: int)
    requires
        0 <= j <= s.len(),
        forall|q: int| 0 <= q < j ==> s[q] != c,
        j == s.len() || s[j] == c,
    ensures
        first_index_of_char(s, c) == if j == s.len() {
            None::<nat>
        } else {
            Some(j as nat)
        },
    decreases j,
{
    if j > 0 {
        assert forall|q: int| 0 <= q < j - 1 implies s.drop_first()[q] != c by {
            assert(s.drop_first()[q] == s[q + 1]);
        }
        if j < s.len() {
            assert(s.drop_first()[j - 1] == s[j]);
        }
        lemma_first_index_of_char(s.drop_first(), c, j - 1);
    }
}

/// `str::split_once` on characters.
pub fn split_once_chars(s: &[char], c: char) -> (res: Option<(Vec<char>, Vec<char>)>)
    ensures
        match split_once_seq(s@, c) {
            Some((a, b)) => res matches Some(r) && r.0@ == a && r.1@ == b,
            None => res is None,
        },
{
    let mut j: usize = 0;
    while j < s.len() && s[j] != c
        invariant
            j <= s.len(),
            forall|q: int| 0 <= q < j ==> s@[q] != c,
        decreases s.len() - j,
    {
        j += 1;
    }
    proof {
        lemma_first_index_of_char(s@, c, j as int);
    }
    if j == s.len() {
        return None;
    }
    let mut a: Vec<char> = Vec::new();
    let mut k: usize = 0;
    while k < j
        invariant
            j < s.len(),
            k <= j,
            a@ == s@.take(k as int),
        decreases j - k,
    {
        a.push(s[k]);
        assert(s@.take(k + 1) == s@.take(k as int).push(s@[k as int]));
        k += 1;
    }
    let mut b: Vec<char> = Vec::new();
    let mut k: usize = j + 1;
    while k < s.len()
        invariant
            j < s.len(),
            j + 1 <= k <= s.len(),
            b@ == s@.subrange(j + 1, k as int),
        decreases s.len() - k,
    {
        b.push(s[k]);
        assert(s@.subrange(j + 1, k + 1) == s@.subrange(j + 1, k as int).push(s@[k as int]));
        k += 1;
    }
    assert(b@ == s@.skip(j + 1));
    Some((a, b))
}

} // verus!
