//! The byte encoding of slash-separated key paths: each segment is framed as
//! `0x02`, the segment's bytes, `0x00`.

use vstd::prelude::*;
use vstd::utf8::{decode_utf8, encode_scalar, encode_utf8, valid_utf8};
use crate::text::{chars_of, join_chars, join_seq, split_bytes, split_seq, string_from_chars};

verus! {

broadcast use vstd::string::group_string_axioms;

/// Why a path cannot be encoded or decoded.
#[derive(Debug, Clone, Copy, PartialEq, Eq, Structural)]
pub enum KeyCodecError {
    /// A segment of the path contains a NUL byte.
    SegmentContainsNul,
    /// An encoded segment does not start with `0x02`.
    MissingSegmentStart,
    /// An encoded segment is not closed by `0x00`.
    MissingSegmentEnd,
}

/// `String::from_utf8_lossy`, as a function of the bytes alone.
pub uninterp spec fn utf8_lossy(bytes: Seq<u8>) -> Seq<char>;

/// `String::from_utf8_lossy`: the bytes as text, with each invalid sequence
/// replaced by U+FFFD. On valid UTF-8 the text is exactly what the bytes encode,
/// as its documentation states; on other input this contract only names the
/// result.
#[verifier::external_body]
pub(crate) fn from_utf8_lossy(bytes: &[u8]) -> (res: String)
    ensures
        res@ == utf8_lossy(bytes@),
        valid_utf8(bytes@) ==> res@ == decode_utf8(bytes@),
{
    String::from_utf8_lossy(bytes).into_owned()
}

/// One framed segment.
pub open spec fn frame(seg: Seq<u8>) -> Seq<u8> {
    seq![0x02u8] + seg + seq![0x00u8]
}

/// The framed segments, one after the other.
pub open spec fn frame_all(segs: Seq<Seq<u8>>) -> Seq<u8>
    decreases segs.len(),
{
    if segs.len() == 0 {
        Seq::<u8>::empty()
    } else {
        frame_all(segs.drop_last()) + frame(segs.last())
    }
}

/// The segments of a path's bytes between `/` bytes.
pub open spec fn path_segments(path: Seq<char>) -> Seq<Seq<u8>> {
    split_seq(encode_utf8(path), 0x2Fu8)
}

/// The first position of `x` in `s`, if any.
pub open spec fn first_index_of(s: Seq<u8>, x: u8) -> Option<nat>
    decreases s.len(),
{
    if s.len() == 0 {
        None
    } else if s[0] == x {
        Some(0)
    } else {
        match first_index_of(s.drop_first(), x) {
            Some(i) => Some(i + 1),
            None => None,
        }
    }
}

/// `first_index_of` finds the first occurrence.
pub proof fn lemma_first_index_of(s: Seq<u8>, x: u8)
    ensures
        match first_index_of(s, x) {
            Some(i) => i < s.len() && s[i as int] == x && forall|j: int| 0 <= j < i ==> s[j] != x,
            None => forall|j: int| 0 <= j < s.len() ==> s[j] != x,
        },
    decreases s.len(),
{
    if s.len() > 0 && s[0] != x {
        lemma_first_index_of(s.drop_first(), x);
        match first_index_of(s.drop_first(), x) {
            Some(i) => {
                assert forall|j: int| 0 <= j < i + 1 implies s[j] != x by {
                    if j > 0 {
                        assert(s[j] == s.drop_first()[j - 1]);
                    }
                }
            },
            None => {
                assert forall|j: int| 0 <= j < s.len() implies s[j] != x by {
                    if j > 0 {
                        assert(s[j] == s.drop_first()[j - 1]);
                    }
                }
            },
        }
    }
}

/// The segments that an encoded path holds, read from the front.
pub open spec fn decode_segments(b: Seq<u8>) -> Result<Seq<Seq<u8>>, KeyCodecError>
    decreases b.len(),
{
    if b.len() == 0 {
        Ok(Seq::empty())
    } else if b[0] != 0x02 {
        Err(KeyCodecError::MissingSegmentStart)
    } else {
        proof {
            lemma_first_index_of(b.drop_first(), 0);
        }
        match first_index_of(b.drop_first(), 0) {
            None => Err(KeyCodecError::MissingSegmentEnd),
            Some(j) => {
                let seg = b.subrange(1, 1 + j as int);
                match decode_segments(b.skip(2 + j as int)) {
                    Ok(rest) => Ok(seq![seg] + rest),
                    Err(e) => Err(e),
                }
            },
        }
    }
}

/// What `decode_path` gives for an encoded path.
pub open spec fn spec_decode_path(b: Seq<u8>) -> Result<Seq<char>, KeyCodecError> {
    match decode_segments(b) {
        Ok(segs) => Ok(join_seq(segs.map_values(|s: Seq<u8>| utf8_lossy(s)), '/')),
        Err(e) => Err(e),
    }
}

/// Encodes a key path: the path's bytes are cut at each `/`, and every segment
/// is framed; a segment with a NUL byte is refused.
pub fn encode_path(path: &str) -> (res: Result<Vec<u8>, KeyCodecError>)
    ensures
        match res {
            Ok(v) => v@ == frame_all(path_segments(path@)) && !encode_utf8(path@).contains(0u8),
            Err(e) => e == KeyCodecError::SegmentContainsNul && encode_utf8(path@).contains(0u8),
        },
{
    let bytes = path.as_bytes();
    let segs = split_bytes(bytes, 0x2Fu8);
    let ghost sp = path_segments(path@);
    let mut out: Vec<u8> = Vec::new();
    let mut i: usize = 0;
    while i < segs.len()
        invariant
            i <= segs.len(),
            bytes@ == encode_utf8(path@),
            segs@.len() == sp.len(),
            sp == split_seq(bytes@, 0x2Fu8),
            forall|j: int| 0 <= j < segs@.len() ==> #[trigger] segs@[j]@ == sp[j],
            out@ == frame_all(sp.take(i as int)),
            forall|j: int| 0 <= j < i ==> !(#[trigger] sp[j]).contains(0u8),
        decreases segs.len() - i,
    {
        let seg = &segs[i];
        let mut k: usize = 0;
        while k < seg.len()
            invariant
                k <= seg.len(),
                i < segs@.len(),
                segs@.len() == sp.len(),
                seg@ == sp[i as int],
                bytes@ == encode_utf8(path@),
                sp == split_seq(bytes@, 0x2Fu8),
                forall|m: int| 0 <= m < k ==> seg@[m] != 0u8,
            decreases seg.len() - k,
        {
            if seg[k] == 0 {
                proof {
                    assert(sp[i as int].contains(0u8)) by {
                        assert(sp[i as int][k as int] == 0u8);
                    }
                    lemma_split_contains(bytes@, 0x2Fu8, i as int, 0u8);
                }
                return Err(KeyCodecError::SegmentContainsNul);
            }
            k += 1;
        }
        let ghost before = out@;
        out.push(0x02);
        let mut m: usize = 0;
        while m < seg.len()
            invariant
                m <= seg.len(),
                out@ == before.push(0x02u8) + seg@.take(m as int),
            decreases seg.len() - m,
        {
            out.push(seg[m]);
            assert(seg@.take(m + 1) == seg@.take(m as int).push(seg@[m as int]));
            m += 1;
        }
        out.push(0x00);
        proof {
            assert(seg@.take(seg.len() as int) == seg@);
            assert(sp.take(i + 1).drop_last() == sp.take(i as int));
            assert(out@ =~= before + frame(sp[i as int]));
            assert(!sp[i as int].contains(0u8));
        }
        i += 1;
    }
    proof {
        assert(sp.take(sp.len() as int) == sp);
        lemma_split_no_elem(bytes@, 0x2Fu8, 0u8);
    }
    Ok(out)
}

/// A byte other than the separator that occurs in a piece occurs in the whole.
proof fn lemma_split_contains(s: Seq<u8>, sep: u8, i: int, x: u8)
    requires
        0 <= i < split_seq(s, sep).len(),
        split_seq(s, sep)[i].contains(x),
    ensures
        s.contains(x),
    decreases s.len(),
{
    if s.len() > 0 {
        let init = split_seq(s.drop_last(), sep);
        lemma_split_len(s.drop_last(), sep);
        let p = split_seq(s, sep)[i];
        let j = choose|j: int| 0 <= j < p.len() && p[j] == x;
        if s.last() == sep {
            if i < init.len() {
                lemma_split_contains(s.drop_last(), sep, i, x);
                let q = choose|q: int| 0 <= q < s.drop_last().len() && s.drop_last()[q] == x;
                assert(s[q] == x);
            }
        } else {
            if i < init.len() - 1 {
                lemma_split_contains(s.drop_last(), sep, i, x);
                let q = choose|q: int| 0 <= q < s.drop_last().len() && s.drop_last()[q] == x;
                assert(s[q] == x);
            } else {
                if j < p.len() - 1 {
                    assert(init.last()[j] == x);
                    lemma_split_contains(s.drop_last(), sep, init.len() - 1, x);
                    let q = choose|q: int| 0 <= q < s.drop_last().len() && s.drop_last()[q] == x;
                    assert(s[q] == x);
                } else {
                    assert(s[s.len() - 1] == x);
                }
            }
        }
    }
}

/// A split has at least one piece.
proof fn lemma_split_len<A>(s: Seq<A>, sep: A)
    ensures
        split_seq(s, sep).len() >= 1,
    decreases s.len(),
{
    if s.len() > 0 {
        lemma_split_len(s.drop_last(), sep);
    }
}

/// If no piece of the split contains `x`, and `x` is not the separator, the
/// whole does not contain `x`.
proof fn lemma_split_no_elem(s: Seq<u8>, sep: u8, x: u8)
    requires
        x != sep,
        forall|j: int| 0 <= j < split_seq(s, sep).len() ==> !(#[trigger] split_seq(s, sep)[j]).contains(x),
    ensures
        !s.contains(x),
    decreases s.len(),
{
    if s.len() > 0 {
        let init = split_seq(s.drop_last(), sep);
        lemma_split_len(s.drop_last(), sep);
        let sp = split_seq(s, sep);
        assert forall|j: int| 0 <= j < init.len() implies !(#[trigger] init[j]).contains(x) by {
            if s.last() == sep || j < init.len() - 1 {
                assert(init[j] == sp[j]);
            } else {
                assert(sp[j] == init[j].push(s.last()));
                if init[j].contains(x) {
                    let q = choose|q: int| 0 <= q < init[j].len() && init[j][q] == x;
                    assert(sp[j][q] == x);
                }
            }
        }
        lemma_split_no_elem(s.drop_last(), sep, x);
        if s.contains(x) {
            let q = choose|q: int| 0 <= q < s.len() && s[q] == x;
            if q < s.len() - 1 {
                assert(s.drop_last()[q] == x);
            } else {
                assert(s.last() == x);
                assert(sp.last() == init.last().push(s.last()));
                assert(sp.last()[sp.last().len() - 1] == x);
                assert(sp[sp.len() - 1].contains(x));
            }
        }
    }
}

/// Segments already read, put in front of what the rest of the input gives.
pub open spec fn prepend_segments(
    pre: Seq<Seq<u8>>,
    r: Result<Seq<Seq<u8>>, KeyCodecError>,
) -> Result<Seq<Seq<u8>>, KeyCodecError> {
    match r {
        Ok(x) => Ok(pre + x),
        Err(e) => Err(e),
    }
}

/// Decodes an encoded key path: reads each framed segment, turns its bytes into
/// text (invalid UTF-8 becomes U+FFFD) and joins the segments with `/`.
pub fn decode_path(path: &[u8]) -> (res: Result<String, KeyCodecError>)
    ensures
        match spec_decode_path(path@) {
            Ok(t) => res matches Ok(s) && s@ == t,
            Err(e) => res == Err::<String, KeyCodecError>(e),
        },
        match decode_segments(path@) {
            Ok(segs) => (forall|q: int| 0 <= q < segs.len() ==> valid_utf8(#[trigger] segs[q])) ==> (res
                matches Ok(s) && s@ == join_seq(segs.map_values(|x: Seq<u8>| decode_utf8(x)), '/')),
            Err(_) => true,
        },
{
    let mut texts: Vec<Vec<char>> = Vec::new();
    let ghost mut raw: Seq<Seq<u8>> = Seq::empty();
    let mut i: usize = 0;
    proof {
        assert(path@.skip(0) == path@);
        match decode_segments(path@) {
            Ok(x) => assert(Seq::<Seq<u8>>::empty() + x == x),
            Err(e) => {},
        }
    }
    while i < path.len()
        invariant
            i <= path.len(),
            decode_segments(path@) == prepend_segments(raw, decode_segments(path@.skip(i as int))),
            texts@.len() == raw.len(),
            forall|q: int| 0 <= q < raw.len() ==> #[trigger] texts@[q]@ == utf8_lossy(raw[q]),
            forall|q: int| 0 <= q < raw.len() && valid_utf8(raw[q]) ==> #[trigger] texts@[q]@ == decode_utf8(raw[q]),
        decreases path.len() - i,
    {
        let ghost b = path@.skip(i as int);
        if path[i] != 0x02 {
            assert(b[0] == path@[i as int]);
            return Err(KeyCodecError::MissingSegmentStart);
        }
        let mut j: usize = i + 1;
        while j < path.len() && path[j] != 0
            invariant
                i < j <= path.len(),
                forall|q: int| i < q < j ==> path@[q] != 0u8,
            decreases path.len() - j,
        {
            j += 1;
        }
        proof {
            let d = b.drop_first();
            lemma_first_index_of(d, 0);
            assert forall|q: int| 0 <= q < j - i - 1 implies d[q] != 0u8 by {
                assert(d[q] == path@[i + 1 + q]);
            }
            if j < path.len() {
                assert(d[j - i - 1] == 0u8);
            }
        }
        if j == path.len() {
            return Err(KeyCodecError::MissingSegmentEnd);
        }
        let mut seg: Vec<u8> = Vec::new();
        let mut k: usize = i + 1;
        while k < j
            invariant
                i < k <= j < path.len(),
                seg@ == path@.subrange(i + 1, k as int),
            decreases j - k,
        {
            seg.push(path[k]);
            assert(path@.subrange(i + 1, k + 1) == path@.subrange(i + 1, k as int).push(path@[k as int]));
            k += 1;
        }
        let text = from_utf8_lossy(seg.as_slice());
        texts.push(chars_of(text.as_str()));
        proof {
            let d = b.drop_first();
            let jj = (j - i - 1) as nat;
            assert(first_index_of(d, 0) == Some(jj));
            assert(seg@ == b.subrange(1, 1 + jj as int));
            assert(b.skip(2 + jj as int) == path@.skip(j + 1));
            let rest = decode_segments(path@.skip(j + 1));
            match rest {
                Ok(x) => {
                    assert(decode_segments(b) == Ok::<Seq<Seq<u8>>, KeyCodecError>(seq![seg@] + x));
                    assert(raw + (seq![seg@] + x) == raw.push(seg@) + x);
                },
                Err(e) => {
                    assert(decode_segments(b) == Err::<Seq<Seq<u8>>, KeyCodecError>(e));
                },
            }
            raw = raw.push(seg@);
        }
        i = j + 1;
    }
    proof {
        assert(path@.skip(i as int) == Seq::<u8>::empty());
        assert(raw + Seq::<Seq<u8>>::empty() == raw);
        assert(texts@.map_values(|t: Vec<char>| t@) =~= raw.map_values(|s: Seq<u8>| utf8_lossy(s)));
        if forall|q: int| 0 <= q < raw.len() ==> valid_utf8(#[trigger] raw[q]) {
            assert(texts@.map_values(|t: Vec<char>| t@) =~= raw.map_values(|x: Seq<u8>| decode_utf8(x)));
        }
    }
    let joined = join_chars(&texts, '/');
    Ok(string_from_chars(joined.as_slice()))
}

/// The framed segments, first segment first.
proof fn lemma_frame_all_front(segs: Seq<Seq<u8>>)
    requires
        segs.len() > 0,
    ensures
        frame_all(segs) == frame(segs[0]) + frame_all(segs.drop_first()),
    decreases segs.len(),
{
    if segs.len() == 1 {
        assert(segs.drop_last() =~= Seq::<Seq<u8>>::empty());
        assert(segs.drop_first() =~= Seq::<Seq<u8>>::empty());
        assert(frame_all(segs.drop_last()) == Seq::<u8>::empty());
        assert(segs.last() == segs[0]);
        assert(frame_all(segs.drop_first()) == Seq::<u8>::empty());
        assert(frame_all(segs) =~= frame(segs[0]) + frame_all(segs.drop_first()));
    } else {
        lemma_frame_all_front(segs.drop_last());
        assert(segs.drop_last().drop_first() =~= segs.drop_first().drop_last());
        assert(segs.drop_first().last() == segs.last());
        assert(frame_all(segs) =~= frame(segs[0]) + frame_all(segs.drop_first()));
    }
}

/// Reading framed segments gives back the segments, when none holds a NUL.
proof fn lemma_decode_frames(segs: Seq<Seq<u8>>)
    requires
        forall|i: int| 0 <= i < segs.len() ==> !(#[trigger] segs[i]).contains(0u8),
    ensures
        decode_segments(frame_all(segs)) == Ok::<Seq<Seq<u8>>, KeyCodecError>(segs),
    decreases segs.len(),
{
    if segs.len() == 0 {
        assert(segs =~= Seq::<Seq<u8>>::empty());
    } else {
        lemma_frame_all_front(segs);
        let s0 = segs[0];
        let rest = frame_all(segs.drop_first());
        let b = frame_all(segs);
        let d = b.drop_first();
        assert(d =~= s0 + seq![0u8] + rest);
        lemma_first_index_of(d, 0);
        assert forall|j: int| 0 <= j < s0.len() implies d[j] != 0u8 by {
            assert(d[j] == s0[j]);
            if s0[j] == 0u8 {
                assert(s0.contains(0u8));
            }
        }
        assert(d[s0.len() as int] == 0u8);
        assert(first_index_of(d, 0) == Some(s0.len()));
        assert(b.subrange(1, 1 + s0.len() as int) =~= s0);
        assert(b.skip(2 + s0.len() as int) =~= rest);
        assert forall|i: int| 0 <= i < segs.drop_first().len() implies !(#[trigger] segs.drop_first()[i]).contains(0u8) by {
            assert(segs.drop_first()[i] == segs[i + 1]);
        }
        lemma_decode_frames(segs.drop_first());
        assert(seq![s0] + segs.drop_first() =~= segs);
    }
}

proof fn lemma_high_bytes(y: u8)
    by (bit_vector)
    ensures
        (0xC0u8 | y) != 0x2Fu8,
        (0xE0u8 | y) != 0x2Fu8,
        (0xF0u8 | y) != 0x2Fu8,
        (0x80u8 | y) != 0x2Fu8,
{
}

proof fn lemma_low_byte(s: u32)
    by (bit_vector)
    requires
        s <= 0x7F,
        s != 0x2F,
    ensures
        ((s & 0x7F) as u8) != 0x2Fu8,
{
}

proof fn lemma_slash_byte(s: u32)
    by (bit_vector)
    requires
        s == 0x2F,
    ensures
        ((s & 0x7F) as u8) == 0x2Fu8,
{
}

/// The UTF-8 encoding of a character other than `/` has no `/` byte, and that
/// of `/` is the single byte 0x2F.
proof fn lemma_encode_scalar_slash(c: char)
    ensures
        c == '/' ==> encode_scalar(c as u32) == seq![0x2Fu8],
        c != '/' ==> forall|i: int| 0 <= i < encode_scalar(c as u32).len() ==> #[trigger] encode_scalar(
            c as u32,
        )[i] != 0x2Fu8,
{
    let s = c as u32;
    if c == '/' {
        assert(s == 0x2F);
        lemma_slash_byte(s);
    } else {
        if s == 0x2F {
            vstd::utf8::char_u32_cast(c, s);
            assert(c == (0x2Fu32 as char));
        }
        if s <= 0x7F {
            lemma_low_byte(s);
        }
        lemma_high_bytes(((s >> 6) & 0x1F) as u8);
        lemma_high_bytes(((s >> 12) & 0x0F) as u8);
        lemma_high_bytes(((s >> 18) & 0x7) as u8);
        lemma_high_bytes((s & 0x3F) as u8);
        lemma_high_bytes(((s >> 6) & 0x3F) as u8);
        lemma_high_bytes(((s >> 12) & 0x3F) as u8);
    }
}

/// The byte segments of a path are the encodings of its `/`-separated parts.
proof fn lemma_split_encode(p: Seq<char>)
    ensures
        path_segments(p) =~= split_seq(p, '/').map_values(|x: Seq<char>| encode_utf8(x)),
    decreases p.len(),
{
    crate::text::lemma_split_nonempty(p, '/');
    if p.len() == 0 {
        assert(encode_utf8(p) =~= Seq::<u8>::empty());
    } else {
        let c = p[0];
        let r = p.drop_first();
        lemma_split_encode(r);
        crate::text::lemma_split_nonempty(r, '/');
        let sc = encode_scalar(c as u32);
        assert(encode_utf8(p) == sc + encode_utf8(r));
        assert(p =~= seq![c] + r);
        lemma_encode_scalar_slash(c);
        let z = split_seq(r, '/');
        if c == '/' {
            crate::text::lemma_split_sep_front(encode_utf8(r), 0x2Fu8);
            crate::text::lemma_split_sep_front(r, '/');
            assert(encode_utf8(Seq::<char>::empty()) =~= Seq::<u8>::empty());
        } else {
            crate::text::lemma_split_plain_front(sc, encode_utf8(r), 0x2Fu8);
            crate::text::lemma_split_plain_front(seq![c], r, '/');
            let x = seq![c] + z[0];
            assert(x[0] == c);
            assert(x.drop_first() =~= z[0]);
            assert(encode_utf8(x) == sc + encode_utf8(z[0]));
        }
    }
}

/// Round trip of the key codec: when `encode_path` accepts a path (its bytes
/// hold no NUL), reading the encoding back gives the path's segments, each of
/// them valid UTF-8, and joining their text with `/` gives the path again; so
/// `decode_path(encode_path(p)) == p`.
pub proof fn law_decode_encode_roundtrip(p: Seq<char>)
    requires
        !encode_utf8(p).contains(0u8),
    ensures
        decode_segments(frame_all(path_segments(p))) == Ok::<Seq<Seq<u8>>, KeyCodecError>(path_segments(p)),
        forall|q: int| 0 <= q < path_segments(p).len() ==> valid_utf8(#[trigger] path_segments(p)[q]),
        join_seq(path_segments(p).map_values(|x: Seq<u8>| decode_utf8(x)), '/') == p,
{
    let segs = path_segments(p);
    assert forall|i: int| 0 <= i < segs.len() implies !(#[trigger] segs[i]).contains(0u8) by {
        if segs[i].contains(0u8) {
            lemma_split_contains(encode_utf8(p), 0x2Fu8, i, 0u8);
        }
    }
    lemma_decode_frames(segs);
    lemma_split_encode(p);
    let parts = split_seq(p, '/');
    assert forall|q: int| 0 <= q < segs.len() implies valid_utf8(#[trigger] segs[q]) by {
        vstd::utf8::encode_utf8_valid_utf8(parts[q]);
    }
    assert forall|q: int| 0 <= q < segs.len() implies #[trigger] decode_utf8(segs[q]) == parts[q] by {
        vstd::utf8::encode_utf8_decode_utf8(parts[q]);
    }
    assert(segs.map_values(|x: Seq<u8>| decode_utf8(x)) =~= parts);
    crate::text::lemma_join_split(p, '/');
}

} // verus!
