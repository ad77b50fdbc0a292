//! Hex and Base64 codecs of the runtime's codec API, over the `hex` and
//! `base64` crates.

use vstd::prelude::*;

verus! {

/// The Base64 variants that the codec API offers.
#[derive(Debug, Clone, Copy, PartialEq, Eq, Structural)]
pub enum CodecBase64Mode {
    Standard,
    StandardNopad,
    Urlsafe,
    UrlsafeNopad,
}

/// The alphabet and padding of a Base64 variant.
#[derive(Debug, Clone, Copy, PartialEq, Eq, Structural)]
pub struct Base64Config {
    pub url_safe: bool,
    pub pad: bool,
}

impl CodecBase64Mode {
    /// The alphabet and padding of the mode: standard or URL-safe alphabet,
    /// with or without `=` padding.
    pub fn build_config(&self) -> (res: Base64Config)
        ensures
            res.url_safe == (*self == CodecBase64Mode::Urlsafe || *self == CodecBase64Mode::UrlsafeNopad),
            res.pad == (*self == CodecBase64Mode::Standard || *self == CodecBase64Mode::Urlsafe),
    {
        match self {
            CodecBase64Mode::Standard => Base64Config { url_safe: false, pad: true },
            CodecBase64Mode::StandardNopad => Base64Config { url_safe: false, pad: false },
            CodecBase64Mode::Urlsafe => Base64Config { url_safe: true, pad: true },
            CodecBase64Mode::UrlsafeNopad => Base64Config { url_safe: true, pad: false },
        }
    }
}

/// The lowercase hex digit of a value below 16.
pub open spec fn hex_digit(v: int) -> char {
    if v < 10 {
        (48 + v) as char
    } else {
        (87 + v) as char
    }
}

/// Lowercase hex text of bytes: two digits per byte, high nibble first.
pub open spec fn spec_hex_encode(data: Seq<u8>) -> Seq<char>
    decreases data.len(),
{
    if data.len() == 0 {
        Seq::empty()
    } else {
        spec_hex_encode(data.drop_last()).push(hex_digit((data.last() / 16) as int)).push(hex_digit((data.last() % 16) as int))
    }
}

/// The value of a hex digit byte (either case), if it is one.
pub open spec fn hex_val(c: u8) -> Option<u8> {
    if 48 <= c <= 57 {
        Some((c - 48) as u8)
    } else if 65 <= c <= 70 {
        Some((c - 55) as u8)
    } else if 97 <= c <= 102 {
        Some((c - 87) as u8)
    } else {
        None
    }
}

/// Why hex text cannot be decoded.
#[derive(Debug, Clone, Copy, PartialEq, Eq, Structural)]
pub enum HexError {
    /// A byte that is no hex digit, and its position.
    InvalidHexCharacter { c: char, index: usize },
    /// The text has an odd number of bytes.
    OddLength,
    /// The output does not have half the text's length.
    InvalidStringLength,
}

/// The first position of a byte that is no hex digit, if any.
pub open spec fn first_non_hex(data: Seq<u8>) -> Option<nat>
    decreases data.len(),
{
    if data.len() == 0 {
        None
    } else {
        match first_non_hex(data.drop_last()) {
            Some(i) => Some(i),
            None => if hex_val(data.last()) is None {
                Some((data.len() - 1) as nat)
            } else {
                None
            },
        }
    }
}

/// The bytes that hex text of even length spells, when every byte is a digit.
pub open spec fn hex_bytes(data: Seq<u8>) -> Seq<u8> {
    Seq::new(data.len() / 2, |i: int| (hex_val(data[2 * i])->0 * 16 + hex_val(data[2 * i + 1])->0) as u8)
}

/// Decoding hex text: odd length first, then the first non-digit byte.
pub open spec fn spec_hex_decode(data: Seq<u8>) -> Result<Seq<u8>, HexError> {
    if data.len() % 2 != 0 {
        Err(HexError::OddLength)
    } else {
        match first_non_hex(data) {
            Some(i) => Err(HexError::InvalidHexCharacter { c: data[i as int] as char, index: i as usize }),
            None => Ok(hex_bytes(data)),
        }
    }
}

/// `hex::encode`: lowercase hex text, two digits per byte.
#[verifier::external_body]
fn hex_encode(data: &[u8]) -> (res: String)
    ensures
        res@ == spec_hex_encode(data@),
{
    hex::encode(data)
}

/// The outcome of a hex decoding into a buffer that failed with `e`.
pub open spec fn hex_failure(e: HexError) -> Result<(), HexError> {
    Err(e)
}

/// `hex::decode_to_slice`: fills `out` with the bytes that `data` spells. It
/// checks, in this order, that `data` has even length, that `out` has half its
/// length, and that each byte is a hex digit; the error names the first
/// non-digit. On error `out` may hold a partial result.
#[verifier::external_body]
fn hex_decode_to_slice(data: &[u8], out: &mut Vec<u8>) -> (res: Result<(), HexError>)
    ensures
        final(out)@.len() == old(out)@.len(),
        data@.len() % 2 != 0 ==> res == hex_failure(HexError::OddLength),
        (data@.len() % 2 == 0 && data@.len() / 2 != old(out)@.len()) ==> res == hex_failure(
            HexError::InvalidStringLength,
        ),
        (data@.len() % 2 == 0 && data@.len() / 2 == old(out)@.len()) ==> match spec_hex_decode(data@) {
            Ok(b) => res is Ok && final(out)@ == b,
            Err(e) => res == hex_failure(e),
        },
{
    match hex::decode_to_slice(data, out.as_mut_slice()) {
        Ok(()) => Ok(()),
        Err(hex::FromHexError::InvalidHexCharacter { c, index }) => Err(HexError::InvalidHexCharacter { c, index }),
        Err(hex::FromHexError::OddLength) => Err(HexError::OddLength),
        Err(hex::FromHexError::InvalidStringLength) => Err(HexError::InvalidStringLength),
    }
}

/// Hex text of bytes, lowercase.
pub fn codec_hexencode(data: &[u8]) -> (res: String)
    ensures
        res@ == spec_hex_encode(data@),
{
    hex_encode(data)
}

/// Decodes hex text (digits of either case) into bytes.
pub fn codec_hexdecode(data: &[u8]) -> (res: Result<Vec<u8>, HexError>)
    ensures
        match spec_hex_decode(data@) {
            Ok(b) => res matches Ok(v) && v@ == b,
            Err(e) => res == Err::<Vec<u8>, HexError>(e),
        },
{
    let n = data.len() / 2;
    let mut out: Vec<u8> = Vec::new();
    let mut i: usize = 0;
    while i < n
        invariant
            i <= n,
            out@.len() == i,
        decreases n - i,
    {
        out.push(0);
        i += 1;
    }
    match hex_decode_to_slice(data, &mut out) {
        Ok(()) => Ok(out),
        Err(e) => Err(e),
    }
}

/// The Base64 symbol of a 6-bit value.
pub open spec fn b64_symbol(v: int, url_safe: bool) -> u8 {
    if v < 26 {
        (65 + v) as u8
    } else if v < 52 {
        (71 + v) as u8
    } else if v < 62 {
        (v - 4) as u8
    } else if v == 62 {
        if url_safe { 45u8 } else { 43u8 }
    } else {
        if url_safe { 95u8 } else { 47u8 }
    }
}

/// Base64 text of bytes (RFC 4648), as ASCII bytes: each group of three bytes
/// gives four symbols; a final group of one or two bytes gives two or three
/// symbols, followed by `=` up to four when padding.
pub open spec fn spec_b64_encode(data: Seq<u8>, url_safe: bool, pad: bool) -> Seq<u8>
    decreases data.len(),
{
    if data.len() == 0 {
        Seq::empty()
    } else if data.len() == 1 {
        let b0 = data[0] as int;
        seq![b64_symbol(b0 / 4, url_safe), b64_symbol((b0 % 4) * 16, url_safe)] + if pad {
            seq![61u8, 61u8]
        } else {
            Seq::empty()
        }
    } else if data.len() == 2 {
        let b0 = data[0] as int;
        let b1 = data[1] as int;
        seq![
            b64_symbol(b0 / 4, url_safe),
            b64_symbol((b0 % 4) * 16 + b1 / 16, url_safe),
            b64_symbol((b1 % 16) * 4, url_safe),
        ] + if pad {
            seq![61u8]
        } else {
            Seq::empty()
        }
    } else {
        let b0 = data[0] as int;
        let b1 = data[1] as int;
        let b2 = data[2] as int;
        seq![
            b64_symbol(b0 / 4, url_safe),
            b64_symbol((b0 % 4) * 16 + b1 / 16, url_safe),
            b64_symbol((b1 % 16) * 4 + b2 / 64, url_safe),
            b64_symbol(b2 % 64, url_safe),
        ] + spec_b64_encode(data.skip(3), url_safe, pad)
    }
}

/// The text view of ASCII bytes.
pub open spec fn ascii_chars(b: Seq<u8>) -> Seq<char> {
    b.map_values(|x: u8| x as char)
}

/// Why Base64 text cannot be decoded.
#[derive(Debug, Clone, Copy, PartialEq, Eq, Structural)]
pub enum Base64Error {
    /// A byte outside the alphabet, with its offset.
    InvalidByte(usize, u8),
    /// The text cannot have been produced by encoding (a 6-bit remainder).
    InvalidLength,
    /// The last symbol has bits set that encoding would have left zero.
    InvalidLastSymbol(usize, u8),
}

/// `base64::decode_config`, as a function of the text and the variant.
pub uninterp spec fn b64_decoded(data: Seq<u8>, url_safe: bool, pad: bool) -> Result<Seq<u8>, Base64Error>;

/// `base64::encode_config`: Base64 text of `data` in the given alphabet, padded
/// or not.
#[verifier::external_body]
fn b64_encode(data: &[u8], url_safe: bool, pad: bool) -> (res: String)
    ensures
        res@ == ascii_chars(spec_b64_encode(data@, url_safe, pad)),
{
    let charset = if url_safe { base64::CharacterSet::UrlSafe } else { base64::CharacterSet::Standard };
    base64::encode_config(data, base64::Config::new(charset, pad))
}

/// `base64::decode_config`: the bytes that Base64 text spells. The result is
/// named; what this contract states of it is that text produced by encoding
/// some bytes in the same variant decodes back to them. The crate panics when
/// the text's length plus 3 overflows.
#[verifier::external_body]
fn b64_decode(data: &[u8], url_safe: bool, pad: bool) -> (res: Result<Vec<u8>, Base64Error>)
    requires
        data@.len() + 3 <= usize::MAX,
    ensures
        match res {
            Ok(v) => b64_decoded(data@, url_safe, pad) == Ok::<Seq<u8>, Base64Error>(v@),
            Err(e) => b64_decoded(data@, url_safe, pad) == Err::<Seq<u8>, Base64Error>(e),
        },
        res matches Ok(v) ==> forall|x: Seq<u8>| #[trigger] spec_b64_encode(x, url_safe, pad) == data@ ==> v@ == x,
        res is Err ==> forall|x: Seq<u8>| #[trigger] spec_b64_encode(x, url_safe, pad) != data@,
{
    let charset = if url_safe { base64::CharacterSet::UrlSafe } else { base64::CharacterSet::Standard };
    match base64::decode_config(data, base64::Config::new(charset, pad)) {
        Ok(v) => Ok(v),
        Err(base64::DecodeError::InvalidByte(i, b)) => Err(Base64Error::InvalidByte(i, b)),
        Err(base64::DecodeError::InvalidLength) => Err(Base64Error::InvalidLength),
        Err(base64::DecodeError::InvalidLastSymbol(i, b)) => Err(Base64Error::InvalidLastSymbol(i, b)),
    }
}

/// Base64 text of bytes in the given mode.
pub fn codec_b64encode(data: &[u8], mode: CodecBase64Mode) -> (res: String)
    ensures
        ({
            let url_safe = mode == CodecBase64Mode::Urlsafe || mode == CodecBase64Mode::UrlsafeNopad;
            let pad = mode == CodecBase64Mode::Standard || mode == CodecBase64Mode::Urlsafe;
            res@ == ascii_chars(spec_b64_encode(data@, url_safe, pad))
        }),
{
    let config = mode.build_config();
    b64_encode(data, config.url_safe, config.pad)
}

/// Decodes Base64 text in the given mode.
pub fn codec_b64decode(data: &[u8], mode: CodecBase64Mode) -> (res: Result<Vec<u8>, Base64Error>)
    requires
        data@.len() + 3 <= usize::MAX,
    ensures
        ({
            let url_safe = mode == CodecBase64Mode::Urlsafe || mode == CodecBase64Mode::UrlsafeNopad;
            let pad = mode == CodecBase64Mode::Standard || mode == CodecBase64Mode::Urlsafe;
            &&& match res {
                Ok(v) => b64_decoded(data@, url_safe, pad) == Ok::<Seq<u8>, Base64Error>(v@),
                Err(e) => b64_decoded(data@, url_safe, pad) == Err::<Seq<u8>, Base64Error>(e),
            }
            &&& forall|x: Seq<u8>| #[trigger] spec_b64_encode(x, url_safe, pad) == data@ ==> (res matches Ok(v) && v@ == x)
        }),
{
    let config = mode.build_config();
    b64_decode(data, config.url_safe, config.pad)
}

/// Base64 text of bytes in the standard alphabet with padding, as
/// `base64::encode` gives it.
pub fn base64_standard_encode(data: &[u8]) -> (res: String)
    ensures
        res@ == ascii_chars(spec_b64_encode(data@, false, true)),
{
    b64_encode(data, false, true)
}

/// Decodes standard padded Base64 text, as `base64::decode` does.
pub fn base64_standard_decode(data: &[u8]) -> (res: Result<Vec<u8>, Base64Error>)
    requires
        data@.len() + 3 <= usize::MAX,
    ensures
        match res {
            Ok(v) => b64_decoded(data@, false, true) == Ok::<Seq<u8>, Base64Error>(v@),
            Err(e) => b64_decoded(data@, false, true) == Err::<Seq<u8>, Base64Error>(e),
        },
        forall|x: Seq<u8>| #[trigger] spec_b64_encode(x, false, true) == data@ ==> (res matches Ok(v) && v@ == x),
{
    b64_decode(data, false, true)
}

/// Round trip of the hex codec: decoding the hex text of any bytes gives the
/// bytes back.
pub proof fn law_hex_roundtrip(data: Seq<u8>)
    ensures
        spec_hex_decode(ascii_bytes(spec_hex_encode(data))) == Ok::<Seq<u8>, HexError>(data),
{
    lemma_hex_encode_props(data);
    let t = ascii_bytes(spec_hex_encode(data));
    assert forall|i: int| 0 <= i < t.len() implies hex_val(#[trigger] t[i]) is Some by {
        let j = i / 2;
        if i % 2 == 0 {
            assert(spec_hex_encode(data)[2 * j] == hex_digit((data[j] / 16) as int));
            lemma_hex_digit_value((data[j] / 16) as int);
        } else {
            assert(spec_hex_encode(data)[2 * j] == hex_digit((data[j] / 16) as int));
            assert(spec_hex_encode(data)[2 * j + 1] == hex_digit((data[j] % 16) as int));
            lemma_hex_digit_value((data[j] % 16) as int);
        }
    }
    lemma_no_non_hex(t);
    assert forall|j: int| 0 <= j < data.len() implies #[trigger] hex_bytes(t)[j] == data[j] by {
        assert(spec_hex_encode(data)[2 * j] == hex_digit((data[j] / 16) as int));
        assert(spec_hex_encode(data)[2 * j + 1] == hex_digit((data[j] % 16) as int));
        lemma_hex_digit_value((data[j] / 16) as int);
        lemma_hex_digit_value((data[j] % 16) as int);
    }
    assert(hex_bytes(t) =~= data);
}

proof fn lemma_hex_digit_value(v: int)
    requires
        0 <= v < 16,
    ensures
        hex_val(hex_digit(v) as u8) == Some(v as u8),
{
    if v < 10 {
        assert(((48 + v) as char) as u8 == 48 + v);
    } else {
        assert(((87 + v) as char) as u8 == 87 + v);
    }
}

/// The ASCII bytes of text made of ASCII characters.
pub open spec fn ascii_bytes(s: Seq<char>) -> Seq<u8> {
    s.map_values(|c: char| c as u8)
}

proof fn lemma_hex_encode_props(data: Seq<u8>)
    ensures
        spec_hex_encode(data).len() == 2 * data.len(),
        forall|i: int| 0 <= i < data.len() ==> #[trigger] spec_hex_encode(data)[2 * i] == hex_digit((data[i] / 16) as int)
            && spec_hex_encode(data)[2 * i + 1] == hex_digit((data[i] % 16) as int),
    decreases data.len(),
{
    if data.len() > 0 {
        lemma_hex_encode_props(data.drop_last());
    }
}

proof fn lemma_no_non_hex(t: Seq<u8>)
    requires
        forall|i: int| 0 <= i < t.len() ==> hex_val(#[trigger] t[i]) is Some,
    ensures
        first_non_hex(t) is None,
    decreases t.len(),
{
    if t.len() > 0 {
        lemma_no_non_hex(t.drop_last());
    }
}

} // verus!
