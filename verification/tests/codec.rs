use blueboat::codec::{
    base64_standard_decode, base64_standard_encode, codec_b64decode, codec_b64encode, codec_hexdecode,
    codec_hexencode, Base64Error, CodecBase64Mode, HexError,
};

#[test]
fn hex_encoding_is_lowercase() {
    assert_eq!(codec_hexencode(&[0x00, 0x0f, 0xab, 0xff]), "000fabff");
    assert_eq!(codec_hexencode(&[]), "");
}

#[test]
fn hex_decoding_and_errors() {
    assert_eq!(codec_hexdecode(b"000FabfF"), Ok(vec![0x00, 0x0f, 0xab, 0xff]));
    assert_eq!(codec_hexdecode(b"abc"), Err(HexError::OddLength));
    assert_eq!(
        codec_hexdecode(b"0g"),
        Err(HexError::InvalidHexCharacter { c: 'g', index: 1 })
    );
}

#[test]
fn hex_roundtrip_on_sample() {
    let data: Vec<u8> = (0..=255u8).collect();
    let text = codec_hexencode(&data);
    assert_eq!(codec_hexdecode(text.as_bytes()), Ok(data));
}

#[test]
fn base64_modes() {
    assert_eq!(codec_b64encode(b"hello", CodecBase64Mode::Standard), "aGVsbG8=");
    assert_eq!(codec_b64encode(b"hello", CodecBase64Mode::StandardNopad), "aGVsbG8");
    assert_eq!(codec_b64encode(&[0xfb, 0xff], CodecBase64Mode::Urlsafe), "-_8=");
    assert_eq!(codec_b64encode(&[0xfb, 0xff], CodecBase64Mode::UrlsafeNopad), "-_8");
    assert_eq!(codec_b64encode(&[0xfb, 0xff], CodecBase64Mode::Standard), "+/8=");
    let c = CodecBase64Mode::UrlsafeNopad.build_config();
    assert!(c.url_safe && !c.pad);
}

#[test]
fn base64_decoding_and_errors() {
    assert_eq!(codec_b64decode(b"aGVsbG8=", CodecBase64Mode::Standard), Ok(b"hello".to_vec()));
    assert_eq!(codec_b64decode(b"-_8", CodecBase64Mode::UrlsafeNopad), Ok(vec![0xfb, 0xff]));
    assert_eq!(
        codec_b64decode(b"@@@@", CodecBase64Mode::Standard),
        Err(Base64Error::InvalidByte(0, b'@'))
    );
    assert_eq!(base64_standard_decode(b"a"), Err(Base64Error::InvalidLength));
    assert_eq!(base64_standard_encode(b"ab"), "YWI=");
}
