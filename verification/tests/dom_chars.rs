use xrs::dom::chars::{XmlByteExt, XmlBytesExt, XmlStrExt};

#[test]
fn mod_empty() {
    assert_eq!(false, "".is_xml_name())
}

#[test]
fn digit_start() {
    assert_eq!(false, "1sd".is_xml_name());
}

#[test]
fn dot() {
    assert_eq!(false, ".".is_xml_name());
}

#[test]
fn without_namespace() {
    assert_eq!(true, "type67".is_xml_name());
}

#[test]
fn with_namespace() {
    assert_eq!(true, "xsi:type".is_xml_name());
}

#[test]
fn nonalpha() {
    assert_eq!(true, "_:_.-_".is_xml_name());
}

#[test]
fn dom_byte_whitespace() {
    assert!(b' '.is_xml_whitespace());
    assert!(b'\t'.is_xml_whitespace());
    assert!(b'\r'.is_xml_whitespace());
    assert!(b'\n'.is_xml_whitespace());
    assert!(!b'a'.is_xml_whitespace());
    assert!(!0x0cu8.is_xml_whitespace());
}

#[test]
fn dom_bytes_only_whitespace() {
    let empty: &[u8] = b"";
    assert!(empty.only_xml_whitespace());
    let ws: &[u8] = b" \t\r\n";
    assert!(ws.only_xml_whitespace());
    let mixed: &[u8] = b" a ";
    assert!(!mixed.only_xml_whitespace());
}

#[test]
fn dom_name_non_ascii() {
    assert_eq!(true, "été".is_xml_name());
    assert_eq!(false, "-a".is_xml_name());
    assert_eq!(false, "a b".is_xml_name());
}

#[test]
fn lookup_in_range_table() {
    let map: &[(u16, u16)] = &[(0x41, 0x5B), (0x61, 0x7B), (0x3000, 0x3001)];
    assert!(xrs::dom::chars::lookup_char('A', map));
    assert!(!xrs::dom::chars::lookup_char('[', map));
    assert!(!xrs::dom::chars::lookup_char('`', map));
    assert!(xrs::dom::chars::lookup_char('z', map));
    assert!(xrs::dom::chars::lookup_char('\u{3000}', map));
    assert!(!xrs::dom::chars::lookup_char('\u{4000}', map));
    assert!(!xrs::dom::chars::lookup_char('\u{10400}', &[(0, 0xFFFF)]));
}
