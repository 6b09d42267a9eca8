//! Canonical identifier rendering and parsing.

use diflib::ident::Ident;

fn b(s: &str) -> Vec<u8> {
    s.as_bytes().to_vec()
}

#[test]
fn parse_lower_uuid_round_trips() {
    let text = b("3d1a0000-0000-0000-0000-00000000f00d");
    let id = Ident::parse(&text).expect("well-formed identifier");
    match &id {
        Ident::Uuid(bytes) => {
            assert_eq!(bytes.len(), 16);
            assert_eq!(bytes[0], 0x3d);
            assert_eq!(bytes[1], 0x1a);
            assert_eq!(bytes[14], 0xf0);
            assert_eq!(bytes[15], 0x0d);
        },
        _ => panic!("expected the binary form"),
    }
    assert_eq!(id.render(), text);
}

#[test]
fn parse_upper_uuid_normalizes_to_lower() {
    let upper = b("3D1A0000-0000-0000-0000-00000000F00D");
    let lower = b("3d1a0000-0000-0000-0000-00000000f00d");
    let id = Ident::parse(&upper).expect("well-formed identifier");
    assert_eq!(id.render(), lower);
}

#[test]
fn render_uuid_exact_form() {
    let id = Ident::Uuid(vec![
        0x00, 0x11, 0x22, 0x33, 0x44, 0x55, 0x66, 0x77, 0x88, 0x99, 0xaa, 0xbb, 0xcc, 0xdd, 0xee,
        0xff,
    ]);
    assert_eq!(id.render(), b("00112233-4455-6677-8899-aabbccddeeff"));
}

#[test]
fn parse_text_round_trips() {
    let text = b("1.2.3-beta");
    let id = Ident::parse(&text).expect("a printable token");
    assert!(matches!(id, Ident::Text(_)));
    assert_eq!(id.render(), text);
}

#[test]
fn parse_rejects_empty_and_spaced() {
    assert!(Ident::parse(&b("")).is_none());
    assert!(Ident::parse(&b("two words")).is_none());
    assert!(Ident::parse(&b("line\nbreak")).is_none());
}

#[test]
fn equal_identifiers_compare_equal() {
    let a = Ident::parse(&b("3d1a0000-0000-0000-0000-00000000f00d")).unwrap();
    let c = Ident::parse(&b("3D1A0000-0000-0000-0000-00000000F00D")).unwrap();
    assert!(diflib::ident::eq_ident(&a, &c));
    let d = Ident::parse(&b("00000000-0000-0000-0000-000000000001")).unwrap();
    assert!(!diflib::ident::eq_ident(&a, &d));
}

#[test]
fn duplicate_preserves_value() {
    let a = Ident::parse(&b("1.2.3-beta")).unwrap();
    let c = a.duplicate();
    assert!(diflib::ident::eq_ident(&a, &c));
    assert_eq!(c.render(), b("1.2.3-beta"));
}
