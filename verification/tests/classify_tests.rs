//! Classification of each supported variant: known-good samples yield
//! usable instances with the expected identifiers; samples with a
//! damaged identifier region yield unusable instances with a diagnosis
//! and no identifiers.

use diflib::dif::{classify_bundle, classify_data, is_bundle_dir, Dif};
use diflib::problem::Problem;
use diflib::Variant;

fn b(s: &str) -> Vec<u8> {
    s.as_bytes().to_vec()
}

fn le32(v: &mut Vec<u8>, x: u32) {
    v.push((x & 0xff) as u8);
    v.push(((x >> 8) & 0xff) as u8);
    v.push(((x >> 16) & 0xff) as u8);
    v.push(((x >> 24) & 0xff) as u8);
}

fn le64(v: &mut Vec<u8>, x: u64) {
    for k in 0..8 {
        v.push(((x >> (8 * k)) & 0xff) as u8);
    }
}

/// A minimal 64-bit little-endian native object file with one
/// identifier load command.
pub fn make_macho(uuid: [u8; 16]) -> Vec<u8> {
    let mut v = Vec::new();
    le32(&mut v, 0xfeedfacf); // magic
    while v.len() < 16 {
        v.push(0);
    }
    le32(&mut v, 1); // one load command
    while v.len() < 32 {
        v.push(0);
    }
    le32(&mut v, 0x1b); // the identifier command
    le32(&mut v, 24); // its size
    v.extend_from_slice(&uuid);
    v
}

/// A minimal 64-bit little-endian object file with one note section
/// carrying a build identifier.
pub fn make_elf(id: [u8; 16]) -> Vec<u8> {
    let mut v = Vec::new();
    v.extend_from_slice(&[0x7f, 0x45, 0x4c, 0x46, 2, 1]);
    while v.len() < 0x28 {
        v.push(0);
    }
    le64(&mut v, 64); // section header table offset
    while v.len() < 0x3a {
        v.push(0);
    }
    v.push(64); // entry size, low byte
    v.push(0);
    v.push(1); // one section header
    v.push(0);
    while v.len() < 64 {
        v.push(0);
    }
    // the section header
    le32(&mut v, 0); // name
    le32(&mut v, 7); // a note section
    while v.len() < 64 + 0x18 {
        v.push(0);
    }
    le64(&mut v, 128); // section offset
    le64(&mut v, 32); // section size
    while v.len() < 128 {
        v.push(0);
    }
    // the note record
    le32(&mut v, 4); // name size
    le32(&mut v, 16); // description size
    le32(&mut v, 3); // build identifier note
    v.extend_from_slice(b"GNU\0");
    v.extend_from_slice(&id);
    v
}

const UUID_A: [u8; 16] = [
    0x3d, 0x1a, 0, 0, 0, 0, 0, 0, 0, 0, 0, 0, 0, 0, 0xf0, 0x0d,
];

fn rendered_ids(d: &Dif) -> Vec<Vec<u8>> {
    let mut out = Vec::new();
    for id in &d.ids {
        out.push(id.render());
    }
    out
}

#[test]
fn macho_sample_is_usable() {
    let data = make_macho(UUID_A);
    let d = classify_data(&b("a.dwarf"), &data, None).expect("recognized");
    assert_eq!(d.variant, Variant::Dsym);
    assert!(d.is_usable());
    assert!(d.get_problem().is_none());
    assert_eq!(rendered_ids(&d), vec![b("3d1a0000-0000-0000-0000-00000000f00d")]);
}

#[test]
fn macho_truncated_is_unusable() {
    let mut data = make_macho(UUID_A);
    data.truncate(40); // cuts into the identifier command
    let d = classify_data(&b("a.dwarf"), &data, None).expect("still recognized by magic");
    assert!(!d.is_usable());
    assert_eq!(d.ids.len(), 0);
    let p = d.get_problem().expect("a diagnosis");
    assert!(!p.message().is_empty());
}

#[test]
fn macho_without_identifier_command() {
    let mut v = Vec::new();
    le32(&mut v, 0xfeedfacf);
    while v.len() < 16 {
        v.push(0);
    }
    le32(&mut v, 0); // no load commands at all
    while v.len() < 32 {
        v.push(0);
    }
    let d = classify_data(&b("a.dwarf"), &v, None).unwrap();
    assert_eq!(d.get_problem(), Some(Problem::MissingIdentifier));
}

#[test]
fn elf_sample_is_usable() {
    let data = make_elf(UUID_A);
    let d = classify_data(&b("a.debug"), &data, None).expect("recognized");
    assert_eq!(d.variant, Variant::Elf);
    assert!(d.is_usable());
    assert_eq!(rendered_ids(&d), vec![b("3d1a0000-0000-0000-0000-00000000f00d")]);
}

#[test]
fn elf_truncated_is_unusable() {
    let mut data = make_elf(UUID_A);
    data.truncate(100); // cuts the section table and the note
    let d = classify_data(&b("a.debug"), &data, None).expect("still recognized by magic");
    assert!(!d.is_usable());
    assert_eq!(d.ids.len(), 0);
    assert_eq!(d.get_problem(), Some(Problem::CorruptObjectHeader));
}

#[test]
fn elf_wrong_class_is_unsupported() {
    let mut data = make_elf(UUID_A);
    data[4] = 1; // 32-bit class
    let d = classify_data(&b("a.debug"), &data, None).unwrap();
    assert_eq!(d.get_problem(), Some(Problem::UnsupportedArchitecture));
}

#[test]
fn elf_without_note_is_unusable() {
    let mut data = make_elf(UUID_A);
    data[0x3c] = 0; // empty section header table
    let d = classify_data(&b("a.debug"), &data, None).unwrap();
    assert_eq!(d.get_problem(), Some(Problem::MissingIdentifier));
}

#[test]
fn breakpad_sample_is_usable() {
    let data = b("MODULE Linux x86_64 aabbccddeeff00112233445566778899a a.out\nFUNC 0 0 0 main\n");
    let d = classify_data(&b("a.sym"), &data, None).expect("recognized");
    assert_eq!(d.variant, Variant::Breakpad);
    assert!(d.is_usable());
    assert_eq!(rendered_ids(&d), vec![b("aabbccddeeff00112233445566778899a")]);
}

#[test]
fn breakpad_truncated_id_is_unusable() {
    let data = b("MODULE Linux x86_64 aabbcc a.out\n");
    let d = classify_data(&b("a.sym"), &data, None).unwrap();
    assert!(!d.is_usable());
    assert_eq!(d.ids.len(), 0);
    assert_eq!(d.get_problem(), Some(Problem::CorruptSymbolHeader));
}

#[test]
fn breakpad_missing_name_is_unusable() {
    let data = b("MODULE Linux x86_64 aabbccddeeff00112233445566778899a\n");
    let d = classify_data(&b("a.sym"), &data, None).unwrap();
    assert_eq!(d.get_problem(), Some(Problem::CorruptSymbolHeader));
}

#[test]
fn proguard_declared_marker_wins() {
    let data = b("# compiler: R8\n# build: 1.2.3-beta\ncom.example.Main -> a.b:\n");
    let d = classify_data(&b("mapping.txt"), &data, None).expect("recognized");
    assert_eq!(d.variant, Variant::Proguard);
    assert!(d.is_usable());
    assert_eq!(rendered_ids(&d), vec![b("1.2.3-beta")]);
}

#[test]
fn proguard_content_hash_exact() {
    let data = b("# compiler: R8\ncom.example.Main -> a.b:\n");
    let d = classify_data(&b("mapping.txt"), &data, None).expect("recognized");
    assert!(d.is_usable());
    assert_eq!(rendered_ids(&d), vec![b("851b68cf4ec2d3d5")]);
}

#[test]
fn proguard_hash_is_content_sensitive() {
    let one = classify_data(&b("m1"), &b("# a\nx -> y:\n"), None).unwrap();
    let two = classify_data(&b("m2"), &b("# a\nx -> z:\n"), None).unwrap();
    assert_ne!(rendered_ids(&one), rendered_ids(&two));
}

#[test]
fn proguard_empty_marker_is_unusable() {
    let data = b("# build: \ncom.example.Main -> a.b:\n");
    let d = classify_data(&b("mapping.txt"), &data, None).unwrap();
    assert!(!d.is_usable());
    assert_eq!(d.get_problem(), Some(Problem::CorruptMappingHeader));
}

#[test]
fn hint_mismatch_is_unusable_not_fatal() {
    let data = make_elf(UUID_A);
    let d = classify_data(&b("a.debug"), &data, Some(Variant::Proguard)).expect("hint trusted");
    assert_eq!(d.variant, Variant::Proguard);
    assert!(!d.is_usable());
    assert_eq!(d.get_problem(), Some(Problem::TypeMismatch));
}

#[test]
fn hint_match_extracts() {
    let data = make_macho(UUID_A);
    let d = classify_data(&b("a.dwarf"), &data, Some(Variant::Dsym)).unwrap();
    assert!(d.is_usable());
}

#[test]
fn unrecognized_bytes_detect_as_nothing() {
    assert!(classify_data(&b("readme.txt"), &b("hello world\n"), None).is_none());
    assert!(classify_data(&b("empty"), &b(""), None).is_none());
    assert!(classify_data(&b("notes.md"), &b("# heading, but no mapping\n"), None).is_none());
}

#[test]
fn bundle_collects_slice_identifiers() {
    let mut other = UUID_A;
    other[15] = 0x0e;
    let slices = vec![make_macho(UUID_A), make_macho(other)];
    let d = classify_bundle(&b("App.dSYM"), &slices);
    assert_eq!(d.variant, Variant::Dsym);
    assert!(d.is_usable());
    assert_eq!(
        rendered_ids(&d),
        vec![
            b("3d1a0000-0000-0000-0000-00000000f00d"),
            b("3d1a0000-0000-0000-0000-00000000f00e"),
        ]
    );
}

#[test]
fn bundle_deduplicates_equal_slices() {
    let slices = vec![make_macho(UUID_A), make_macho(UUID_A)];
    let d = classify_bundle(&b("App.dSYM"), &slices);
    assert_eq!(d.ids.len(), 1);
}

#[test]
fn bundle_without_debug_data_is_unusable() {
    let slices = vec![b("not an object"), Vec::new()];
    let d = classify_bundle(&b("App.dSYM"), &slices);
    assert!(!d.is_usable());
    assert_eq!(d.get_problem(), Some(Problem::NoDebugData));
}

#[test]
fn bundle_notes_obscured_symbols() {
    let mut with_marker = make_macho(UUID_A);
    with_marker.extend_from_slice(b"__hidden#42_");
    let d = classify_bundle(&b("App.dSYM"), &vec![with_marker]);
    assert!(d.hidden);
    let plain = classify_bundle(&b("App.dSYM"), &vec![make_macho(UUID_A)]);
    assert!(!plain.hidden);
}

#[test]
fn problem_messages_are_never_empty() {
    let all = [
        Problem::TypeMismatch,
        Problem::NoDebugData,
        Problem::MissingIdentifier,
        Problem::UnsupportedArchitecture,
        Problem::CorruptObjectHeader,
        Problem::CorruptMappingHeader,
        Problem::CorruptSymbolHeader,
    ];
    for p in all {
        assert!(!p.message().is_empty());
    }
}

#[test]
fn bundle_dir_names() {
    assert!(is_bundle_dir(&b("MyApp.dSYM")));
    assert!(is_bundle_dir(&b("lib.dsym")));
    assert!(!is_bundle_dir(&b("MyApp.app")));
    assert!(!is_bundle_dir(&b("dSYM")));
}
