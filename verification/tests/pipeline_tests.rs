//! Discovery over mixed candidates, identifier-based selection, and
//! symbol-map resolution planning.

use diflib::dif::classify_data;
use diflib::discover::{discover, Candidate};
use diflib::ident::Ident;
use diflib::resolve::{plan_resolution, ResolvePlan, SymbolMap};
use diflib::select::{select, SelectError};
use diflib::Variant;

fn b(s: &str) -> Vec<u8> {
    s.as_bytes().to_vec()
}

fn le32(v: &mut Vec<u8>, x: u32) {
    v.push((x & 0xff) as u8);
    v.push(((x >> 8) & 0xff) as u8);
    v.push(((x >> 16) & 0xff) as u8);
    v.push(((x >> 24) & 0xff) as u8);
}

fn make_macho(uuid: [u8; 16]) -> Vec<u8> {
    let mut v = Vec::new();
    le32(&mut v, 0xfeedfacf);
    while v.len() < 16 {
        v.push(0);
    }
    le32(&mut v, 1);
    while v.len() < 32 {
        v.push(0);
    }
    le32(&mut v, 0x1b);
    le32(&mut v, 24);
    v.extend_from_slice(&uuid);
    v
}

const UUID_A: [u8; 16] = [
    0x3d, 0x1a, 0, 0, 0, 0, 0, 0, 0, 0, 0, 0, 0, 0, 0xf0, 0x0d,
];

fn file(path: &str, data: Vec<u8>) -> Candidate {
    Candidate::File { path: b(path), data }
}

#[test]
fn discovery_yields_exactly_the_recognized_files() {
    let symfile = b("MODULE Linux x86_64 aabbccddeeff00112233445566778899a a.out\n");
    let mapping = b("# compiler: R8\ncom.example.Main -> a.b:\n");
    let cands = vec![
        file("README.md", b("just text\n")),
        file("obj.dwarf", make_macho(UUID_A)),
        file("notes.txt", b("more text\n")),
        file("a.sym", symfile),
        file("mapping.txt", mapping),
        file("image.bin", vec![0u8, 1, 2, 3]),
    ];
    let r = discover(&cands);
    assert_eq!(r.entries.len(), 3);
    assert_eq!(r.entries[0].path, b("obj.dwarf"));
    assert_eq!(r.entries[0].variant, Variant::Dsym);
    assert_eq!(r.entries[1].path, b("a.sym"));
    assert_eq!(r.entries[1].variant, Variant::Breakpad);
    assert_eq!(r.entries[2].path, b("mapping.txt"));
    assert_eq!(r.entries[2].variant, Variant::Proguard);
    for e in &r.entries {
        assert_ne!(e.path, b("README.md"));
        assert_ne!(e.path, b("notes.txt"));
        assert_ne!(e.path, b("image.bin"));
    }
}

#[test]
fn discovery_collapses_duplicate_paths() {
    let cands = vec![
        file("obj.dwarf", make_macho(UUID_A)),
        file("obj.dwarf", make_macho(UUID_A)),
        file("obj.dwarf", make_macho(UUID_A)),
    ];
    let r = discover(&cands);
    assert_eq!(r.entries.len(), 1);
}

#[test]
fn discovery_keys_by_variant_and_path() {
    // The same path under two different variants is two distinct
    // entries; the dedup key is the pair, not the path alone.
    let symfile = b("MODULE Linux x86_64 aabbccddeeff00112233445566778899a a.out\n");
    let cands = vec![
        file("artifact", make_macho(UUID_A)),
        file("artifact", symfile),
    ];
    let r = discover(&cands);
    assert_eq!(r.entries.len(), 2);
    assert_eq!(r.entries[0].variant, Variant::Dsym);
    assert_eq!(r.entries[1].variant, Variant::Breakpad);
}

#[test]
fn discovery_over_nothing_is_empty() {
    let r = discover(&Vec::new());
    assert_eq!(r.entries.len(), 0);
}

#[test]
fn discovery_retains_unusable_entries_with_diagnosis() {
    let mut truncated = make_macho(UUID_A);
    truncated.truncate(40);
    let cands = vec![file("broken.dwarf", truncated)];
    let r = discover(&cands);
    assert_eq!(r.entries.len(), 1);
    assert!(!r.entries[0].is_usable());
    assert!(r.entries[0].get_problem().is_some());
}

#[test]
fn strict_selection_fails_listing_the_missing_identifier() {
    let cands = vec![file("obj.dwarf", make_macho(UUID_A))];
    let r = discover(&cands);
    let missing = Ident::parse(&b("00000000-0000-0000-0000-000000000001")).unwrap();
    let outcome = select(&r, &vec![missing], true);
    match outcome {
        Err(SelectError::MissingIdentifiers(m)) => {
            assert_eq!(m.len(), 1);
            assert_eq!(m[0].render(), b("00000000-0000-0000-0000-000000000001"));
        },
        Ok(_) => panic!("strict mode must fail on an unmatched identifier"),
    }
}

#[test]
fn relaxed_selection_drops_the_missing_identifier() {
    let cands = vec![file("obj.dwarf", make_macho(UUID_A))];
    let r = discover(&cands);
    let missing = Ident::parse(&b("00000000-0000-0000-0000-000000000001")).unwrap();
    let sel = select(&r, &vec![missing], false).expect("relaxed mode never fails");
    assert_eq!(sel.selected.len(), 0);
    assert_eq!(sel.unmatched.len(), 1);
}

#[test]
fn empty_request_selects_every_usable_entry() {
    let mut truncated = make_macho(UUID_A);
    truncated.truncate(40);
    let cands = vec![
        file("obj.dwarf", make_macho(UUID_A)),
        file("broken.dwarf", truncated),
    ];
    let r = discover(&cands);
    assert_eq!(r.entries.len(), 2);
    let sel = select(&r, &Vec::new(), true).expect("nothing requested, nothing missing");
    assert_eq!(sel.selected.len(), 1);
    assert_eq!(sel.selected[0].path, b("obj.dwarf"));
    assert_eq!(sel.unmatched.len(), 0);
}

#[test]
fn bundle_discovery_and_strict_selection_by_identifier() {
    // A directory holding one native debug bundle and one unrelated
    // text file: discovery yields one usable entry with the bundle's
    // identifier, and requesting exactly that identifier strictly
    // selects it with nothing unmatched.
    let cands = vec![
        Candidate::Bundle { path: b("App.dSYM"), slices: vec![make_macho(UUID_A)] },
        file("README.txt", b("unrelated\n")),
    ];
    let r = discover(&cands);
    assert_eq!(r.entries.len(), 1);
    assert!(r.entries[0].is_usable());
    assert_eq!(
        r.entries[0].ids[0].render(),
        b("3d1a0000-0000-0000-0000-00000000f00d")
    );
    let wanted = Ident::parse(&b("3D1A0000-0000-0000-0000-00000000F00D")).unwrap();
    let sel = select(&r, &vec![wanted], true).expect("the identifier is present");
    assert_eq!(sel.selected.len(), 1);
    assert_eq!(sel.selected[0].path, b("App.dSYM"));
    assert_eq!(sel.unmatched.len(), 0);
}

#[test]
fn resolution_not_applicable_outside_hidden_bundles() {
    let plain = classify_data(&b("obj.dwarf"), &make_macho(UUID_A), None).unwrap();
    let maps = vec![SymbolMap {
        path: b("a.map"),
        id: Ident::parse(&b("3d1a0000-0000-0000-0000-00000000f00d")).unwrap(),
    }];
    let plan = plan_resolution(&plain, &maps, &b("out"));
    assert!(matches!(plan, ResolvePlan::NotApplicable));
}

#[test]
fn resolution_pairs_the_first_matching_map() {
    let mut data = make_macho(UUID_A);
    data.extend_from_slice(b"__hidden#1_");
    let d = diflib::dif::classify_bundle(&b("App.dSYM"), &vec![data]);
    assert!(d.hidden);
    let other = Ident::parse(&b("00000000-0000-0000-0000-000000000001")).unwrap();
    let right = Ident::parse(&b("3d1a0000-0000-0000-0000-00000000f00d")).unwrap();
    let maps = vec![
        SymbolMap { path: b("other.map"), id: other },
        SymbolMap { path: b("right.map"), id: right },
    ];
    match plan_resolution(&d, &maps, &b("work/App.dSYM")) {
        ResolvePlan::Invoke(inv) => {
            assert_eq!(inv.bundle, b("App.dSYM"));
            assert_eq!(inv.map, b("right.map"));
            assert_eq!(inv.output, b("work/App.dSYM"));
        },
        _ => panic!("a matching map must be paired"),
    }
}

#[test]
fn resolution_reports_a_missing_map() {
    let mut data = make_macho(UUID_A);
    data.extend_from_slice(b"__hidden#1_");
    let d = diflib::dif::classify_bundle(&b("App.dSYM"), &vec![data]);
    let other = Ident::parse(&b("00000000-0000-0000-0000-000000000001")).unwrap();
    let maps = vec![SymbolMap { path: b("other.map"), id: other }];
    assert!(matches!(plan_resolution(&d, &maps, &b("out")), ResolvePlan::MissingMap));
}
