use std::collections::HashMap;

use arlib::builder::{ArArchiveBuilder, ArchiveBuilder};
use arlib::errors::ErrorKind;
use arlib::extract::extract_bundled_libs;
use arlib::member::{Member, NameSet};

fn archive_of(entries: &[(&[u8], &[u8])]) -> Vec<u8> {
    let mut session = ArArchiveBuilder::new();
    for (name, data) in entries {
        session.add_file(name.to_vec(), data.to_vec());
    }
    session.build().expect("test archives are representable")
}

fn names_of(names: &[&[u8]]) -> NameSet {
    let mut set = NameSet::new();
    for name in names {
        set.insert(name.to_vec());
    }
    set
}

fn write_plan(dir: &mut HashMap<Vec<u8>, Vec<u8>>, plan: &[Member]) {
    for m in plan {
        dir.insert(m.name.clone(), m.data.clone());
    }
}

#[test]
fn extracts_exactly_the_requested_members() {
    let bytes = archive_of(&[(b"liba.a", b"AAA"), (b"libb.a", b"BBB"), (b"other.o", b"OOO")]);
    let names = names_of(&[b"liba.a", b"libb.a"]);
    let plan = extract_bundled_libs(&bytes, &names).expect("extraction succeeds");
    let mut dir: HashMap<Vec<u8>, Vec<u8>> = HashMap::new();
    write_plan(&mut dir, &plan);
    assert_eq!(dir.len(), 2);
    assert_eq!(dir.get(&b"liba.a".to_vec()), Some(&b"AAA".to_vec()));
    assert_eq!(dir.get(&b"libb.a".to_vec()), Some(&b"BBB".to_vec()));
    assert_eq!(dir.get(&b"other.o".to_vec()), None);
}

#[test]
fn building_then_extracting_distinct_entries_settles_each_payload() {
    let entries: [(&[u8], &[u8]); 3] = [(b"a.o", b"A1"), (b"b.o", b"B22"), (b"c.o", b"")];
    let bytes = archive_of(&entries);
    let names = names_of(&[b"a.o", b"b.o", b"c.o"]);
    let plan = extract_bundled_libs(&bytes, &names).expect("extraction succeeds");
    let mut dir: HashMap<Vec<u8>, Vec<u8>> = HashMap::new();
    write_plan(&mut dir, &plan);
    assert_eq!(dir.len(), 3);
    for (name, data) in entries {
        assert_eq!(dir.get(&name.to_vec()), Some(&data.to_vec()));
    }
}

#[test]
fn requested_names_missing_from_the_archive_write_nothing() {
    let bytes = archive_of(&[(b"liba.a", b"AAA")]);
    let names = names_of(&[b"liba.a", b"libz.a"]);
    let plan = extract_bundled_libs(&bytes, &names).expect("extraction succeeds");
    assert_eq!(plan.len(), 1);
    assert_eq!(plan[0].name, b"liba.a".to_vec());
}

#[test]
fn extracting_twice_settles_the_same_files() {
    let bytes = archive_of(&[(b"liba.a", b"AAA"), (b"x.o", b"OLD"), (b"x.o", b"NEW")]);
    let names = names_of(&[b"liba.a", b"x.o"]);
    let first = extract_bundled_libs(&bytes, &names).expect("first run");
    let second = extract_bundled_libs(&bytes, &names).expect("second run");
    let mut once: HashMap<Vec<u8>, Vec<u8>> = HashMap::new();
    write_plan(&mut once, &first);
    let mut twice = once.clone();
    write_plan(&mut twice, &second);
    assert_eq!(once, twice);
}

#[test]
fn the_later_member_wins_a_name_collision() {
    let bytes = archive_of(&[(b"x.o", b"OLD"), (b"y.o", b"YY"), (b"x.o", b"NEW")]);
    let names = names_of(&[b"x.o"]);
    let plan = extract_bundled_libs(&bytes, &names).expect("extraction succeeds");
    assert_eq!(plan.len(), 2);
    let mut dir: HashMap<Vec<u8>, Vec<u8>> = HashMap::new();
    write_plan(&mut dir, &plan);
    assert_eq!(dir.get(&b"x.o".to_vec()), Some(&b"NEW".to_vec()));
}

#[test]
fn a_truncated_magic_line_is_a_parse_error_and_writes_nothing() {
    let bytes = b"!<arc".to_vec();
    let names = names_of(&[b"liba.a"]);
    match extract_bundled_libs(&bytes, &names) {
        Err(ErrorKind::ParseArchive) => {},
        other => panic!("expected a ParseArchive error, got {:?}", other.map(|p| p.len())),
    }
}

#[test]
fn a_wrong_magic_line_is_a_parse_error() {
    let bytes = b"!<arch>X________".to_vec();
    match extract_bundled_libs(&bytes, &names_of(&[])) {
        Err(ErrorKind::ParseArchive) => {},
        other => panic!("expected a ParseArchive error, got {:?}", other.map(|p| p.len())),
    }
}

#[test]
fn a_truncated_member_header_is_a_read_entry_error() {
    let mut bytes = b"!<arch>\n".to_vec();
    bytes.extend_from_slice(b"x.o/ too short");
    match extract_bundled_libs(&bytes, &names_of(&[b"x.o"])) {
        Err(ErrorKind::ReadEntry) => {},
        other => panic!("expected a ReadEntry error, got {:?}", other.map(|p| p.len())),
    }
}

#[test]
fn a_bad_end_marker_is_a_read_entry_error() {
    let mut bytes = archive_of(&[(b"x.o", b"XX")]);
    bytes[8 + 58] = b'?';
    match extract_bundled_libs(&bytes, &names_of(&[b"x.o"])) {
        Err(ErrorKind::ReadEntry) => {},
        other => panic!("expected a ReadEntry error, got {:?}", other.map(|p| p.len())),
    }
}

#[test]
fn an_unreadable_size_field_is_a_read_entry_error() {
    let mut bytes = archive_of(&[(b"x.o", b"XX")]);
    bytes[8 + 48] = b' ';
    match extract_bundled_libs(&bytes, &names_of(&[b"x.o"])) {
        Err(ErrorKind::ReadEntry) => {},
        other => panic!("expected a ReadEntry error, got {:?}", other.map(|p| p.len())),
    }
}

#[test]
fn a_payload_running_past_the_end_is_an_archive_member_error() {
    let mut bytes = b"!<arch>\n".to_vec();
    bytes.extend_from_slice(b"x.o/            ");
    bytes.extend_from_slice(b"0           0     0     644     ");
    bytes.extend_from_slice(b"100       ");
    bytes.extend_from_slice(b"`\n");
    bytes.extend_from_slice(b"AB");
    match extract_bundled_libs(&bytes, &names_of(&[b"x.o"])) {
        Err(ErrorKind::ArchiveMember) => {},
        other => panic!("expected an ArchiveMember error, got {:?}", other.map(|p| p.len())),
    }
}

#[test]
fn a_member_name_that_is_not_text_is_a_convert_name_error() {
    // 0xff never occurs in UTF-8, and the name aborts extraction even
    // though it was not asked for
    let bytes = archive_of(&[(&[0xff, 0xfe], b"??"), (b"liba.a", b"AAA")]);
    match extract_bundled_libs(&bytes, &names_of(&[b"liba.a"])) {
        Err(ErrorKind::ConvertName) => {},
        other => panic!("expected a ConvertName error, got {:?}", other.map(|p| p.len())),
    }
}

#[test]
fn a_bad_name_earlier_in_the_archive_beats_later_corruption() {
    // member 0 is well formed but its name is not text; the bytes after it
    // are junk — extraction works member by member, so the name failure of
    // member 0 is reported, not the structural failure behind it
    let mut bytes = archive_of(&[(&[0xff], b"")]);
    bytes.extend_from_slice(b"junk bytes");
    match extract_bundled_libs(&bytes, &names_of(&[b"liba.a"])) {
        Err(ErrorKind::ConvertName) => {},
        other => panic!("expected a ConvertName error, got {:?}", other.map(|p| p.len())),
    }
}

fn raw_member(name_field: &[u8], size_field: &[u8], data: &[u8]) -> Vec<u8> {
    assert_eq!(name_field.len(), 16);
    assert_eq!(size_field.len(), 10);
    let mut out = name_field.to_vec();
    out.extend_from_slice(b"0           0     0     644     ");
    out.extend_from_slice(size_field);
    out.extend_from_slice(b"`\n");
    out.extend_from_slice(data);
    if data.len() % 2 == 1 {
        out.push(b'\n');
    }
    out
}

#[test]
fn bookkeeping_members_are_rejected_as_read_entry() {
    // the symbol table, the long-name table, a reference into it, and a
    // name stored in the payload all use reserved names this crate does
    // not resolve
    let reserved: [&[u8]; 4] = [
        b"/               ",
        b"//              ",
        b"/12             ",
        b"#1/20           ",
    ];
    for name_field in reserved {
        let mut bytes = b"!<arch>\n".to_vec();
        bytes.extend_from_slice(&raw_member(name_field, b"2         ", b"AB"));
        match extract_bundled_libs(&bytes, &names_of(&[b"x.o"])) {
            Err(ErrorKind::ReadEntry) => {},
            other => panic!("expected a ReadEntry error, got {:?}", other.map(|p| p.len())),
        }
    }
}

#[test]
fn an_empty_member_name_is_rejected_as_read_entry() {
    let mut bytes = b"!<arch>\n".to_vec();
    bytes.extend_from_slice(&raw_member(b"                ", b"2         ", b"AB"));
    match extract_bundled_libs(&bytes, &names_of(&[b"x.o"])) {
        Err(ErrorKind::ReadEntry) => {},
        other => panic!("expected a ReadEntry error, got {:?}", other.map(|p| p.len())),
    }
}

#[test]
fn plans_can_be_made_from_already_read_members() {
    let bytes = archive_of(&[(b"liba.a", b"AAA"), (b"other.o", b"OOO")]);
    let members = arlib::read::parse_archive(&bytes).expect("read back");
    let plan =
        arlib::extract::extract_plan(&members, &names_of(&[b"liba.a"])).expect("plan succeeds");
    assert_eq!(plan.len(), 1);
    assert_eq!(plan[0].name, b"liba.a".to_vec());
    assert_eq!(plan[0].data, b"AAA".to_vec());
}

#[test]
fn an_empty_name_set_extracts_nothing() {
    let bytes = archive_of(&[(b"liba.a", b"AAA")]);
    let plan = extract_bundled_libs(&bytes, &names_of(&[])).expect("extraction succeeds");
    assert!(plan.is_empty());
}

#[test]
fn name_sets_deduplicate() {
    let mut set = NameSet::new();
    set.insert(b"liba.a".to_vec());
    set.insert(b"liba.a".to_vec());
    let bytes = archive_of(&[(b"liba.a", b"AAA")]);
    let plan = extract_bundled_libs(&bytes, &set).expect("extraction succeeds");
    assert_eq!(plan.len(), 1);
}
