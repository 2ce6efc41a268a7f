use arlib::builder::{ArArchiveBuilder, ArchiveBuilder, ArchiveBuilderBuilder};
use arlib::errors::ErrorKind;
use arlib::member::NameSet;
use arlib::read::parse_archive;

#[test]
fn empty_session_builds_minimal_archive() {
    let session = ArArchiveBuilder::new();
    let bytes = session.build().expect("an empty session must build");
    assert_eq!(bytes, b"!<arch>\n".to_vec());
    let members = parse_archive(&bytes).expect("the minimal archive must read back");
    assert_eq!(members.len(), 0);
}

#[test]
fn round_trip_preserves_names_payloads_and_order() {
    let mut session = ArArchiveBuilder::new();
    session.add_file(b"a.o".to_vec(), b"hello!".to_vec());
    session.add_file(b"b.o".to_vec(), vec![1, 2, 3]);
    session.add_file(b"c.o".to_vec(), Vec::new());
    let bytes = session.build().expect("representable members must build");
    let members = parse_archive(&bytes).expect("the archive must read back");
    assert_eq!(members.len(), 3);
    assert_eq!(members[0].name, b"a.o".to_vec());
    assert_eq!(members[0].data, b"hello!".to_vec());
    assert_eq!(members[1].name, b"b.o".to_vec());
    assert_eq!(members[1].data, vec![1, 2, 3]);
    assert_eq!(members[2].name, b"c.o".to_vec());
    assert_eq!(members[2].data, Vec::<u8>::new());
}

#[test]
fn round_trip_keeps_odd_sized_payloads_apart() {
    let mut session = ArArchiveBuilder::new();
    session.add_file(b"x".to_vec(), vec![9]);
    session.add_file(b"y".to_vec(), vec![7, 8, 6]);
    let bytes = session.build().expect("build");
    let members = parse_archive(&bytes).expect("read back");
    assert_eq!(members.len(), 2);
    assert_eq!(members[0].data, vec![9]);
    assert_eq!(members[1].data, vec![7, 8, 6]);
}

#[test]
fn overlong_member_name_fails_the_build() {
    let mut session = ArArchiveBuilder::new();
    session.add_file(b"exactly_15_ch.o".to_vec(), b"ok".to_vec());
    assert_eq!(session.len(), 1);
    let mut bad = ArArchiveBuilder::new();
    bad.add_file(b"sixteen_chars..o".to_vec(), b"no".to_vec());
    assert!(bad.build().is_none());
}

#[test]
fn add_archive_merges_members_after_files() {
    let mut inner = ArArchiveBuilder::new();
    inner.add_file(b"x.o".to_vec(), b"XX".to_vec());
    inner.add_file(b"y.o".to_vec(), b"YY".to_vec());
    let inner_bytes = inner.build().expect("inner build");

    let mut session = ArArchiveBuilder::new();
    session.add_file(b"main.o".to_vec(), b"MM".to_vec());
    let skip = NameSet::new();
    session.add_archive(&inner_bytes, &skip).expect("a readable sub-archive");
    let bytes = session.build().expect("outer build");
    let members = parse_archive(&bytes).expect("read back");
    let names: Vec<Vec<u8>> = members.iter().map(|m| m.name.clone()).collect();
    assert_eq!(names, vec![b"main.o".to_vec(), b"x.o".to_vec(), b"y.o".to_vec()]);
}

#[test]
fn add_archive_honours_the_skip_set() {
    let mut inner = ArArchiveBuilder::new();
    inner.add_file(b"keep.o".to_vec(), b"K".to_vec());
    inner.add_file(b"drop.o".to_vec(), b"D".to_vec());
    let inner_bytes = inner.build().expect("inner build");

    let mut skip = NameSet::new();
    skip.insert(b"drop.o".to_vec());
    let mut session = ArArchiveBuilder::new();
    session.add_archive(&inner_bytes, &skip).expect("a readable sub-archive");
    let bytes = session.build().expect("outer build");
    let members = parse_archive(&bytes).expect("read back");
    assert_eq!(members.len(), 1);
    assert_eq!(members[0].name, b"keep.o".to_vec());
    assert_eq!(members[0].data, b"K".to_vec());
}

#[test]
fn add_archive_rejects_unreadable_bytes_and_keeps_the_session() {
    let mut session = ArArchiveBuilder::new();
    session.add_file(b"main.o".to_vec(), b"MM".to_vec());
    let garbage = b"not an archive".to_vec();
    assert_eq!(session.add_archive(&garbage, &NameSet::new()), Err(ErrorKind::ParseArchive));
    assert_eq!(session.len(), 1);
}

#[test]
fn reader_takes_unterminated_name_fields_too() {
    // the older convention pads the name with spaces and writes no
    // terminating slash
    let mut bytes = b"!<arch>\n".to_vec();
    bytes.extend_from_slice(b"x.o             ");
    bytes.extend_from_slice(b"0           0     0     644     ");
    bytes.extend_from_slice(b"2         ");
    bytes.extend_from_slice(b"`\n");
    bytes.extend_from_slice(b"AB");
    let members = parse_archive(&bytes).expect("read back");
    assert_eq!(members.len(), 1);
    assert_eq!(members[0].name, b"x.o".to_vec());
    assert_eq!(members[0].data, b"AB".to_vec());
}

#[test]
fn factory_opens_fresh_sessions() {
    let factory = ArchiveBuilderBuilder::new();
    let session = factory.new_archive_builder();
    assert_eq!(session.len(), 0);
    let bytes = session.build().expect("empty build");
    let members = parse_archive(&bytes).expect("read back");
    assert!(members.is_empty());
}

#[test]
fn built_archives_use_deterministic_metadata() {
    let mut a = ArArchiveBuilder::new();
    a.add_file(b"m.o".to_vec(), b"12".to_vec());
    let mut b = ArArchiveBuilder::new();
    b.add_file(b"m.o".to_vec(), b"12".to_vec());
    assert_eq!(a.build().unwrap(), b.build().unwrap());
}

#[test]
fn empty_and_reserved_member_names_fail_the_build() {
    // the writer refuses what the reader reserves: nameless members and
    // the bookkeeping name forms
    let unusable: [&[u8]; 4] = [b"", b"/", b"/sym.o", b"#1/20"];
    for name in unusable {
        let mut session = ArArchiveBuilder::new();
        session.add_file(name.to_vec(), b"D".to_vec());
        assert!(session.build().is_none());
    }
}

#[test]
fn round_trip_keeps_a_large_payload_whole() {
    let data: Vec<u8> = (0..4097u32).map(|i| (i % 251) as u8).collect();
    let mut session = ArArchiveBuilder::new();
    session.add_file(b"big.o".to_vec(), data.clone());
    let bytes = session.build().expect("build");
    let members = parse_archive(&bytes).expect("read back");
    assert_eq!(members[0].data, data);
}

#[test]
fn round_trip_keeps_awkward_member_names() {
    // spaces and slashes inside or at the end of a name survive, because
    // the name field's terminating slash protects them
    let names: [&[u8]; 4] = [b"a b.o", b"dir/x.o", b"odd.o ", b"s/"];
    let mut session = ArArchiveBuilder::new();
    for name in names {
        session.add_file(name.to_vec(), b"D".to_vec());
    }
    let bytes = session.build().expect("build");
    let members = parse_archive(&bytes).expect("read back");
    for (i, name) in names.iter().enumerate() {
        assert_eq!(members[i].name, name.to_vec());
    }
}

#[test]
fn error_kinds_describe_themselves() {
    assert_eq!(ErrorKind::ParseArchive.describe(), "the bytes are not an archive");
    assert_eq!(ErrorKind::WriteFile.describe(), "failed to write an extracted member");
}
