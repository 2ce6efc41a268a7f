use arlib::builder::ArchiveBuilderBuilder;
use arlib::imports::{create_import_library, import_library_file_name, CallConv, DllImport,
    ImportError};
use arlib::read::parse_archive;

fn by_ordinal(name: &[u8], ordinal: u16, convention: CallConv) -> DllImport {
    DllImport { name: name.to_vec(), ordinal: Some(ordinal), convention }
}

fn by_name(name: &[u8], convention: CallConv) -> DllImport {
    DllImport { name: name.to_vec(), ordinal: None, convention }
}

#[test]
fn one_stub_per_descriptor_with_exact_records() {
    let imports = vec![
        by_ordinal(b"foo", 258, CallConv::Stdcall),
        by_name(b"bar", CallConv::C),
    ];
    let bytes = create_import_library(&imports, true).expect("synthesis succeeds");
    let members = parse_archive(&bytes).expect("an import library is an archive");
    assert_eq!(members.len(), 2);
    assert_eq!(members[0].name, b"s0".to_vec());
    // ordinal 258 is 0x0102: flag 1, low byte 2, high byte 1; Stdcall is
    // tag 1; the name length 3 in two little-endian bytes; then the name
    assert_eq!(members[0].data, vec![1, 2, 1, 1, 3, 0, b'f', b'o', b'o']);
    assert_eq!(members[1].name, b"s1".to_vec());
    assert_eq!(members[1].data, vec![0, 0, 0, 0, 3, 0, b'b', b'a', b'r']);
}

#[test]
fn an_indirect_dependency_keeps_only_ordinal_bound_stubs() {
    let imports = vec![
        by_name(b"pruned", CallConv::C),
        by_ordinal(b"kept", 7, CallConv::Fastcall),
    ];
    let bytes = create_import_library(&imports, false).expect("synthesis succeeds");
    let members = parse_archive(&bytes).expect("read back");
    assert_eq!(members.len(), 1);
    assert_eq!(members[0].data, vec![1, 7, 0, 2, 4, 0, b'k', b'e', b'p', b't']);
}

#[test]
fn a_direct_dependency_keeps_the_full_stub_set() {
    let imports = vec![
        by_name(b"one", CallConv::C),
        by_ordinal(b"two", 1, CallConv::Vectorcall),
    ];
    let bytes = create_import_library(&imports, true).expect("synthesis succeeds");
    let members = parse_archive(&bytes).expect("read back");
    assert_eq!(members.len(), 2);
}

#[test]
fn an_empty_symbol_name_aborts_the_whole_synthesis() {
    let imports = vec![
        by_name(b"good", CallConv::C),
        by_name(b"", CallConv::C),
    ];
    assert_eq!(create_import_library(&imports, true), Err(ImportError::UnsupportedDescriptor));
}

#[test]
fn a_pruned_bad_descriptor_does_not_abort_an_indirect_synthesis() {
    let imports = vec![
        by_name(b"", CallConv::C),
        by_ordinal(b"kept", 7, CallConv::C),
    ];
    let bytes = create_import_library(&imports, false).expect("the bad descriptor is pruned");
    let members = parse_archive(&bytes).expect("read back");
    assert_eq!(members.len(), 1);
}

#[test]
fn no_descriptors_give_an_empty_import_library() {
    let bytes = create_import_library(&Vec::new(), true).expect("synthesis succeeds");
    assert_eq!(bytes, b"!<arch>\n".to_vec());
}

#[test]
fn the_file_name_follows_the_library_name() {
    assert_eq!(import_library_file_name(&b"mylib".to_vec()), b"mylib_imports.lib".to_vec());
}

#[test]
fn the_factory_hands_out_name_and_bytes_together() {
    let factory = ArchiveBuilderBuilder::new();
    let imports = vec![by_ordinal(b"sym", 1, CallConv::C)];
    let (direct_name, direct_bytes) = factory
        .create_dll_import_lib(&b"dep".to_vec(), &imports, true)
        .expect("synthesis succeeds");
    let (indirect_name, indirect_bytes) = factory
        .create_dll_import_lib(&b"dep".to_vec(), &imports, false)
        .expect("synthesis succeeds");
    // the location convention does not depend on directness
    assert_eq!(direct_name, b"dep_imports.lib".to_vec());
    assert_eq!(indirect_name, direct_name);
    assert_eq!(direct_bytes, indirect_bytes);
}
