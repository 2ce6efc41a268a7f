//! Per-output-archive build sessions and the platform factory.

use crate::errors::ErrorKind;
use crate::extract::{extract_bundled_libs, extract_spec};
use crate::imports::{all_imports_wf, create_import_library, eligible_imports,
    import_library_file_name, import_library_file_name_spec, stub_members, DllImport, ImportError};
use crate::member::{all_wf, Member, MemberView, NameSet};
use crate::read::{parse_archive, parse_archive_spec, ParseOutcome};
use crate::write::{build_archive, encode_archive};
use vstd::prelude::*;

verus! {

/// The members of a sub-archive that a skip set leaves in, in order.
pub open spec fn unskipped_members(ms: Seq<MemberView>, skip: Set<Seq<u8>>) -> Seq<MemberView>
    decreases ms.len(),
{
    if ms.len() == 0 {
        Seq::<MemberView>::empty()
    } else if skip.contains(ms.last().name) {
        unskipped_members(ms.drop_last(), skip)
    } else {
        unskipped_members(ms.drop_last(), skip).push(ms.last())
    }
}

/// A single-use accumulator for one output archive.
///
/// A session collects entries in enqueue order — object files one by one,
/// and the retained members of sub-archives — and a terminal `build`
/// consumes it; nothing is written before that. The enqueue order of the
/// entries is kept in the output. One owner mutates a session; it is not
/// meant to be shared. Platform builders form a closed set behind this
/// interface, selected once by the factory.
pub trait ArchiveBuilder {
    /// The entries enqueued so far, in order.
    spec fn members(&self) -> Seq<MemberView>;

    /// Enqueues one object file, to be copied verbatim into the output.
    fn add_file(&mut self, name: Vec<u8>, data: Vec<u8>)
        ensures
            final(self).members() == old(self).members().push(
                MemberView { name: name@, data: data@ },
            ),
    ;

    /// Enqueues the members of an existing archive, leaving out those
    /// whose names are in `skip`, and keeping the rest in their on-disk
    /// order.
    ///
    /// Fails only when the sub-archive's bytes cannot be read as a whole;
    /// the session is unchanged then.
    fn add_archive(&mut self, archive_bytes: &Vec<u8>, skip: &NameSet) -> (r: Result<
        (),
        ErrorKind,
    >)
        ensures
            match r {
                Ok(_) => match parse_archive_spec(archive_bytes@) {
                    ParseOutcome::Members(ms) => final(self).members() == old(self).members()
                        + unskipped_members(ms, skip@),
                    ParseOutcome::Fail(_) => false,
                },
                Err(k) => parse_archive_spec(archive_bytes@) == ParseOutcome::Fail(k)
                    && final(self).members() == old(self).members(),
            },
    ;

    /// Builds the output archive; terminal, the session is consumed.
    ///
    /// The entries are written in enqueue order. `None` means failure —
    /// some entry cannot be represented — and nothing is produced; the
    /// coarse yes-or-no outcome mirrors the success flag of platform
    /// archivers and is weaker on purpose than the typed errors of
    /// extraction.
    fn build(self) -> (r: Option<Vec<u8>>) where Self: Sized
        ensures
            r is Some <==> all_wf(self.members()),
            r matches Some(bytes) ==> bytes@ == encode_archive(self.members()),
    ;
}

/// The build session for the portable archive variant this crate writes.
pub struct ArArchiveBuilder {
    entries: Vec<Member>,
}

impl ArArchiveBuilder {
    /// A fresh session with nothing enqueued.
    pub fn new() -> (r: ArArchiveBuilder)
        ensures
            r.members() == Seq::<MemberView>::empty(),
    {
        let r = ArArchiveBuilder { entries: Vec::new() };
        assert(r.members() =~= Seq::<MemberView>::empty());
        r
    }

    /// The number of enqueued entries.
    pub fn len(&self) -> (r: usize)
        ensures
            r == self.members().len(),
    {
        self.entries.len()
    }
}

impl ArchiveBuilder for ArArchiveBuilder {
    closed spec fn members(&self) -> Seq<MemberView> {
        self.entries.deep_view()
    }

    fn add_file(&mut self, name: Vec<u8>, data: Vec<u8>) {
        let ghost m = MemberView { name: name@, data: data@ };
        self.entries.push(Member { name, data });
        assert(self.members() =~= old(self).members().push(m));
    }

    fn add_archive(&mut self, archive_bytes: &Vec<u8>, skip: &NameSet) -> (r: Result<
        (),
        ErrorKind,
    >) {
        let members = match parse_archive(archive_bytes) {
            Ok(v) => v,
            Err(k) => {
                return Err(k);
            },
        };
        let ghost ms = members.deep_view();
        proof {
            assert(ms.subrange(0, 0) =~= Seq::<MemberView>::empty());
            assert(old(self).members() + unskipped_members(ms.subrange(0, 0), skip@) =~= old(
                self,
            ).members());
        }
        let mut i: usize = 0;
        while i < members.len()
            invariant
                0 <= i <= members@.len(),
                ms == members.deep_view(),
                self.members() == old(self).members() + unskipped_members(
                    ms.subrange(0, i as int),
                    skip@,
                ),
            decreases members@.len() - i,
        {
            let m = &members[i];
            proof {
                assert(ms[i as int] == members@[i as int]@);
                assert(ms.subrange(0, (i + 1) as int).drop_last() =~= ms.subrange(0, i as int));
                assert(ms.subrange(0, (i + 1) as int).last() == ms[i as int]);
            }
            let ghost pre = self.members();
            if !skip.contains(&m.name) {
                self.entries.push(m.duplicate());
                proof {
                    assert(self.members() =~= pre.push(ms[i as int]));
                    assert(pre.push(ms[i as int]) =~= old(self).members() + unskipped_members(
                        ms.subrange(0, (i + 1) as int),
                        skip@,
                    ));
                }
            }
            i = i + 1;
        }
        assert(ms.subrange(0, ms.len() as int) =~= ms);
        Ok(())
    }

    fn build(self) -> (r: Option<Vec<u8>>) {
        build_archive(&self.entries)
    }
}

/// The process-wide factory: opens build sessions and exposes the two
/// operations that need no session, extraction and import-library
/// synthesis.
///
/// This crate reads and writes the portable archive variant, so the closed
/// set of platform builders has one member; a port with more would select
/// among them here, once, rather than inspecting the target at each call.
pub struct ArchiveBuilderBuilder;

impl ArchiveBuilderBuilder {
    /// The factory itself.
    pub fn new() -> (r: ArchiveBuilderBuilder) {
        ArchiveBuilderBuilder
    }

    /// Opens a fresh build session.
    pub fn new_archive_builder(&self) -> (r: ArArchiveBuilder)
        ensures
            r.members() == Seq::<MemberView>::empty(),
    {
        ArArchiveBuilder::new()
    }

    /// Synthesizes an import library for `lib_name` from its import
    /// descriptors: the file name to store it under in the caller's
    /// scratch directory, and the library's bytes. The returned name is
    /// the authoritative location; it does not depend on
    /// `is_direct_dependency`, which decides only which descriptors keep
    /// stubs.
    pub fn create_dll_import_lib(
        &self,
        lib_name: &Vec<u8>,
        dll_imports: &Vec<DllImport>,
        is_direct_dependency: bool,
    ) -> (r: Result<(Vec<u8>, Vec<u8>), ImportError>)
        requires
            dll_imports@.len() <= 99_999_999_999_999,
        ensures
            r is Ok <==> all_imports_wf(
                eligible_imports(dll_imports.deep_view(), is_direct_dependency),
            ),
            r matches Ok((file_name, bytes)) ==> file_name@ == import_library_file_name_spec(
                lib_name@,
            ) && bytes@ == encode_archive(
                stub_members(eligible_imports(dll_imports.deep_view(), is_direct_dependency)),
            ),
    {
        let bytes = match create_import_library(dll_imports, is_direct_dependency) {
            Ok(b) => b,
            Err(e) => {
                return Err(e);
            },
        };
        Ok((import_library_file_name(lib_name), bytes))
    }

    /// Extracts the bundled libraries named in `names` from an archive's
    /// bytes, walking the members in on-disk order; the caller writes each
    /// returned member into its output directory, in order. The first
    /// failing stage of the first failing member aborts the run with its
    /// kind, and nothing is handed back then.
    pub fn extract_bundled_libs(&self, archive_bytes: &Vec<u8>, names: &NameSet) -> (r: Result<
        Vec<Member>,
        ErrorKind,
    >)
        ensures
            match r {
                Ok(plan) => extract_spec(archive_bytes@, names@) == Ok::<
                    Seq<MemberView>,
                    ErrorKind,
                >(plan.deep_view()),
                Err(k) => extract_spec(archive_bytes@, names@) == Err::<
                    Seq<MemberView>,
                    ErrorKind,
                >(k),
            },
    {
        extract_bundled_libs(archive_bytes, names)
    }
}

} // verus!
