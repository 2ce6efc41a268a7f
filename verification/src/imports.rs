//! Synthesizing import libraries from dynamic-symbol descriptors.
//!
//! An import library is a small archive that stands in for a dynamic
//! library at link time: one stub member per importable symbol. The
//! synthesizer is a pure function of its inputs — it reads no build
//! session — and fails fast on a malformed descriptor: partial import
//! libraries are never produced.

use crate::decimal::{dec_digits, lemma_dec_digits_len, pow10, push_dec};
use crate::fields::push_all;
use crate::member::{wf_member, Member, MemberView};
use crate::write::{build_archive, encode_archive};
use vstd::prelude::*;

verus! {

/// How an imported symbol is called.
#[derive(Clone, Copy, Debug, PartialEq, Eq, Structural)]
pub enum CallConv {
    C,
    Stdcall,
    Fastcall,
    Vectorcall,
}

/// One symbol that must be importable from a not-yet-linked dynamic
/// library: the exported name, the binding — by ordinal when `ordinal` is
/// set, by name otherwise — and the calling convention.
pub struct DllImport {
    pub name: Vec<u8>,
    pub ordinal: Option<u16>,
    pub convention: CallConv,
}

/// The mathematical image of an import descriptor.
#[verifier::ext_equal]
pub struct DllImportView {
    pub name: Seq<u8>,
    pub ordinal: Option<u16>,
    pub convention: CallConv,
}

impl View for DllImport {
    type V = DllImportView;

    open spec fn view(&self) -> DllImportView {
        DllImportView { name: self.name@, ordinal: self.ordinal, convention: self.convention }
    }
}

impl DeepView for DllImport {
    type V = DllImportView;

    open spec fn deep_view(&self) -> DllImportView {
        self.view()
    }
}

impl DllImport {
    /// A fresh copy of this descriptor.
    pub fn duplicate(&self) -> (r: DllImport)
        ensures
            r@ == self@,
    {
        DllImport {
            name: crate::member::copy_bytes(&self.name),
            ordinal: self.ordinal,
            convention: self.convention,
        }
    }
}

/// The encoding tag of a calling convention.
pub open spec fn conv_tag(c: CallConv) -> u8 {
    match c {
        CallConv::C => 0,
        CallConv::Stdcall => 1,
        CallConv::Fastcall => 2,
        CallConv::Vectorcall => 3,
    }
}

/// A descriptor the stub encoding can represent: a nonempty symbol name
/// whose length fits the stub's 2-byte length field.
pub open spec fn wf_import(d: DllImportView) -> bool {
    1 <= d.name.len() <= 65535
}

/// One import stub record: a binding flag, the ordinal in two
/// little-endian bytes (zero when the binding is by name), the calling
/// convention tag, then the symbol name after its 2-byte length.
pub open spec fn encode_import(d: DllImportView) -> Seq<u8>
    recommends
        wf_import(d),
{
    let o: u16 = match d.ordinal {
        Some(v) => v,
        None => 0u16,
    };
    let flag: u8 = match d.ordinal {
        Some(_) => 1u8,
        None => 0u8,
    };
    seq![
        flag,
        (o % 256) as u8,
        (o / 256) as u8,
        conv_tag(d.convention),
        (d.name.len() % 256) as u8,
        (d.name.len() / 256) as u8,
    ] + d.name
}

/// The descriptors eligible for stub generation, in order: all of them
/// for a direct dependency; for an indirect one the name-bound descriptors
/// are pruned and only ordinal-bound symbols keep stubs.
pub open spec fn eligible_imports(ds: Seq<DllImportView>, is_direct: bool) -> Seq<DllImportView>
    decreases ds.len(),
{
    if ds.len() == 0 {
        Seq::<DllImportView>::empty()
    } else if is_direct || ds.last().ordinal is Some {
        eligible_imports(ds.drop_last(), is_direct).push(ds.last())
    } else {
        eligible_imports(ds.drop_last(), is_direct)
    }
}

/// Every descriptor of the sequence is representable.
pub open spec fn all_imports_wf(ds: Seq<DllImportView>) -> bool {
    forall|i: int| 0 <= i < ds.len() ==> wf_import(ds[i])
}

/// The archive members of an import library: one stub per descriptor,
/// named `s0`, `s1`, and so on in order.
pub open spec fn stub_members(ds: Seq<DllImportView>) -> Seq<MemberView> {
    Seq::new(
        ds.len(),
        |i: int| MemberView { name: seq![115u8] + dec_digits(i as nat), data: encode_import(ds[i]) },
    )
}

/// The file name an import library is stored under in the caller's
/// scratch directory: the library name followed by `_imports.lib`. It does
/// not depend on whether the dependency is direct.
pub open spec fn import_library_file_name_spec(lib_name: Seq<u8>) -> Seq<u8> {
    lib_name + seq![95u8, 105u8, 109u8, 112u8, 111u8, 114u8, 116u8, 115u8, 46u8, 108u8, 105u8, 98u8]
}

/// The file name for the import library of `lib_name`.
pub fn import_library_file_name(lib_name: &Vec<u8>) -> (r: Vec<u8>)
    ensures
        r@ == import_library_file_name_spec(lib_name@),
{
    let mut r = crate::member::copy_bytes(lib_name);
    r.push(95);
    r.push(105);
    r.push(109);
    r.push(112);
    r.push(111);
    r.push(114);
    r.push(116);
    r.push(115);
    r.push(46);
    r.push(108);
    r.push(105);
    r.push(98);
    assert(r@ =~= import_library_file_name_spec(lib_name@));
    r
}

/// The one failure of import-library synthesis: an eligible descriptor
/// that no stub can encode.
#[derive(Clone, Copy, Debug, PartialEq, Eq, Structural)]
pub enum ImportError {
    UnsupportedDescriptor,
}

/// The stub member name of the `i`-th descriptor.
fn stub_name(i: u64) -> (r: Vec<u8>)
    ensures
        r@ == seq![115u8] + dec_digits(i as nat),
{
    let mut r: Vec<u8> = Vec::new();
    r.push(115);
    push_dec(&mut r, i);
    assert(r@ =~= seq![115u8] + dec_digits(i as nat));
    r
}

/// The stub record of one descriptor.
fn encode_import_entry(d: &DllImport) -> (r: Vec<u8>)
    requires
        wf_import(d@),
    ensures
        r@ == encode_import(d@),
{
    let mut out: Vec<u8> = Vec::new();
    match d.ordinal {
        Some(o) => {
            out.push(1);
            out.push((o % 256) as u8);
            out.push((o / 256) as u8);
        },
        None => {
            out.push(0);
            out.push(0);
            out.push(0);
        },
    }
    let tag: u8 = match d.convention {
        CallConv::C => 0,
        CallConv::Stdcall => 1,
        CallConv::Fastcall => 2,
        CallConv::Vectorcall => 3,
    };
    out.push(tag);
    let len = d.name.len();
    out.push((len % 256) as u8);
    out.push((len / 256) as u8);
    push_all(&mut out, &d.name);
    assert(out@ =~= encode_import(d@));
    out
}

/// Synthesizes the import library for a list of import descriptors.
///
/// On success the bytes are a whole archive: one stub member per eligible
/// descriptor, in descriptor order. A direct dependency keeps the full
/// stub set; an indirect one keeps only ordinal-bound symbols. Fails —
/// producing nothing — exactly when some eligible descriptor is malformed.
/// The length bound on the descriptor list keeps every stub name inside
/// the archive's 15-byte member name field.
pub fn create_import_library(dll_imports: &Vec<DllImport>, is_direct_dependency: bool) -> (r:
    Result<Vec<u8>, ImportError>)
    requires
        dll_imports@.len() <= 99_999_999_999_999,
    ensures
        r is Ok <==> all_imports_wf(
            eligible_imports(dll_imports.deep_view(), is_direct_dependency),
        ),
        r matches Ok(bytes) ==> bytes@ == encode_archive(
            stub_members(eligible_imports(dll_imports.deep_view(), is_direct_dependency)),
        ),
{
    let ghost ds = dll_imports.deep_view();
    let ghost elig_spec = eligible_imports(ds, is_direct_dependency);
    let mut elig: Vec<DllImport> = Vec::new();
    proof {
        assert(elig.deep_view() =~= Seq::<DllImportView>::empty());
        assert(ds.subrange(0, 0) =~= Seq::<DllImportView>::empty());
    }
    let mut i: usize = 0;
    while i < dll_imports.len()
        invariant
            0 <= i <= dll_imports@.len(),
            ds == dll_imports.deep_view(),
            elig.deep_view() == eligible_imports(ds.subrange(0, i as int), is_direct_dependency),
            elig@.len() <= i,
        decreases dll_imports@.len() - i,
    {
        let d = &dll_imports[i];
        proof {
            assert(ds[i as int] == dll_imports@[i as int]@);
            assert(ds.subrange(0, (i + 1) as int).drop_last() =~= ds.subrange(0, i as int));
            assert(ds.subrange(0, (i + 1) as int).last() == ds[i as int]);
        }
        let ghost pre = elig.deep_view();
        if is_direct_dependency || d.ordinal.is_some() {
            elig.push(d.duplicate());
            proof {
                assert(elig.deep_view() =~= pre.push(ds[i as int]));
            }
        }
        i = i + 1;
    }
    proof {
        assert(ds.subrange(0, ds.len() as int) =~= ds);
        assert(elig.deep_view() == elig_spec);
    }
    let mut i: usize = 0;
    while i < elig.len()
        invariant
            0 <= i <= elig@.len(),
            elig_spec == eligible_imports(dll_imports.deep_view(), is_direct_dependency),
            elig.deep_view() == elig_spec,
            forall|j: int| 0 <= j < i ==> wf_import(elig_spec[j]),
        decreases elig@.len() - i,
    {
        let d = &elig[i];
        if d.name.len() == 0 || d.name.len() > 65535 {
            proof {
                assert(elig_spec[i as int] == elig@[i as int]@);
                assert(!wf_import(elig_spec[i as int]));
                assert(elig_spec.len() == elig@.len());
                assert(!all_imports_wf(elig_spec));
            }
            return Err(ImportError::UnsupportedDescriptor);
        }
        proof {
            assert(elig_spec[i as int] == elig@[i as int]@);
        }
        i = i + 1;
    }
    let mut members: Vec<Member> = Vec::new();
    let mut i: usize = 0;
    while i < elig.len()
        invariant
            0 <= i <= elig@.len(),
            elig@.len() <= dll_imports@.len() <= 99_999_999_999_999,
            elig_spec == eligible_imports(dll_imports.deep_view(), is_direct_dependency),
            elig.deep_view() == elig_spec,
            all_imports_wf(elig_spec),
            members.deep_view().len() == i,
            forall|j: int| 0 <= j < i ==> members.deep_view()[j] == stub_members(elig_spec)[j],
        decreases elig@.len() - i,
    {
        proof {
            assert(elig_spec[i as int] == elig@[i as int]@);
            assert(wf_import(elig_spec[i as int]));
        }
        let name = stub_name(i as u64);
        let data = encode_import_entry(&elig[i]);
        let ghost pre = members.deep_view();
        members.push(Member { name, data });
        proof {
            assert(members.deep_view() =~= pre.push(
                MemberView {
                    name: seq![115u8] + dec_digits(i as nat),
                    data: encode_import(elig_spec[i as int]),
                },
            ));
        }
        i = i + 1;
    }
    proof {
        assert(members.deep_view() =~= stub_members(elig_spec));
        lemma_stub_members_wf(elig_spec);
    }
    match build_archive(&members) {
        Some(bytes) => Ok(bytes),
        None => {
            proof {
                assert(crate::member::all_wf(members.deep_view()));
            }
            vstd::pervasive::unreached()
        },
    }
}

/// A pruned descriptor list is never longer than the full one.
pub proof fn lemma_eligible_imports_len(ds: Seq<DllImportView>, is_direct: bool)
    ensures
        eligible_imports(ds, is_direct).len() <= ds.len(),
    decreases ds.len(),
{
    if ds.len() > 0 {
        lemma_eligible_imports_len(ds.drop_last(), is_direct);
    }
}

/// Stub members of well-formed descriptors fit the archive writer: the
/// running number keeps the name short and the record is far below the
/// size field's bound.
pub proof fn lemma_stub_members_wf(ds: Seq<DllImportView>)
    requires
        all_imports_wf(ds),
        ds.len() <= 99_999_999_999_999,
    ensures
        crate::member::all_wf(stub_members(ds)),
{
    assert(pow10(14) == 100_000_000_000_000) by {
        reveal_with_fuel(pow10, 15);
    }
    assert forall|i: int| 0 <= i < stub_members(ds).len() implies wf_member(
        stub_members(ds)[i],
    ) by {
        lemma_dec_digits_len(i as nat, 14);
        assert(stub_members(ds)[i].name.len() <= 15);
        assert(stub_members(ds)[i].name[0] == 115u8);
        assert(!crate::member::reserved_name(stub_members(ds)[i].name));
        assert(stub_members(ds)[i].data.len() == 6 + ds[i].name.len());
    }
}

} // verus!
