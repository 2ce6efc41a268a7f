//! Extracting bundled native libraries out of an archive.
//!
//! Extraction is a pure filter-and-materialize pass that walks the archive
//! member by member, in on-disk order. For each member the header is read,
//! the payload bounds are checked, and the name is decoded as text; the
//! first failing stage of the first failing member aborts the whole
//! extraction with its kind. A member is kept exactly when its name is in
//! the caller's name set; payloads are neither renamed nor validated.
//! Writing the kept members in order makes the last member under a shared
//! name win, and overwriting is deterministic.

use crate::decimal::{parse_size_field, parse_size_field_exec};
use crate::errors::ErrorKind;
use crate::fields::{ar_magic, decode_name, read_name_field};
use crate::member::{all_wf, copy_range, name_is_unusable, reserved_name, Member, MemberView,
    NameSet};
use crate::write::encode_archive;
use crate::read::{magic_ok, parse_archive_spec, parse_members_from, ParseOutcome};
use vstd::prelude::*;
use vstd::utf8::valid_utf8;

verus! {

/// Whether every member name is valid text.
pub open spec fn all_names_utf8(ms: Seq<MemberView>) -> bool {
    forall|i: int| 0 <= i < ms.len() ==> valid_utf8(ms[i].name)
}

/// The members whose names are in `names`, in archive order.
pub open spec fn retained_members(ms: Seq<MemberView>, names: Set<Seq<u8>>) -> Seq<MemberView>
    decreases ms.len(),
{
    if ms.len() == 0 {
        Seq::<MemberView>::empty()
    } else if names.contains(ms.last().name) {
        retained_members(ms.drop_last(), names).push(ms.last())
    } else {
        retained_members(ms.drop_last(), names)
    }
}

/// What extraction yields from `pos` on: the members to keep, in order, or
/// the kind of the first failure.
///
/// Each member is handled in turn: its header (end marker, size field, a
/// usable name) gives `ReadEntry`, its payload bounds give
/// `ArchiveMember`, and a name that is not valid text gives `ConvertName`
/// — whether or not that member was asked for. A member is kept when its
/// name is in `names`.
pub open spec fn extract_members_from(bytes: Seq<u8>, pos: int, names: Set<Seq<u8>>) -> Result<
    Seq<MemberView>,
    ErrorKind,
>
    decreases bytes.len() - pos
        when 0 <= pos <= bytes.len()
{
    if pos == bytes.len() {
        Ok(Seq::<MemberView>::empty())
    } else if bytes.len() - pos < 60 {
        Err(ErrorKind::ReadEntry)
    } else if !(bytes[pos + 58] == 96u8 && bytes[pos + 59] == 10u8) {
        Err(ErrorKind::ReadEntry)
    } else {
        match parse_size_field(bytes.subrange(pos + 48, pos + 58)) {
            None => Err(ErrorKind::ReadEntry),
            Some(size) => {
                let name = decode_name(bytes.subrange(pos, pos + 16));
                if name.len() == 0 || reserved_name(name) {
                    Err(ErrorKind::ReadEntry)
                } else if pos + 60 + size > bytes.len() {
                    Err(ErrorKind::ArchiveMember)
                } else if !valid_utf8(name) {
                    Err(ErrorKind::ConvertName)
                } else {
                    let m = MemberView { name, data: bytes.subrange(pos + 60, pos + 60 + size) };
                    let next = if size % 2 == 1 && pos + 60 + size < bytes.len() {
                        pos + 61 + size
                    } else {
                        pos + 60 + size
                    };
                    match extract_members_from(bytes, next, names) {
                        Ok(rest) => Ok(
                            if names.contains(name) {
                                seq![m] + rest
                            } else {
                                rest
                            },
                        ),
                        Err(k) => Err(k),
                    }
                }
            },
        }
    }
}

/// What extracting from a whole archive yields: the magic line first, then
/// the members in order.
pub open spec fn extract_spec(bytes: Seq<u8>, names: Set<Seq<u8>>) -> Result<
    Seq<MemberView>,
    ErrorKind,
> {
    if bytes.len() < 8 || bytes.subrange(0, 8) != ar_magic() {
        Err(ErrorKind::ParseArchive)
    } else {
        extract_members_from(bytes, 8, names)
    }
}

/// Puts already-kept members in front of an extraction outcome.
pub open spec fn prepend_extracted(pre: Seq<MemberView>, o: Result<Seq<MemberView>, ErrorKind>) -> Result<
    Seq<MemberView>,
    ErrorKind,
> {
    match o {
        Ok(rest) => Ok(pre + rest),
        Err(k) => Err(k),
    }
}

/// Prepending nothing changes nothing.
proof fn lemma_prepend_extracted_empty(o: Result<Seq<MemberView>, ErrorKind>)
    ensures
        prepend_extracted(Seq::<MemberView>::empty(), o) == o,
{
    match o {
        Ok(rest) => {
            assert(Seq::<MemberView>::empty() + rest =~= rest);
        },
        Err(_) => {},
    }
}

/// Prepending one member then the rest is prepending them together.
proof fn lemma_prepend_extracted_join(
    pre: Seq<MemberView>,
    m: MemberView,
    o: Result<Seq<MemberView>, ErrorKind>,
)
    ensures
        prepend_extracted(pre, prepend_extracted(seq![m], o)) == prepend_extracted(pre.push(m), o),
{
    match o {
        Ok(rest) => {
            assert(pre + (seq![m] + rest) =~= pre.push(m) + rest);
        },
        Err(_) => {},
    }
}

/// Relies on std::str::from_utf8: it returns `Ok` exactly on byte slices
/// that are valid UTF-8, which is what vstd's `valid_utf8` spells out.
#[verifier::external_body]
fn name_is_text(name: &Vec<u8>) -> (r: bool)
    ensures
        r == valid_utf8(name@),
{
    std::str::from_utf8(name.as_slice()).is_ok()
}

/// Extracts the bundled libraries named in `names` from an archive's
/// bytes.
///
/// The members are walked in on-disk order and exactly those whose names
/// are in `names` come back, in that order, for the caller to write into
/// its output directory under their member names. The first failing stage
/// aborts the whole run with its kind — so a malformed archive causes zero
/// writes — and a member name that is not valid text aborts it whether or
/// not that member was asked for.
pub fn extract_bundled_libs(archive_bytes: &Vec<u8>, names: &NameSet) -> (r: Result<
    Vec<Member>,
    ErrorKind,
>)
    ensures
        match r {
            Ok(plan) => extract_spec(archive_bytes@, names@) == Ok::<Seq<MemberView>, ErrorKind>(
                plan.deep_view(),
            ),
            Err(k) => extract_spec(archive_bytes@, names@) == Err::<Seq<MemberView>, ErrorKind>(k),
        },
{
    let n = archive_bytes.len();
    if n < 8 {
        return Err(ErrorKind::ParseArchive);
    }
    if !magic_ok(archive_bytes) {
        return Err(ErrorKind::ParseArchive);
    }
    let mut pos: usize = 8;
    let mut plan: Vec<Member> = Vec::new();
    proof {
        assert(plan.deep_view() =~= Seq::<MemberView>::empty());
        lemma_prepend_extracted_empty(extract_members_from(archive_bytes@, 8, names@));
    }
    while pos < n
        invariant
            8 <= pos <= n,
            n == archive_bytes@.len(),
            extract_spec(archive_bytes@, names@) == prepend_extracted(
                plan.deep_view(),
                extract_members_from(archive_bytes@, pos as int, names@),
            ),
        decreases n - pos,
    {
        let ghost pre = plan.deep_view();
        if n - pos < 60 {
            return Err(ErrorKind::ReadEntry);
        }
        if !(archive_bytes[pos + 58] == 96 && archive_bytes[pos + 59] == 10) {
            return Err(ErrorKind::ReadEntry);
        }
        let size = match parse_size_field_exec(archive_bytes, pos + 48) {
            Some(v) => v,
            None => {
                return Err(ErrorKind::ReadEntry);
            },
        };
        let name = read_name_field(archive_bytes, pos);
        if name_is_unusable(&name) {
            return Err(ErrorKind::ReadEntry);
        }
        let after_header = n - pos - 60;
        if size > after_header as u64 {
            return Err(ErrorKind::ArchiveMember);
        }
        if !name_is_text(&name) {
            return Err(ErrorKind::ConvertName);
        }
        let size_us = size as usize;
        let ghost m = MemberView {
            name: decode_name(archive_bytes@.subrange(pos as int, pos as int + 16)),
            data: archive_bytes@.subrange(pos as int + 60, pos as int + 60 + size as int),
        };
        let next = if size_us % 2 == 1 && pos + 60 + size_us < n {
            pos + 61 + size_us
        } else {
            pos + 60 + size_us
        };
        let wanted = names.contains(&name);
        proof {
            match extract_members_from(archive_bytes@, next as int, names@) {
                Ok(_) => {},
                Err(_) => {},
            }
        }
        if wanted {
            let data = copy_range(archive_bytes, pos + 60, pos + 60 + size_us);
            plan.push(Member { name, data });
            proof {
                assert(plan.deep_view() =~= pre.push(m));
                lemma_prepend_extracted_join(
                    pre,
                    m,
                    extract_members_from(archive_bytes@, next as int, names@),
                );
            }
        }
        pos = next;
    }
    proof {
        assert(extract_members_from(archive_bytes@, pos as int, names@) == Ok::<
            Seq<MemberView>,
            ErrorKind,
        >(Seq::<MemberView>::empty()));
        assert(plan.deep_view() + Seq::<MemberView>::empty() =~= plan.deep_view());
    }
    Ok(plan)
}

/// Filters already-read members down to the ones to extract.
///
/// For callers that hold a reader's member list: every member's name must
/// be valid text, and the first that is not aborts the pass with
/// `ConvertName`, whether or not it was asked for.
pub fn extract_plan(members: &Vec<Member>, names: &NameSet) -> (r: Result<Vec<Member>, ErrorKind>)
    ensures
        match r {
            Ok(plan) => all_names_utf8(members.deep_view()) && plan.deep_view()
                == retained_members(members.deep_view(), names@),
            Err(k) => k == ErrorKind::ConvertName && !all_names_utf8(members.deep_view()),
        },
{
    let ghost ms = members.deep_view();
    let mut plan: Vec<Member> = Vec::new();
    proof {
        assert(plan.deep_view() =~= Seq::<MemberView>::empty());
        assert(ms.subrange(0, 0) =~= Seq::<MemberView>::empty());
    }
    let mut i: usize = 0;
    while i < members.len()
        invariant
            0 <= i <= members@.len(),
            ms == members.deep_view(),
            forall|j: int| 0 <= j < i ==> valid_utf8(ms[j].name),
            plan.deep_view() == retained_members(ms.subrange(0, i as int), names@),
        decreases members@.len() - i,
    {
        let m = &members[i];
        proof {
            assert(ms[i as int] == members@[i as int]@);
        }
        if !name_is_text(&m.name) {
            proof {
                assert(!valid_utf8(ms[i as int].name));
            }
            return Err(ErrorKind::ConvertName);
        }
        let ghost pre = plan.deep_view();
        let wanted = names.contains(&m.name);
        if wanted {
            plan.push(m.duplicate());
            proof {
                assert(plan.deep_view() =~= pre.push(ms[i as int]));
            }
        }
        proof {
            assert(ms.subrange(0, (i + 1) as int).drop_last() =~= ms.subrange(0, i as int));
            assert(ms.subrange(0, (i + 1) as int).last() == ms[i as int]);
        }
        i = i + 1;
    }
    assert(ms.subrange(0, ms.len() as int) =~= ms);
    Ok(plan)
}

/// Filtering keeps its shape under taking one member off the front.
proof fn lemma_retained_cons(m: MemberView, rest: Seq<MemberView>, names: Set<Seq<u8>>)
    ensures
        retained_members(seq![m] + rest, names) == if names.contains(m.name) {
            seq![m] + retained_members(rest, names)
        } else {
            retained_members(rest, names)
        },
    decreases rest.len(),
{
    let ms = seq![m] + rest;
    if rest.len() == 0 {
        assert(ms.drop_last() =~= Seq::<MemberView>::empty());
        assert(ms.last() == m);
        assert(retained_members(Seq::<MemberView>::empty(), names) == Seq::<MemberView>::empty());
        if names.contains(m.name) {
            assert(Seq::<MemberView>::empty().push(m) =~= seq![m] + Seq::<MemberView>::empty());
        }
    } else {
        assert(ms.drop_last() =~= seq![m] + rest.drop_last());
        assert(ms.last() == rest.last());
        lemma_retained_cons(m, rest.drop_last(), names);
        if names.contains(rest.last().name) {
            if names.contains(m.name) {
                assert((seq![m] + retained_members(rest.drop_last(), names)).push(rest.last())
                    =~= seq![m] + retained_members(rest.drop_last(), names).push(rest.last()));
            }
        }
    }
}

/// Extraction agrees with the reader: on an archive whose members all read
/// back, the outcome is the requested filter of those members when every
/// name is text, and `ConvertName` otherwise.
pub proof fn lemma_extract_agrees_with_parse(bytes: Seq<u8>, names: Set<Seq<u8>>)
    ensures
        match parse_archive_spec(bytes) {
            ParseOutcome::Members(ms) => extract_spec(bytes, names) == if all_names_utf8(ms) {
                Ok::<Seq<MemberView>, ErrorKind>(retained_members(ms, names))
            } else {
                Err::<Seq<MemberView>, ErrorKind>(ErrorKind::ConvertName)
            },
            ParseOutcome::Fail(_) => true,
        },
{
    if bytes.len() >= 8 && bytes.subrange(0, 8) == ar_magic() {
        lemma_extract_members_agree(bytes, 8, names);
    }
}

/// The member-by-member half of `lemma_extract_agrees_with_parse`.
proof fn lemma_extract_members_agree(bytes: Seq<u8>, pos: int, names: Set<Seq<u8>>)
    requires
        0 <= pos <= bytes.len(),
    ensures
        match parse_members_from(bytes, pos) {
            ParseOutcome::Members(ms) => extract_members_from(bytes, pos, names) == if
            all_names_utf8(ms) {
                Ok::<Seq<MemberView>, ErrorKind>(retained_members(ms, names))
            } else {
                Err::<Seq<MemberView>, ErrorKind>(ErrorKind::ConvertName)
            },
            ParseOutcome::Fail(_) => true,
        },
    decreases bytes.len() - pos,
{
    if pos == bytes.len() {
        assert(retained_members(Seq::<MemberView>::empty(), names) == Seq::<MemberView>::empty());
    } else if let ParseOutcome::Members(ms) = parse_members_from(bytes, pos) {
        let size = parse_size_field(bytes.subrange(pos + 48, pos + 58))->Some_0;
        let name = decode_name(bytes.subrange(pos, pos + 16));
        let m = MemberView { name, data: bytes.subrange(pos + 60, pos + 60 + size) };
        let next = if size % 2 == 1 && pos + 60 + size < bytes.len() {
            pos + 61 + size
        } else {
            pos + 60 + size
        };
        let rest = parse_members_from(bytes, next)->Members_0;
        assert(parse_members_from(bytes, next) == ParseOutcome::Members(rest));
        assert(ms == seq![m] + rest);
        assert(ms[0] == m);
        lemma_extract_members_agree(bytes, next, names);
        if !valid_utf8(name) {
            assert(!all_names_utf8(ms));
        } else {
            assert(forall|i: int| 0 <= i < rest.len() ==> rest[i] == ms[i + 1]);
            lemma_retained_cons(m, rest, names);
            if all_names_utf8(rest) {
                assert(all_names_utf8(ms)) by {
                    assert(forall|i: int| 1 <= i < ms.len() ==> ms[i] == rest[i - 1]);
                }
            } else {
                let i = choose|i: int| 0 <= i < rest.len() && !valid_utf8(rest[i].name);
                assert(ms[i + 1] == rest[i]);
                assert(!all_names_utf8(ms));
            }
        }
    }
}

/// The directory contents after writing `plan` in order into `dir`: each
/// write binds a file name to a payload, and a later write wins.
pub open spec fn apply_writes(dir: Map<Seq<u8>, Seq<u8>>, plan: Seq<MemberView>) -> Map<
    Seq<u8>,
    Seq<u8>,
>
    decreases plan.len(),
{
    if plan.len() == 0 {
        dir
    } else {
        apply_writes(dir, plan.drop_last()).insert(plan.last().name, plan.last().data)
    }
}

/// Whether some member of `ms` is named `n`.
pub open spec fn has_name(ms: Seq<MemberView>, n: Seq<u8>) -> bool {
    exists|i: int| 0 <= i < ms.len() && ms[i].name == n
}

/// The payload of the last member of `ms` named `n`.
pub open spec fn last_payload(ms: Seq<MemberView>, n: Seq<u8>) -> Seq<u8>
    recommends
        has_name(ms, n),
    decreases ms.len(),
{
    if ms.len() == 0 {
        Seq::<u8>::empty()
    } else if ms.last().name == n {
        ms.last().data
    } else {
        last_payload(ms.drop_last(), n)
    }
}

/// Extraction writes exactly the requested names that the archive has.
///
/// Starting from an empty directory, writing the extraction plan of `ms`
/// and `names` produces one file for each name in `names` that some member
/// bears — holding the payload of the last such member in archive order —
/// and nothing else.
pub proof fn lemma_extract_writes_exact(ms: Seq<MemberView>, names: Set<Seq<u8>>)
    ensures
        apply_writes(Map::<Seq<u8>, Seq<u8>>::empty(), retained_members(ms, names)) == Map::new(
            |n: Seq<u8>| names.contains(n) && has_name(ms, n),
            |n: Seq<u8>| last_payload(ms, n),
        ),
    decreases ms.len(),
{
    let lhs = apply_writes(Map::<Seq<u8>, Seq<u8>>::empty(), retained_members(ms, names));
    let rhs = Map::new(
        |n: Seq<u8>| names.contains(n) && has_name(ms, n),
        |n: Seq<u8>| last_payload(ms, n),
    );
    if ms.len() == 0 {
        assert(lhs =~= rhs);
    } else {
        let d = ms.drop_last();
        let last = ms.last();
        lemma_extract_writes_exact(d, names);
        let prev = Map::new(
            |n: Seq<u8>| names.contains(n) && has_name(d, n),
            |n: Seq<u8>| last_payload(d, n),
        );
        assert forall|n: Seq<u8>| #[trigger] has_name(d, n) implies has_name(ms, n) by {
            let i = choose|i: int| 0 <= i < d.len() && d[i].name == n;
            assert(ms[i] == d[i]);
        }
        assert forall|n: Seq<u8>| #[trigger] has_name(ms, n) && last.name != n implies has_name(
            d,
            n,
        ) && last_payload(ms, n) == last_payload(d, n) by {
            let i = choose|i: int| 0 <= i < ms.len() && ms[i].name == n;
            assert(i < ms.len() - 1);
            assert(d[i] == ms[i]);
        }
        assert(ms[ms.len() - 1] == last);
        assert(has_name(ms, last.name));
        if names.contains(last.name) {
            assert(retained_members(ms, names) == retained_members(d, names).push(last));
            let plan = retained_members(d, names).push(last);
            assert(plan.drop_last() =~= retained_members(d, names));
            assert(plan.last() == last);
            assert(lhs == prev.insert(last.name, last.data));
            assert(lhs =~= rhs);
        } else {
            assert(lhs == prev);
            assert(lhs =~= rhs);
        }
    }
}

/// The settled directory does not depend on what stood under the written
/// names before: writing a plan lays `apply_writes(empty, plan)` over the
/// directory.
pub proof fn lemma_apply_writes_union(dir: Map<Seq<u8>, Seq<u8>>, plan: Seq<MemberView>)
    ensures
        apply_writes(dir, plan) == dir.union_prefer_right(
            apply_writes(Map::<Seq<u8>, Seq<u8>>::empty(), plan),
        ),
    decreases plan.len(),
{
    if plan.len() == 0 {
        assert(dir.union_prefer_right(Map::<Seq<u8>, Seq<u8>>::empty()) =~= dir);
    } else {
        lemma_apply_writes_union(dir, plan.drop_last());
        assert(dir.union_prefer_right(
            apply_writes(Map::<Seq<u8>, Seq<u8>>::empty(), plan.drop_last()),
        ).insert(plan.last().name, plan.last().data) =~= dir.union_prefer_right(
            apply_writes(Map::<Seq<u8>, Seq<u8>>::empty(), plan.drop_last()).insert(
                plan.last().name,
                plan.last().data,
            ),
        ));
    }
}

/// Running the same extraction twice into the same directory settles the
/// same files as running it once: overwriting is deterministic.
pub proof fn lemma_extract_idempotent(dir: Map<Seq<u8>, Seq<u8>>, plan: Seq<MemberView>)
    ensures
        apply_writes(apply_writes(dir, plan), plan) == apply_writes(dir, plan),
{
    let once = apply_writes(dir, plan);
    let f = apply_writes(Map::<Seq<u8>, Seq<u8>>::empty(), plan);
    lemma_apply_writes_union(dir, plan);
    lemma_apply_writes_union(once, plan);
    assert(dir.union_prefer_right(f).union_prefer_right(f) =~= dir.union_prefer_right(f));
}

/// The payload of the last member named `n` is the payload at the last
/// index bearing `n`.
proof fn lemma_last_payload_at(ms: Seq<MemberView>, n: Seq<u8>, j: int)
    requires
        0 <= j < ms.len(),
        ms[j].name == n,
        forall|k: int| j < k < ms.len() ==> ms[k].name != n,
    ensures
        last_payload(ms, n) == ms[j].data,
    decreases ms.len(),
{
    if j == ms.len() - 1 {
        assert(ms.last() == ms[j]);
    } else {
        assert(ms.last().name != n);
        let d = ms.drop_last();
        assert(d[j] == ms[j]);
        assert(forall|k: int| j < k < d.len() ==> d[k] == ms[k]);
        lemma_last_payload_at(d, n, j);
    }
}

/// A name set that holds every member name keeps every member.
proof fn lemma_retained_all(ms: Seq<MemberView>, names: Set<Seq<u8>>)
    requires
        forall|k: int| 0 <= k < ms.len() ==> names.contains(ms[k].name),
    ensures
        retained_members(ms, names) == ms,
    decreases ms.len(),
{
    if ms.len() > 0 {
        let d = ms.drop_last();
        assert(forall|k: int| 0 <= k < d.len() ==> d[k] == ms[k]);
        lemma_retained_all(d, names);
        assert(names.contains(ms[ms.len() - 1].name));
        assert(d.push(ms.last()) =~= ms);
    }
}

/// An archive built from entries with pairwise distinct names, read back
/// and extracted with every one of those names requested, settles exactly
/// one file per entry, holding that entry's payload.
pub proof fn lemma_build_extract_settles_entries(ms: Seq<MemberView>, names: Set<Seq<u8>>)
    requires
        all_wf(ms),
        forall|k: int| 0 <= k < ms.len() ==> names.contains(ms[k].name),
        forall|k: int, l: int| 0 <= k < l < ms.len() ==> ms[k].name != ms[l].name,
    ensures
        parse_archive_spec(encode_archive(ms)) == ParseOutcome::Members(ms),
        retained_members(ms, names) == ms,
        apply_writes(Map::<Seq<u8>, Seq<u8>>::empty(), ms).dom() == Set::new(
            |n: Seq<u8>| has_name(ms, n),
        ),
        forall|i: int| 0 <= i < ms.len() ==> apply_writes(
            Map::<Seq<u8>, Seq<u8>>::empty(),
            ms,
        )[ms[i].name] == ms[i].data,
{
    crate::laws::lemma_archive_round_trip(ms);
    lemma_retained_all(ms, names);
    lemma_extract_writes_exact(ms, names);
    let settled = apply_writes(Map::<Seq<u8>, Seq<u8>>::empty(), ms);
    assert(settled.dom() =~= Set::new(|n: Seq<u8>| has_name(ms, n))) by {
        assert forall|n: Seq<u8>| #[trigger] has_name(ms, n) implies names.contains(n) by {
            let k = choose|k: int| 0 <= k < ms.len() && ms[k].name == n;
            assert(names.contains(ms[k].name));
        }
    }
    assert forall|i: int| 0 <= i < ms.len() implies settled[ms[i].name] == ms[i].data by {
        assert(forall|k: int| i < k < ms.len() ==> ms[k].name != ms[i].name);
        lemma_last_payload_at(ms, ms[i].name, i);
        assert(has_name(ms, ms[i].name));
        assert(names.contains(ms[i].name));
    }
}

/// When two members share a requested name, extraction leaves the payload
/// of the later one in archive order.
pub proof fn lemma_last_write_wins(ms: Seq<MemberView>, names: Set<Seq<u8>>, i: int, j: int)
    requires
        0 <= i < j < ms.len(),
        ms[i].name == ms[j].name,
        names.contains(ms[j].name),
        forall|k: int| j < k < ms.len() ==> ms[k].name != ms[j].name,
    ensures
        apply_writes(Map::<Seq<u8>, Seq<u8>>::empty(), retained_members(ms, names)).dom().contains(
            ms[j].name,
        ),
        apply_writes(Map::<Seq<u8>, Seq<u8>>::empty(), retained_members(ms, names))[ms[j].name]
            == ms[j].data,
{
    lemma_extract_writes_exact(ms, names);
    assert(has_name(ms, ms[j].name));
    lemma_last_payload_at(ms, ms[j].name, j);
}

} // verus!
