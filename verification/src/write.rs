//! Writing archives: the byte-level encoder.

use crate::decimal::{size_field, write_size_field};
use crate::fields::{ar_magic, encode_name, fixed_meta, push_all, push_fixed_meta, push_magic,
    write_name_field};
use crate::member::{all_wf, wf_member, Member, MemberView, MAX_DATA_LEN, MAX_NAME_LEN};
use vstd::prelude::*;

verus! {

/// The 60-byte header of one member: name field, metadata, size field and
/// the 2-byte end marker (a backquote and a newline).
pub open spec fn member_header(m: MemberView) -> Seq<u8>
    recommends
        wf_member(m),
{
    encode_name(m.name) + fixed_meta() + size_field(m.data.len()) + seq![96u8, 10u8]
}

/// One encoded member: header, payload, and a newline pad after an
/// odd-sized payload, so that every header starts at an even offset.
pub open spec fn encode_member(m: MemberView) -> Seq<u8>
    recommends
        wf_member(m),
{
    member_header(m) + m.data + if m.data.len() % 2 == 1 {
        seq![10u8]
    } else {
        Seq::<u8>::empty()
    }
}

/// The members of an archive, encoded in order.
pub open spec fn encode_members(ms: Seq<MemberView>) -> Seq<u8>
    decreases ms.len(),
{
    if ms.len() == 0 {
        Seq::<u8>::empty()
    } else {
        encode_member(ms.first()) + encode_members(ms.drop_first())
    }
}

/// A whole archive: the magic line, then the members in order.
pub open spec fn encode_archive(ms: Seq<MemberView>) -> Seq<u8> {
    ar_magic() + encode_members(ms)
}

/// Encoding appends member by member.
proof fn lemma_encode_members_push(ms: Seq<MemberView>, m: MemberView)
    ensures
        encode_members(ms.push(m)) == encode_members(ms) + encode_member(m),
    decreases ms.len(),
{
    if ms.len() == 0 {
        assert(encode_members(ms) == Seq::<u8>::empty());
        assert(ms.push(m).drop_first() =~= Seq::<MemberView>::empty());
        assert(ms.push(m).first() == m);
        assert(encode_members(ms.push(m).drop_first()) == Seq::<u8>::empty());
        assert(encode_members(ms.push(m)) == encode_member(m) + Seq::<u8>::empty());
        assert(encode_member(m) + Seq::<u8>::empty() =~= encode_member(m));
        assert(Seq::<u8>::empty() + encode_member(m) =~= encode_member(m));
    } else {
        assert(ms.push(m).drop_first() =~= ms.drop_first().push(m));
        assert(ms.push(m).first() == ms.first());
        lemma_encode_members_push(ms.drop_first(), m);
        assert(encode_member(ms.first()) + (encode_members(ms.drop_first()) + encode_member(m))
            =~= (encode_member(ms.first()) + encode_members(ms.drop_first())) + encode_member(m));
    }
}

/// Appends one encoded member.
pub fn write_member(out: &mut Vec<u8>, m: &Member)
    requires
        wf_member(m@),
    ensures
        final(out)@ == old(out)@ + encode_member(m@),
{
    write_name_field(out, &m.name);
    push_fixed_meta(out);
    write_size_field(out, m.data.len() as u64);
    out.push(96);
    out.push(10);
    push_all(out, &m.data);
    if m.data.len() % 2 == 1 {
        out.push(10);
    }
    assert(out@ =~= old(out)@ + encode_member(m@));
}

/// Encodes `members` as one archive, preserving their order.
///
/// Returns `None`, and produces nothing, when some member cannot be
/// represented: a name that is empty, reserved by the format, or longer
/// than the name field, or a payload larger than the size field.
pub fn build_archive(members: &Vec<Member>) -> (r: Option<Vec<u8>>)
    ensures
        r is Some <==> all_wf(members.deep_view()),
        r matches Some(bytes) ==> bytes@ == encode_archive(members.deep_view()),
{
    let ghost ms = members.deep_view();
    let mut i: usize = 0;
    while i < members.len()
        invariant
            0 <= i <= members@.len(),
            ms == members.deep_view(),
            forall|j: int| 0 <= j < i ==> wf_member(ms[j]),
        decreases members@.len() - i,
    {
        let m = &members[i];
        if crate::member::name_is_unusable(&m.name) || m.name.len() > MAX_NAME_LEN || (m.data.len()
            as u64) > MAX_DATA_LEN {
            assert(!wf_member(ms[i as int]));
            return None;
        }
        i = i + 1;
    }
    let mut out: Vec<u8> = Vec::new();
    push_magic(&mut out);
    let mut i: usize = 0;
    while i < members.len()
        invariant
            0 <= i <= members@.len(),
            ms == members.deep_view(),
            all_wf(ms),
            out@ == ar_magic() + encode_members(ms.subrange(0, i as int)),
        decreases members@.len() - i,
    {
        proof {
            assert(ms[i as int] == members@[i as int]@);
            assert(wf_member(ms[i as int]));
        }
        write_member(&mut out, &members[i]);
        proof {
            lemma_encode_members_push(ms.subrange(0, i as int), ms[i as int]);
            assert(ms.subrange(0, (i + 1) as int) =~= ms.subrange(0, i as int).push(
                ms[i as int],
            ));
            assert(out@ =~= ar_magic() + encode_members(ms.subrange(0, (i + 1) as int)));
        }
        i = i + 1;
    }
    assert(ms.subrange(0, ms.len() as int) =~= ms);
    Some(out)
}

} // verus!
