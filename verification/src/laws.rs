//! Laws tying the archive writer and reader together.

use crate::decimal::{dec_digits, lemma_dec_digits_len, lemma_parse_size_field_roundtrip,
    parse_size_field, pow10, size_field};
use crate::errors::ErrorKind;
use crate::fields::{ar_magic, decode_name, encode_name, fixed_meta, lemma_name_field_roundtrip};
use crate::imports::{all_imports_wf, eligible_imports, lemma_eligible_imports_len,
    lemma_stub_members_wf, stub_members, DllImportView};
use crate::member::{all_wf, wf_member, MemberView};
use crate::read::{parse_archive_spec, parse_members_from, ParseOutcome};
use crate::write::{encode_archive, encode_member, encode_members, member_header};
use vstd::prelude::*;

verus! {

/// An encoded member is its 60-byte header, its payload and one pad byte
/// after an odd payload.
proof fn lemma_encode_member_len(m: MemberView)
    requires
        wf_member(m),
    ensures
        encode_name(m.name).len() == 16,
        fixed_meta().len() == 32,
        size_field(m.data.len()).len() == 10,
        member_header(m).len() == 60,
        encode_member(m).len() == 60 + m.data.len() + if m.data.len() % 2 == 1 {
            1int
        } else {
            0int
        },
        dec_digits(m.data.len()).len() <= 10,
{
    assert(pow10(10) == 10_000_000_000) by {
        reveal_with_fuel(pow10, 11);
    }
    lemma_dec_digits_len(m.data.len(), 10);
    lemma_name_field_roundtrip(m.name);
    assert(encode_name(m.name).len() == 16);
    assert(fixed_meta().len() == 32);
    assert(size_field(m.data.len()).len() == 10);
}

/// Reading encoded members at their start yields exactly those members.
#[verifier::rlimit(100)]
#[verifier::spinoff_prover]
proof fn lemma_parse_encoded_members(bytes: Seq<u8>, pos: int, ms: Seq<MemberView>)
    requires
        0 <= pos <= bytes.len(),
        all_wf(ms),
        bytes.subrange(pos, bytes.len() as int) == encode_members(ms),
    ensures
        parse_members_from(bytes, pos) == ParseOutcome::Members(ms),
    decreases ms.len(),
{
    let len = bytes.len() as int;
    if ms.len() == 0 {
        assert(encode_members(ms) == Seq::<u8>::empty());
        assert(len - pos == bytes.subrange(pos, len).len());
        assert(pos == len);
        assert(ms =~= Seq::<MemberView>::empty());
    } else {
        let m = ms.first();
        let rest = ms.drop_first();
        assert(wf_member(m));
        assert(encode_members(ms) == encode_member(m) + encode_members(rest));
        let em = encode_member(m);
        let hdr = member_header(m);
        let size = m.data.len() as int;
        lemma_encode_member_len(m);
        let pad: int = if m.data.len() % 2 == 1 {
            1
        } else {
            0
        };
        assert(len - pos == em.len() + encode_members(rest).len()) by {
            assert(bytes.subrange(pos, len).len() == len - pos);
        }
        assert forall|i: int| 0 <= i < em.len() implies bytes[pos + i] == em[i] by {
            assert(bytes.subrange(pos, len)[i] == bytes[pos + i]);
            assert((em + encode_members(rest))[i] == em[i]);
        }
        // the end marker stands at offsets 58 and 59 of the header
        assert(hdr[58] == 96u8 && hdr[59] == 10u8);
        assert(em[58] == hdr[58] && em[59] == hdr[59]);
        assert(bytes[pos + 58] == 96u8 && bytes[pos + 59] == 10u8);
        // the size field reads back as the payload length
        assert(bytes.subrange(pos + 48, pos + 58) =~= size_field(m.data.len())) by {
            assert forall|k: int| 0 <= k < 10 implies bytes.subrange(pos + 48, pos + 58)[k]
                == size_field(m.data.len())[k] by {
                assert(bytes.subrange(pos + 48, pos + 58)[k] == bytes[pos + 48 + k]);
                assert(bytes[pos + 48 + k] == em[48 + k]);
                assert(em[48 + k] == hdr[48 + k]);
                assert(hdr[48 + k] == size_field(m.data.len())[k]);
            }
        }
        lemma_parse_size_field_roundtrip(m.data.len());
        assert(parse_size_field(bytes.subrange(pos + 48, pos + 58)) == Some(m.data.len()));
        // the payload lies inside the bytes
        assert(pos + 60 + size <= len);
        // the name field reads back as the name
        assert(bytes.subrange(pos, pos + 16) =~= encode_name(m.name)) by {
            assert forall|k: int| 0 <= k < 16 implies bytes.subrange(pos, pos + 16)[k]
                == encode_name(m.name)[k] by {
                assert(bytes.subrange(pos, pos + 16)[k] == bytes[pos + k]);
                assert(bytes[pos + k] == em[k]);
                assert(em[k] == hdr[k]);
                assert(hdr[k] == encode_name(m.name)[k]);
            }
        }
        lemma_name_field_roundtrip(m.name);
        assert(decode_name(bytes.subrange(pos, pos + 16)) == m.name);
        // the payload reads back unchanged
        assert(bytes.subrange(pos + 60, pos + 60 + size) =~= m.data) by {
            assert forall|k: int| 0 <= k < size implies bytes.subrange(
                pos + 60,
                pos + 60 + size,
            )[k] == m.data[k] by {
                assert(bytes.subrange(pos + 60, pos + 60 + size)[k] == bytes[pos + 60 + k]);
                assert(bytes[pos + 60 + k] == em[60 + k]);
                assert(em[60 + k] == m.data[k]);
            }
        }
        // the next header starts right after payload and pad
        let next = pos + 60 + size + pad;
        assert(next == pos + em.len());
        if m.data.len() % 2 == 1 {
            assert(pos + 60 + size < len);
        }
        // the rest of the bytes are the encoding of the remaining members
        assert(bytes.subrange(next, len) =~= encode_members(rest)) by {
            assert forall|k: int| 0 <= k < len - next implies bytes.subrange(next, len)[k]
                == encode_members(rest)[k] by {
                assert(bytes.subrange(next, len)[k] == bytes[next + k]);
                assert(bytes.subrange(pos, len)[em.len() + k] == bytes[pos + em.len() + k]);
                assert((em + encode_members(rest))[em.len() + k] == encode_members(rest)[k]);
            }
        }
        assert(all_wf(rest)) by {
            assert(forall|i: int| 0 <= i < rest.len() ==> rest[i] == ms[i + 1]);
        }
        lemma_parse_encoded_members(bytes, next, rest);
        assert(seq![m] + rest =~= ms);
        assert(parse_members_from(bytes, pos) == ParseOutcome::Members(seq![m] + rest));
    }
}

/// Round trip: an archive built from representable members reads back as
/// exactly those members, names and payloads alike, in their build order.
pub proof fn lemma_archive_round_trip(ms: Seq<MemberView>)
    requires
        all_wf(ms),
    ensures
        parse_archive_spec(encode_archive(ms)) == ParseOutcome::Members(ms),
{
    let bytes = encode_archive(ms);
    assert(bytes.len() >= 8);
    assert(bytes.subrange(0, 8) =~= ar_magic());
    assert(bytes.subrange(8, bytes.len() as int) =~= encode_members(ms));
    lemma_parse_encoded_members(bytes, 8, ms);
}

/// An empty build session produces the smallest valid archive: the magic
/// line alone, which reads back as an archive with no members.
pub proof fn lemma_empty_archive_valid()
    ensures
        encode_archive(Seq::<MemberView>::empty()) == ar_magic(),
        parse_archive_spec(ar_magic()) == ParseOutcome::Members(Seq::<MemberView>::empty()),
{
    assert(encode_archive(Seq::<MemberView>::empty()) =~= ar_magic());
    lemma_archive_round_trip(Seq::<MemberView>::empty());
}

/// A synthesized import library is a valid archive: the reader yields its
/// stub members exactly, in descriptor order.
pub proof fn lemma_import_library_reads_back(ds: Seq<DllImportView>, is_direct: bool)
    requires
        all_imports_wf(eligible_imports(ds, is_direct)),
        ds.len() <= 99_999_999_999_999,
    ensures
        parse_archive_spec(encode_archive(stub_members(eligible_imports(ds, is_direct))))
            == ParseOutcome::Members(stub_members(eligible_imports(ds, is_direct))),
{
    lemma_eligible_imports_len(ds, is_direct);
    lemma_stub_members_wf(eligible_imports(ds, is_direct));
    lemma_archive_round_trip(stub_members(eligible_imports(ds, is_direct)));
}

/// Bytes without a whole, well-formed magic line are rejected as
/// `ParseArchive`, whatever follows.
pub proof fn lemma_truncated_archive_rejected(bytes: Seq<u8>)
    requires
        bytes.len() < 8 || bytes.subrange(0, 8) != ar_magic(),
    ensures
        parse_archive_spec(bytes) == ParseOutcome::Fail(ErrorKind::ParseArchive),
{
}

} // verus!
