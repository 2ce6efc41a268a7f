//! Reading archives: the byte-level parser.
//!
//! The reader walks the members in on-disk order and never reorders them.
//! Reading stops at the first malformed header or out-of-bounds payload;
//! length and offset fields are checked before any payload is touched, so a
//! corrupt or truncated archive is an error, never a crash.

use crate::decimal::{parse_size_field, parse_size_field_exec};
use crate::errors::ErrorKind;
use crate::fields::{ar_magic, decode_name, read_name_field};
use crate::member::{copy_range, reserved_name, Member, MemberView};
use vstd::prelude::*;

verus! {

/// What reading an archive's bytes yields: the members in on-disk order,
/// or the kind of the first failure.
pub enum ParseOutcome {
    Members(Seq<MemberView>),
    Fail(ErrorKind),
}

/// Reads members from `pos` to the end of the bytes.
///
/// Each member needs a 60-byte header whose last two bytes are the end
/// marker, whose size field is a well-formed decimal, and whose name is
/// neither empty nor reserved by the format's bookkeeping mechanisms (the
/// symbol table, the long-name table and names stored in the payload),
/// which this crate does not resolve; the payload must lie inside the
/// bytes. An odd payload is followed by one pad byte, which may be missing
/// at the very end.
pub open spec fn parse_members_from(bytes: Seq<u8>, pos: int) -> ParseOutcome
    decreases bytes.len() - pos
        when 0 <= pos <= bytes.len()
{
    if pos == bytes.len() {
        ParseOutcome::Members(Seq::<MemberView>::empty())
    } else if bytes.len() - pos < 60 {
        ParseOutcome::Fail(ErrorKind::ReadEntry)
    } else if !(bytes[pos + 58] == 96u8 && bytes[pos + 59] == 10u8) {
        ParseOutcome::Fail(ErrorKind::ReadEntry)
    } else {
        match parse_size_field(bytes.subrange(pos + 48, pos + 58)) {
            None => ParseOutcome::Fail(ErrorKind::ReadEntry),
            Some(size) => {
                let name = decode_name(bytes.subrange(pos, pos + 16));
                if name.len() == 0 || reserved_name(name) {
                    ParseOutcome::Fail(ErrorKind::ReadEntry)
                } else if pos + 60 + size > bytes.len() {
                    ParseOutcome::Fail(ErrorKind::ArchiveMember)
                } else {
                    let m = MemberView { name, data: bytes.subrange(pos + 60, pos + 60 + size) };
                    let next = if size % 2 == 1 && pos + 60 + size < bytes.len() {
                        pos + 61 + size
                    } else {
                        pos + 60 + size
                    };
                    match parse_members_from(bytes, next) {
                        ParseOutcome::Members(rest) => ParseOutcome::Members(seq![m] + rest),
                        ParseOutcome::Fail(k) => ParseOutcome::Fail(k),
                    }
                }
            },
        }
    }
}

/// What reading a whole archive yields: the magic line, then the members.
pub open spec fn parse_archive_spec(bytes: Seq<u8>) -> ParseOutcome {
    if bytes.len() < 8 || bytes.subrange(0, 8) != ar_magic() {
        ParseOutcome::Fail(ErrorKind::ParseArchive)
    } else {
        parse_members_from(bytes, 8)
    }
}

/// Puts already-read members in front of an outcome's members.
pub open spec fn prepend_members(pre: Seq<MemberView>, o: ParseOutcome) -> ParseOutcome {
    match o {
        ParseOutcome::Members(rest) => ParseOutcome::Members(pre + rest),
        ParseOutcome::Fail(k) => ParseOutcome::Fail(k),
    }
}

/// Prepending nothing changes nothing.
proof fn lemma_prepend_members_empty(o: ParseOutcome)
    ensures
        prepend_members(Seq::<MemberView>::empty(), o) == o,
{
    match o {
        ParseOutcome::Members(rest) => {
            assert(Seq::<MemberView>::empty() + rest =~= rest);
        },
        ParseOutcome::Fail(_) => {},
    }
}

/// Prepending one member then the rest is prepending them together.
proof fn lemma_prepend_members_join(pre: Seq<MemberView>, m: MemberView, o: ParseOutcome)
    ensures
        prepend_members(pre, prepend_members(seq![m], o)) == prepend_members(pre.push(m), o),
{
    match o {
        ParseOutcome::Members(rest) => {
            assert(pre + (seq![m] + rest) =~= pre.push(m) + rest);
        },
        ParseOutcome::Fail(_) => {},
    }
}

/// Whether the bytes start with the archive magic line.
pub(crate) fn magic_ok(bytes: &Vec<u8>) -> (r: bool)
    requires
        bytes@.len() >= 8,
    ensures
        r == (bytes@.subrange(0, 8) == ar_magic()),
{
    let r = bytes[0] == 33 && bytes[1] == 60 && bytes[2] == 97 && bytes[3] == 114 && bytes[4]
        == 99 && bytes[5] == 104 && bytes[6] == 62 && bytes[7] == 10;
    proof {
        if r {
            assert(bytes@.subrange(0, 8) =~= ar_magic());
        } else {
            if bytes@.subrange(0, 8) == ar_magic() {
                assert forall|j: int| 0 <= j < 8 implies bytes@[j] == ar_magic()[j] by {
                    assert(bytes@.subrange(0, 8)[j] == bytes@[j]);
                }
                assert(bytes@[0] == 33 && bytes@[1] == 60 && bytes@[2] == 97 && bytes@[3] == 114
                    && bytes@[4] == 99 && bytes@[5] == 104 && bytes@[6] == 62 && bytes@[7] == 10);
            }
        }
    }
    r
}

/// Reads a whole archive from its bytes.
///
/// On success the members come back in on-disk order, payloads copied out
/// verbatim. On failure the error kind names the first failing stage:
/// `ParseArchive` for a missing or truncated magic line, `ReadEntry` for a
/// malformed member header — an empty or reserved name counts as one —
/// and `ArchiveMember` for a payload running past the end of the bytes.
pub fn parse_archive(bytes: &Vec<u8>) -> (r: Result<Vec<Member>, ErrorKind>)
    ensures
        match r {
            Ok(ms) => parse_archive_spec(bytes@) == ParseOutcome::Members(ms.deep_view()),
            Err(k) => parse_archive_spec(bytes@) == ParseOutcome::Fail(k),
        },
{
    let n = bytes.len();
    if n < 8 {
        return Err(ErrorKind::ParseArchive);
    }
    if !magic_ok(bytes) {
        return Err(ErrorKind::ParseArchive);
    }
    let mut pos: usize = 8;
    let mut out: Vec<Member> = Vec::new();
    proof {
        assert(out.deep_view() =~= Seq::<MemberView>::empty());
        lemma_prepend_members_empty(parse_members_from(bytes@, 8));
    }
    while pos < n
        invariant
            8 <= pos <= n,
            n == bytes@.len(),
            parse_archive_spec(bytes@) == prepend_members(
                out.deep_view(),
                parse_members_from(bytes@, pos as int),
            ),
        decreases n - pos,
    {
        let ghost pre = out.deep_view();
        if n - pos < 60 {
            return Err(ErrorKind::ReadEntry);
        }
        if !(bytes[pos + 58] == 96 && bytes[pos + 59] == 10) {
            return Err(ErrorKind::ReadEntry);
        }
        let size = match parse_size_field_exec(bytes, pos + 48) {
            Some(v) => v,
            None => {
                return Err(ErrorKind::ReadEntry);
            },
        };
        let name = read_name_field(bytes, pos);
        if crate::member::name_is_unusable(&name) {
            return Err(ErrorKind::ReadEntry);
        }
        let after_header = n - pos - 60;
        if size > after_header as u64 {
            return Err(ErrorKind::ArchiveMember);
        }
        let size_us = size as usize;
        let data = copy_range(bytes, pos + 60, pos + 60 + size_us);
        let ghost m = MemberView {
            name: decode_name(bytes@.subrange(pos as int, pos as int + 16)),
            data: bytes@.subrange(pos as int + 60, pos as int + 60 + size as int),
        };
        let next = if size_us % 2 == 1 && pos + 60 + size_us < n {
            pos + 61 + size_us
        } else {
            pos + 60 + size_us
        };
        proof {
            assert(parse_members_from(bytes@, pos as int) == prepend_members(
                seq![m],
                parse_members_from(bytes@, next as int),
            )) by {
                match parse_members_from(bytes@, next as int) {
                    ParseOutcome::Members(_) => {},
                    ParseOutcome::Fail(_) => {},
                }
            }
        }
        out.push(Member { name, data });
        proof {
            assert(out.deep_view() =~= pre.push(m));
            lemma_prepend_members_join(pre, m, parse_members_from(bytes@, next as int));
        }
        pos = next;
    }
    proof {
        assert(parse_members_from(bytes@, pos as int) == ParseOutcome::Members(
            Seq::<MemberView>::empty(),
        ));
        assert(out.deep_view() + Seq::<MemberView>::empty() =~= out.deep_view());
    }
    Ok(out)
}

} // verus!
