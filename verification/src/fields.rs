//! The fixed-width fields of the archive container.
//!
//! An archive starts with the 8-byte magic line. Each member has a 60-byte
//! header: a 16-byte name field, 32 bytes of file metadata, the 10-byte
//! decimal size field and a 2-byte end marker. The name is stored with a
//! terminating slash and padded with spaces; a name field without the
//! terminating slash (the older convention) is read all the same.

use crate::decimal::spaces;
use crate::member::copy_range;
use vstd::prelude::*;

verus! {

/// The archive magic line `!<arch>` followed by a newline.
pub open spec fn ar_magic() -> Seq<u8> {
    seq![33u8, 60u8, 97u8, 114u8, 99u8, 104u8, 62u8, 10u8]
}

/// The 32 metadata bytes of every member header this crate writes:
/// modification time 0, user and group 0, mode 644, each space padded.
/// Readers ignore these fields.
pub open spec fn fixed_meta() -> Seq<u8> {
    seq![48u8] + spaces(11) + seq![48u8] + spaces(5) + seq![48u8] + spaces(5) + seq![
        54u8,
        52u8,
        52u8,
    ] + spaces(5)
}

/// `s` without its trailing spaces.
pub open spec fn trim_spaces(s: Seq<u8>) -> Seq<u8>
    decreases s.len(),
{
    if s.len() > 0 && s.last() == 32u8 {
        trim_spaces(s.drop_last())
    } else {
        s
    }
}

/// The member name a 16-byte name field holds: the field without its
/// space padding and without the terminating slash, if one is there.
pub open spec fn decode_name(field: Seq<u8>) -> Seq<u8> {
    let t = trim_spaces(field);
    if t.len() > 0 && t.last() == 47u8 {
        t.drop_last()
    } else {
        t
    }
}

/// The 16-byte name field: the name, a terminating slash, space padding.
pub open spec fn encode_name(name: Seq<u8>) -> Seq<u8>
    recommends
        name.len() <= 15,
{
    name.push(47u8) + spaces((16 - (name.len() + 1)) as nat)
}

/// Trailing spaces do not change what trimming leaves.
proof fn lemma_trim_spaces_pad(x: Seq<u8>, k: nat)
    ensures
        trim_spaces(x + spaces(k)) == trim_spaces(x),
    decreases k,
{
    if k == 0 {
        assert(x + spaces(0) =~= x);
    } else {
        let s = x + spaces(k);
        assert(s.last() == 32u8);
        assert(s.drop_last() =~= x + spaces((k - 1) as nat));
        lemma_trim_spaces_pad(x, (k - 1) as nat);
    }
}

/// The name field reads back as the name it was written from.
pub proof fn lemma_name_field_roundtrip(name: Seq<u8>)
    requires
        name.len() <= 15,
    ensures
        decode_name(encode_name(name)) == name,
        encode_name(name).len() == 16,
{
    let t = name.push(47u8);
    lemma_trim_spaces_pad(t, (16 - (name.len() + 1)) as nat);
    assert(t.last() == 47u8);
    assert(trim_spaces(t) == t);
    assert(t.drop_last() =~= name);
}

/// Appends all bytes of `src`.
pub fn push_all(out: &mut Vec<u8>, src: &Vec<u8>)
    ensures
        final(out)@ == old(out)@ + src@,
{
    let mut i: usize = 0;
    while i < src.len()
        invariant
            0 <= i <= src@.len(),
            out@ == old(out)@ + src@.subrange(0, i as int),
        decreases src@.len() - i,
    {
        out.push(src[i]);
        assert(out@ =~= old(out)@ + src@.subrange(0, (i + 1) as int));
        i = i + 1;
    }
    assert(src@.subrange(0, src@.len() as int) =~= src@);
}

/// Appends the magic line.
pub fn push_magic(out: &mut Vec<u8>)
    ensures
        final(out)@ == old(out)@ + ar_magic(),
{
    out.push(33);
    out.push(60);
    out.push(97);
    out.push(114);
    out.push(99);
    out.push(104);
    out.push(62);
    out.push(10);
    assert(out@ =~= old(out)@ + ar_magic());
}

/// Appends the 32 metadata bytes.
pub fn push_fixed_meta(out: &mut Vec<u8>)
    ensures
        final(out)@ == old(out)@ + fixed_meta(),
        fixed_meta().len() == 32,
{
    out.push(48);
    crate::decimal::push_spaces(out, 11);
    out.push(48);
    crate::decimal::push_spaces(out, 5);
    out.push(48);
    crate::decimal::push_spaces(out, 5);
    out.push(54);
    out.push(52);
    out.push(52);
    crate::decimal::push_spaces(out, 5);
    assert(out@ =~= old(out)@ + fixed_meta());
}

/// Appends the 16-byte name field for `name`.
pub fn write_name_field(out: &mut Vec<u8>, name: &Vec<u8>)
    requires
        name@.len() <= 15,
    ensures
        final(out)@ == old(out)@ + encode_name(name@),
        encode_name(name@).len() == 16,
{
    push_all(out, name);
    out.push(47);
    let pad = 16 - (name.len() + 1);
    crate::decimal::push_spaces(out, pad);
    assert(out@ =~= old(out)@ + encode_name(name@));
}

/// Reads the 16-byte name field at `start`.
pub fn read_name_field(bytes: &Vec<u8>, start: usize) -> (r: Vec<u8>)
    requires
        start + 16 <= bytes@.len(),
    ensures
        r@ == decode_name(bytes@.subrange(start as int, start as int + 16)),
{
    let ghost field = bytes@.subrange(start as int, start as int + 16);
    let n = bytes.len();
    let mut e: usize = 16;
    assert(field.subrange(0, 16) =~= field);
    while e > 0 && bytes[start + e - 1] == 32
        invariant
            0 <= e <= 16,
            n == bytes@.len(),
            start + 16 <= n,
            field == bytes@.subrange(start as int, start as int + 16),
            trim_spaces(field) == trim_spaces(field.subrange(0, e as int)),
        decreases e,
    {
        proof {
            let t = field.subrange(0, e as int);
            assert(t.last() == bytes@[start as int + e - 1]);
            assert(t.last() == 32u8);
            assert(t.drop_last() =~= field.subrange(0, e - 1));
        }
        e = e - 1;
    }
    proof {
        let t = field.subrange(0, e as int);
        if e > 0 {
            assert(t.last() == bytes@[start as int + e - 1]);
        }
        assert(trim_spaces(t) == t);
    }
    if e > 0 && bytes[start + e - 1] == 47 {
        proof {
            let t = field.subrange(0, e as int);
            assert(t.last() == 47u8);
            assert(t.drop_last() =~= bytes@.subrange(start as int, start as int + e - 1));
        }
        copy_range(bytes, start, start + e - 1)
    } else {
        copy_range(bytes, start, start + e)
    }
}

} // verus!
