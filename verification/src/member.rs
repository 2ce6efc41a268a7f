//! Archive members and name sets.

use vstd::prelude::*;

verus! {

/// The widest member name the fixed 16-byte header name field can carry:
/// the name is stored with a terminating slash, leaving 15 bytes.
pub const MAX_NAME_LEN: usize = 15;

/// The largest payload whose size fits the 10-byte decimal size field.
pub const MAX_DATA_LEN: u64 = 9_999_999_999;

/// One named entry of an archive: a name and an opaque byte payload.
///
/// The format does not require names to be unique within one archive, and
/// the reader preserves on-disk member order.
pub struct Member {
    pub name: Vec<u8>,
    pub data: Vec<u8>,
}

/// The mathematical image of a member: its name and payload as sequences.
#[verifier::ext_equal]
pub struct MemberView {
    pub name: Seq<u8>,
    pub data: Seq<u8>,
}

impl View for Member {
    type V = MemberView;

    open spec fn view(&self) -> MemberView {
        MemberView { name: self.name@, data: self.data@ }
    }
}

impl DeepView for Member {
    type V = MemberView;

    open spec fn deep_view(&self) -> MemberView {
        self.view()
    }
}

/// Names the container format reserves for its own bookkeeping: a leading
/// slash marks the symbol table, the long-name table and references into
/// it, and a leading `#1/` marks a name stored in front of the payload.
/// This crate writes neither mechanism, and the reader rejects them rather
/// than hand out a bookkeeping entry as an ordinary member.
pub open spec fn reserved_name(name: Seq<u8>) -> bool {
    (name.len() > 0 && name[0] == 47) || (name.len() >= 3 && name[0] == 35 && name[1] == 49
        && name[2] == 47)
}

/// A member that the archive writer can represent: a nonempty, unreserved
/// name that fits the header's name field, and a payload whose size fits
/// its size field.
pub open spec fn wf_member(m: MemberView) -> bool {
    1 <= m.name.len() <= MAX_NAME_LEN && !reserved_name(m.name) && m.data.len() <= MAX_DATA_LEN
}

/// Whether `name` is empty or reserved by the container format.
pub fn name_is_unusable(name: &Vec<u8>) -> (r: bool)
    ensures
        r == (name@.len() == 0 || reserved_name(name@)),
{
    if name.len() == 0 {
        return true;
    }
    if name[0] == 47 {
        return true;
    }
    name.len() >= 3 && name[0] == 35 && name[1] == 49 && name[2] == 47
}

/// Every member of the sequence is representable.
pub open spec fn all_wf(ms: Seq<MemberView>) -> bool {
    forall|i: int| 0 <= i < ms.len() ==> wf_member(ms[i])
}

impl Member {
    /// A fresh copy of this member.
    pub fn duplicate(&self) -> (r: Member)
        ensures
            r@ == self@,
    {
        Member { name: copy_bytes(&self.name), data: copy_bytes(&self.data) }
    }
}

/// A fresh byte vector holding `v[from..to]`.
pub fn copy_range(v: &Vec<u8>, from: usize, to: usize) -> (r: Vec<u8>)
    requires
        from <= to <= v@.len(),
    ensures
        r@ == v@.subrange(from as int, to as int),
{
    let mut r: Vec<u8> = Vec::new();
    let mut i: usize = from;
    while i < to
        invariant
            from <= i <= to <= v@.len(),
            r@ == v@.subrange(from as int, i as int),
        decreases to - i,
    {
        r.push(v[i]);
        assert(r@ =~= v@.subrange(from as int, (i + 1) as int));
        i = i + 1;
    }
    r
}

/// A fresh copy of a whole byte vector.
pub fn copy_bytes(v: &Vec<u8>) -> (r: Vec<u8>)
    ensures
        r@ == v@,
{
    let r = copy_range(v, 0, v.len());
    assert(v@.subrange(0, v@.len() as int) =~= v@);
    r
}

/// Whether two byte vectors hold the same bytes.
pub fn bytes_eq(a: &Vec<u8>, b: &Vec<u8>) -> (r: bool)
    ensures
        r == (a@ == b@),
{
    if a.len() != b.len() {
        assert(a@ != b@) by {
            assert(a@.len() != b@.len());
        }
        return false;
    }
    let mut i: usize = 0;
    while i < a.len()
        invariant
            0 <= i <= a@.len(),
            a@.len() == b@.len(),
            forall|j: int| 0 <= j < i ==> a@[j] == b@[j],
        decreases a@.len() - i,
    {
        if a[i] != b[i] {
            return false;
        }
        i = i + 1;
    }
    assert(a@ =~= b@);
    true
}

/// A set of member names, given as byte strings of their text form.
///
/// The caller fills it with the file names of the native libraries that were
/// bundled into an archive; extraction treats it as an exact-match key set,
/// so duplicates and insertion order do not matter.
pub struct NameSet {
    names: Vec<Vec<u8>>,
}

impl View for NameSet {
    type V = Set<Seq<u8>>;

    closed spec fn view(&self) -> Set<Seq<u8>> {
        Set::new(|n: Seq<u8>| exists|i: int| 0 <= i < self.names@.len() && self.names@[i]@ == n)
    }
}

impl NameSet {
    /// An empty name set.
    pub fn new() -> (r: NameSet)
        ensures
            r@ == Set::<Seq<u8>>::empty(),
    {
        let r = NameSet { names: Vec::new() };
        assert(r@ =~= Set::<Seq<u8>>::empty());
        r
    }

    /// Adds one name; adding a name twice changes nothing.
    pub fn insert(&mut self, name: Vec<u8>)
        ensures
            final(self)@ == old(self)@.insert(name@),
    {
        let ghost ghost_name: Seq<u8> = name@;
        let ghost before = self.names@;
        self.names.push(name);
        assert(self@ =~= old(self)@.insert(ghost_name)) by {
            assert forall|n: Seq<u8>| self@.contains(n) implies old(self)@.insert(
                ghost_name,
            ).contains(n) by {
                let i = choose|i: int|
                    0 <= i < self.names@.len() && self.names@[i]@ == n;
                if i < before.len() {
                    assert(before[i]@ == n);
                }
            }
            assert forall|n: Seq<u8>| old(self)@.insert(ghost_name).contains(n) implies self@.contains(
                n,
            ) by {
                if n == ghost_name {
                    assert(self.names@[before.len() as int]@ == n);
                } else {
                    let i = choose|i: int| 0 <= i < before.len() && before[i]@ == n;
                    assert(self.names@[i]@ == n);
                }
            }
        }
    }

    /// Whether `name` is in the set.
    pub fn contains(&self, name: &Vec<u8>) -> (r: bool)
        ensures
            r == self@.contains(name@),
    {
        let mut i: usize = 0;
        while i < self.names.len()
            invariant
                0 <= i <= self.names@.len(),
                forall|j: int| 0 <= j < i ==> self.names@[j]@ != name@,
            decreases self.names@.len() - i,
        {
            if bytes_eq(&self.names[i], name) {
                return true;
            }
            i = i + 1;
        }
        false
    }
}

} // verus!
