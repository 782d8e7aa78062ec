use vstd::prelude::*;
use crate::pdu::Pdu;

verus! {

pub const FNV_OFFSET_BASIS: u32 = 0x811c9dc5;
pub const FNV_PRIME: u32 = 0x01000193;

/// 32-bit FNV-1a over `s`, starting from the state `h`.
pub open spec fn fnv1a_from(h: u32, s: Seq<u8>) -> u32
    decreases s.len(),
{
    if s.len() == 0 {
        h
    } else {
        fnv1a_from((h ^ (s[0] as u32)).wrapping_mul(FNV_PRIME), s.drop_first())
    }
}

/// The placement hash of a metric name: 32-bit FNV-1a of its bytes.
pub open spec fn name_hash(name: Seq<u8>) -> u32 {
    fnv1a_from(FNV_OFFSET_BASIS, name)
}

/// The code handed to a ring of `n` slots for a metric name; with one slot
/// the hash is skipped.
pub open spec fn ring_code(name: Seq<u8>, n: nat) -> u32 {
    if n == 1 {
        1
    } else {
        name_hash(name)
    }
}

/// The slot of a ring of `n` slots that a metric name is placed on.
pub open spec fn placement(name: Seq<u8>, n: nat) -> int
    recommends
        n > 0,
{
    (ring_code(name, n) as int) % (n as int)
}

proof fn lemma_fnv1a_push(h: u32, s: Seq<u8>, b: u8)
    ensures
        fnv1a_from(h, s.push(b)) == (fnv1a_from(h, s) ^ (b as u32)).wrapping_mul(FNV_PRIME),
    decreases s.len(),
{
    if s.len() > 0 {
        assert(s.push(b).drop_first() =~= s.drop_first().push(b));
        assert(s.push(b)[0] == s[0]);
        lemma_fnv1a_push((h ^ (s[0] as u32)).wrapping_mul(FNV_PRIME), s.drop_first(), b);
    } else {
        assert(s.push(b).drop_first() =~= Seq::<u8>::empty());
        assert(s.push(b)[0] == b);
        assert(fnv1a_from(h, s) == h);
        let h2 = (h ^ (b as u32)).wrapping_mul(FNV_PRIME);
        assert(fnv1a_from(h2, Seq::<u8>::empty()) == h2);
    }
}

/// The placement hash of a metric name (32-bit FNV-1a), stable across
/// processes and machines.
pub fn hash_name(name: &[u8]) -> (r: u32)
    ensures
        r == name_hash(name@),
{
    let mut h: u32 = FNV_OFFSET_BASIS;
    let mut i: usize = 0;
    while i < name.len()
        invariant
            i <= name@.len(),
            h == fnv1a_from(FNV_OFFSET_BASIS, name@.subrange(0, i as int)),
        decreases name@.len() - i,
    {
        proof {
            assert(name@.subrange(0, i + 1) =~= name@.subrange(0, i as int).push(name@[i as int]));
            lemma_fnv1a_push(FNV_OFFSET_BASIS, name@.subrange(0, i as int), name@[i as int]);
        }
        h = (h ^ (name[i] as u32)).wrapping_mul(FNV_PRIME);
        i = i + 1;
    }
    proof {
        assert(name@.subrange(0, name@.len() as int) =~= name@);
    }
    h
}

/// The placement hash of a line: the hash of its metric name.
pub fn statsrelay_compat_hash(pdu: &Pdu) -> (r: u32)
    requires
        pdu@.wf(),
    ensures
        r == name_hash(pdu@.name()),
{
    hash_name(pdu.name())
}

/// An ordered sequence of slots, indexed from 0.
pub struct Ring<C> {
    slots: Vec<C>,
}

impl<C> View for Ring<C> {
    type V = Seq<C>;

    closed spec fn view(&self) -> Seq<C> {
        self.slots@
    }
}

impl<C> Ring<C> {
    /// An empty ring.
    pub fn new() -> (r: Ring<C>)
        ensures
            r@ == Seq::<C>::empty(),
    {
        Ring { slots: Vec::new() }
    }

    /// A ring whose slots are the items of `v`, in order.
    pub fn from_vec(v: Vec<C>) -> (r: Ring<C>)
        ensures
            r@ == v@,
    {
        Ring { slots: v }
    }

    /// The slots, in order.
    pub fn as_vec(&self) -> (r: &Vec<C>)
        ensures
            r@ == self@,
    {
        &self.slots
    }

    /// Appends a slot.
    pub fn push(&mut self, item: C)
        ensures
            final(self)@ == old(self)@.push(item),
    {
        self.slots.push(item);
    }

    /// The number of slots.
    pub fn len(&self) -> (r: usize)
        ensures
            r == self@.len(),
    {
        self.slots.len()
    }

    /// The slot at `code mod len`.
    pub fn pick_from(&self, code: u32) -> (r: &C)
        requires
            self@.len() > 0,
        ensures
            *r == self@[(code as int) % (self@.len() as int)],
    {
        let n = self.slots.len();
        let i = (code as usize) % n;
        &self.slots[i]
    }

    /// The index of the slot that a line is placed on.
    pub fn slot_of(&self, pdu: &Pdu) -> (r: usize)
        requires
            self@.len() > 0,
            pdu@.wf(),
        ensures
            r as int == placement(pdu@.name(), self@.len()),
            r < self@.len(),
    {
        let code = if self.slots.len() == 1 {
            1
        } else {
            statsrelay_compat_hash(pdu)
        };
        (code as usize) % self.slots.len()
    }

    /// The slot that a line is placed on.
    pub fn pick(&self, pdu: &Pdu) -> (r: &C)
        requires
            self@.len() > 0,
            pdu@.wf(),
        ensures
            *r == self@[placement(pdu@.name(), self@.len())],
    {
        let code = if self.slots.len() == 1 {
            1
        } else {
            statsrelay_compat_hash(pdu)
        };
        self.pick_from(code)
    }
}

/// Placement depends on the metric name and the number of slots alone: two
/// lines with the same name land on the same slot of any ring, and two rings
/// that hold the same endpoints in the same order pick the same endpoint.
pub proof fn lemma_placement_stable<C>(r1: Ring<C>, r2: Ring<C>, a: Pdu, b: Pdu)
    requires
        a@.wf(),
        b@.wf(),
        a@.name() == b@.name(),
        r1@ == r2@,
        r1@.len() > 0,
    ensures
        0 <= placement(a@.name(), r1@.len()) < r1@.len(),
        r1@[placement(a@.name(), r1@.len())] == r2@[placement(b@.name(), r2@.len())],
{
}

} // verus!
