//! The content checksum of a transfer: Adler-32, kept as a running value so
//! that it can follow a file chunk by chunk.

use vstd::arithmetic::div_mod::{lemma_add_mod_noop, lemma_mod_equivalence, lemma_small_mod};
use vstd::prelude::*;

verus! {

/// The largest prime below 2^16.
pub const MODULUS: u32 = 65521;

/// The two sums of the checksum.
pub struct Sums {
    pub low: nat,
    pub high: nat,
}

/// The sums before any byte.
pub open spec fn initial_sums() -> Sums {
    Sums { low: 1, high: 0 }
}

/// The sums after one more byte.
pub open spec fn absorb_byte(s: Sums, byte: u8) -> Sums {
    let low = ((s.low + byte) as int % (MODULUS as int)) as nat;
    Sums { low, high: ((s.high + low) as int % (MODULUS as int)) as nat }
}

/// The sums after the bytes of `data`, in order.
pub open spec fn absorb(s: Sums, data: Seq<u8>) -> Sums
    decreases data.len(),
{
    if data.len() == 0 {
        s
    } else {
        absorb_byte(absorb(s, data.drop_last()), data.last())
    }
}

/// The checksum of `data`: the high sum in the upper half, the low sum in
/// the lower half.
pub open spec fn checksum_of(data: Seq<u8>) -> nat {
    let s = absorb(initial_sums(), data);
    s.high * 65536 + s.low
}

/// Both sums stay below the modulus.
pub proof fn lemma_absorb_bounds(s: Sums, data: Seq<u8>)
    requires
        s.low < MODULUS,
        s.high < MODULUS,
    ensures
        absorb(s, data).low < MODULUS,
        absorb(s, data).high < MODULUS,
    decreases data.len(),
{
    if data.len() > 0 {
        lemma_absorb_bounds(s, data.drop_last());
    }
}

/// Taking a file in two pieces gives the sums of the whole.
pub proof fn lemma_absorb_concat(s: Sums, first: Seq<u8>, second: Seq<u8>)
    ensures
        absorb(s, first + second) == absorb(absorb(s, first), second),
    decreases second.len(),
{
    if second.len() == 0 {
        assert(first + second =~= first);
    } else {
        assert((first + second).drop_last() =~= first + second.drop_last());
        assert((first + second).last() == second.last());
        lemma_absorb_concat(s, first, second.drop_last());
    }
}

/// A checksum always fits 32 bits.
pub proof fn lemma_checksum_fits(data: Seq<u8>)
    ensures
        checksum_of(data) <= u32::MAX,
{
    lemma_absorb_bounds(initial_sums(), data);
}

/// The sum of the bytes of `data`.
pub open spec fn byte_sum(data: Seq<u8>) -> nat
    decreases data.len(),
{
    if data.len() == 0 {
        0
    } else {
        byte_sum(data.drop_last()) + data.last() as nat
    }
}

/// The low sum is the sum of the bytes, counted from the low sum before
/// them and taken modulo the modulus.
pub proof fn lemma_low_sum(s: Sums, data: Seq<u8>)
    requires
        s.low < MODULUS,
    ensures
        absorb(s, data).low == (s.low + byte_sum(data)) % (MODULUS as nat),
    decreases data.len(),
{
    let m = MODULUS as int;
    if data.len() == 0 {
        lemma_small_mod(s.low, MODULUS as nat);
    } else {
        let front = data.drop_last();
        lemma_low_sum(s, front);
        let before = (s.low + byte_sum(front)) as int;
        let last = data.last() as int;
        lemma_add_mod_noop(before, last, m);
        lemma_small_mod(last as nat, MODULUS as nat);
    }
}

/// Changing one byte changes the sum of the bytes by the difference.
pub proof fn lemma_byte_sum_update(data: Seq<u8>, i: int, byte: u8)
    requires
        0 <= i < data.len(),
    ensures
        byte_sum(data.update(i, byte)) + data[i] == byte_sum(data) + byte,
    decreases data.len(),
{
    let changed = data.update(i, byte);
    if i == data.len() - 1 {
        assert(changed.drop_last() =~= data.drop_last());
    } else {
        assert(changed.drop_last() =~= data.drop_last().update(i, byte));
        lemma_byte_sum_update(data.drop_last(), i, byte);
    }
}

/// Two files that differ in exactly one byte have different checksums: a
/// transfer in which one byte was changed never closes on an agreeing
/// checksum.
pub proof fn lemma_one_byte_changes_checksum(data: Seq<u8>, i: int, byte: u8)
    requires
        0 <= i < data.len(),
        byte != data[i],
    ensures
        checksum_of(data.update(i, byte)) != checksum_of(data),
{
    let m = MODULUS as int;
    let changed = data.update(i, byte);
    let start = initial_sums();
    lemma_absorb_bounds(start, data);
    lemma_absorb_bounds(start, changed);
    lemma_low_sum(start, data);
    lemma_low_sum(start, changed);
    lemma_byte_sum_update(data, i, byte);
    let x = (1 + byte_sum(data)) as int;
    let y = (1 + byte_sum(changed)) as int;
    if x % m == y % m {
        if byte > data[i] {
            lemma_mod_equivalence(y, x, m);
            lemma_small_mod((y - x) as nat, MODULUS as nat);
        } else {
            lemma_mod_equivalence(x, y, m);
            lemma_small_mod((x - y) as nat, MODULUS as nat);
        }
    }
}

/// A running checksum: the checksum of the bytes taken so far.
pub struct Checksum {
    low: u32,
    high: u32,
    seen: Ghost<Seq<u8>>,
}

impl View for Checksum {
    type V = Seq<u8>;

    /// The bytes taken so far.
    closed spec fn view(&self) -> Seq<u8> {
        self.seen@
    }
}

impl Checksum {
    #[verifier::type_invariant]
    spec fn inv(self) -> bool {
        &&& self.low < MODULUS
        &&& self.high < MODULUS
        &&& absorb(initial_sums(), self.seen@) == (Sums {
            low: self.low as nat,
            high: self.high as nat,
        })
    }

    /// The checksum of no bytes.
    pub fn new() -> (c: Checksum)
        ensures
            c@ == Seq::<u8>::empty(),
    {
        Checksum { low: 1, high: 0, seen: Ghost(Seq::empty()) }
    }

    /// Takes the bytes of `data`.
    pub fn update(&mut self, data: &[u8])
        ensures
            final(self)@ == old(self)@ + data@,
    {
        proof {
            use_type_invariant(&*self);
        }
        let mut low = self.low;
        let mut high = self.high;
        let ghost before = self.seen@;
        let mut i: usize = 0;
        assert(before + data@.take(0) =~= before);
        while i < data.len()
            invariant
                i <= data.len(),
                low < MODULUS,
                high < MODULUS,
                absorb(initial_sums(), before + data@.take(i as int)) == (Sums {
                    low: low as nat,
                    high: high as nat,
                }),
            decreases data.len() - i,
        {
            proof {
                let so_far = before + data@.take(i as int);
                let next = before + data@.take(i + 1);
                assert(next.drop_last() =~= so_far);
                assert(next.last() == data@[i as int]);
            }
            low = (low + data[i] as u32) % MODULUS;
            high = (high + low) % MODULUS;
            i += 1;
        }
        assert(data@.take(i as int) =~= data@);
        *self = Checksum { low, high, seen: Ghost(before + data@) };
    }

    /// The checksum of the bytes taken so far.
    pub fn value(&self) -> (sum: u32)
        ensures
            sum == checksum_of(self@),
    {
        proof {
            use_type_invariant(self);
        }
        self.high * 65536 + self.low
    }
}

/// The checksum of `data`.
pub fn checksum(data: &[u8]) -> (sum: u32)
    ensures
        sum == checksum_of(data@),
{
    let mut c = Checksum::new();
    c.update(data);
    assert(Seq::<u8>::empty() + data@ =~= data@);
    c.value()
}

} // verus!
