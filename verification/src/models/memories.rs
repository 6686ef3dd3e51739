//! A memory of `DB`-bit words addressed by an `AB`-bit address, read and
//! written on each clock; it grows as higher addresses are reached
use vstd::prelude::*;

use crate::bit::Bit;
use crate::bv::Bv;
use crate::edge_mask::SimEdgeMask;

verus! {

/// The inputs of a memory
#[derive(Clone, Copy)]
pub struct Inputs<const DB: usize, const AB: usize> {
    pub read_enable: Bit,
    pub write_enable: Bit,
    pub address: Bv<AB>,
    pub write_data: Bv<DB>,
}

/// The outputs of a memory
#[derive(Clone, Copy)]
pub struct Outputs<const DB: usize> {
    pub read_valid: Bit,
    pub read_data: Bv<DB>,
}

/// A memory whose addresses run up to `size`; `data` holds the words
/// reached so far
pub struct Memory<const DB: usize, const AB: usize> {
    pub size: usize,
    pub data: Vec<Bv<DB>>,
    pub inputs: Inputs<DB, AB>,
    pub outputs: Outputs<DB>,
}

/// `v` is valid and zero
pub open spec fn is_zero_word<const DB: usize>(v: Bv<DB>) -> bool {
    v.is_valid() && v.value() == 0
}

/// `r` is what a read at `a` gives of the words `data`: the word held
/// there, zero beyond them
pub open spec fn read_word<const DB: usize>(data: Seq<Bv<DB>>, a: nat, r: Bv<DB>) -> bool {
    if a < data.len() {
        r == data[a as int]
    } else {
        is_zero_word(r)
    }
}

/// `new` is the words `old` after an access at `a`: extended with zero
/// words to reach `a`, with `wd` at `a` when `write`
pub open spec fn words_after<const DB: usize>(
    old: Seq<Bv<DB>>,
    a: nat,
    write: bool,
    wd: Bv<DB>,
    new: Seq<Bv<DB>>,
) -> bool {
    &&& new.len() == if a < old.len() {
        old.len()
    } else {
        a + 1
    }
    &&& write ==> new[a as int] == wd
    &&& forall|i: int|
        0 <= i < new.len() && !(write && i == a) && i < old.len() ==> #[trigger] new[i] == old[i]
    &&& forall|i: int|
        0 <= i < new.len() && !(write && i == a) && i >= old.len() ==> is_zero_word(
            #[trigger] new[i],
        )
}

impl<const DB: usize, const AB: usize> Memory<DB, AB> {
    /// An empty memory of the given size, all signals zero
    pub fn new(size: usize) -> (r: Self)
        ensures
            r.size == size,
            r.data@.len() == 0,
            !r.inputs.read_enable@ && !r.inputs.write_enable@,
            is_zero_word(r.inputs.address),
            is_zero_word(r.inputs.write_data),
            !r.outputs.read_valid@,
            is_zero_word(r.outputs.read_data),
    {
        Memory {
            size,
            data: Vec::new(),
            inputs: Inputs {
                read_enable: Bit::F,
                write_enable: Bit::F,
                address: Bv::zero_value(),
                write_data: Bv::zero_value(),
            },
            outputs: Outputs { read_valid: Bit::F, read_data: Bv::zero_value() },
        }
    }

    /// Configure the size
    pub fn configure(&mut self, size: usize)
        ensures
            final(self).size == size,
            final(self).data == old(self).data,
            final(self).inputs == old(self).inputs,
            final(self).outputs == old(self).outputs,
    {
        self.size = size;
    }

    /// A clock: `read_valid` shows whether a read was asked; a read gives
    /// the word at the address, then a write stores the data there. The
    /// result is false, with no word read or written, where the address
    /// is beyond the size (or wider than 64 bits)
    pub fn clock(&mut self, _mask: SimEdgeMask) -> (ok: bool)
        requires
            old(self).size < usize::MAX,
        ensures
            final(self).size == old(self).size,
            final(self).inputs == old(self).inputs,
            final(self).outputs.read_valid@ == old(self).inputs.read_enable@,
            ok == (!(old(self).inputs.read_enable@ || old(self).inputs.write_enable@) || (AB <= 64
                && old(self).inputs.address.value() <= old(self).size)),
            !ok || !(old(self).inputs.read_enable@ || old(self).inputs.write_enable@)
                ==> final(self).data@ == old(self).data@
                && final(self).outputs.read_data == old(self).outputs.read_data,
            ok && (old(self).inputs.read_enable@ || old(self).inputs.write_enable@) ==> words_after(
                old(self).data@,
                old(self).inputs.address.value(),
                old(self).inputs.write_enable@,
                old(self).inputs.write_data,
                final(self).data@,
            ),
            ok && old(self).inputs.read_enable@ ==> read_word(
                old(self).data@,
                old(self).inputs.address.value(),
                final(self).outputs.read_data,
            ),
            !old(self).inputs.read_enable@
                ==> final(self).outputs.read_data == old(self).outputs.read_data,
    {
        let read = self.inputs.read_enable.is_true();
        let write = self.inputs.write_enable.is_true();
        self.outputs.read_valid = if read {
            Bit::T
        } else {
            Bit::F
        };
        if read || write {
            let address = match self.inputs.address.try_as_u64() {
                Some(a) => a,
                None => {
                    return false;
                },
            };
            if address > self.size as u64 {
                return false;
            }
            let address = address as usize;
            let ghost d0 = self.data@;
            while self.data.len() <= address
                invariant
                    address <= self.size < usize::MAX,
                    self.size == old(self).size,
                    self.inputs == old(self).inputs,
                    self.outputs.read_valid@ == read,
                    read == old(self).inputs.read_enable@,
                    self.outputs.read_data == old(self).outputs.read_data,
                    d0 == old(self).data@,
                    d0.len() <= address ==> self.data@.len() <= address + 1,
                    d0.len() <= address ==> self.data@.len() >= d0.len(),
                    d0.len() > address ==> self.data@ == d0,
                    forall|i: int| 0 <= i < d0.len() && i < self.data@.len() ==> #[trigger] self.data@[i] == d0[i],
                    forall|i: int|
                        d0.len() <= i < self.data@.len() ==> is_zero_word(#[trigger] self.data@[i]),
                decreases address + 1 - self.data@.len(),
            {
                self.data.push(Bv::zero_value());
            }
            let ghost d1 = self.data@;
            if read {
                self.outputs.read_data = self.data[address];
            }
            if write {
                self.data.set(address, self.inputs.write_data);
            }
            proof {
                assert(d1.len() == if address < d0.len() { d0.len() } else { (address + 1) as nat });
            }
        }
        true
    }
}

/// A read at an address gives the word last written there
pub proof fn law_read_after_write<const DB: usize>(
    before: Seq<Bv<DB>>,
    a: nat,
    wd: Bv<DB>,
    after: Seq<Bv<DB>>,
    r: Bv<DB>,
)
    requires
        words_after(before, a, true, wd, after),
        read_word(after, a, r),
    ensures
        r == wd,
{
    assert(after[a as int] == wd);
}

/// An access at one address leaves the word at any other address as it
/// was, so a read there gives what it gave before (a word reached for
/// the first time reads as zero)
pub proof fn law_other_words_kept<const DB: usize>(
    before: Seq<Bv<DB>>,
    a: nat,
    write: bool,
    wd: Bv<DB>,
    after: Seq<Bv<DB>>,
    b: nat,
    r: Bv<DB>,
)
    requires
        words_after(before, a, write, wd, after),
        b != a,
    ensures
        b < before.len() ==> after[b as int] == before[b as int],
        read_word(after, b, r) ==> read_word(before, b, r),
{
    if b < before.len() {
        assert(after[b as int] == before[b as int]);
    } else if b < after.len() {
        assert(is_zero_word(after[b as int]));
    }
}

} // verus!
