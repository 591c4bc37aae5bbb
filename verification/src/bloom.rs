use vstd::prelude::*;
use crate::types::{keccak256, keccak_of};

verus! {

/// A 2048-bit logs bloom filter, held as 256 bytes. Bit `m` of the filter
/// lives in byte `m / 8` at bit offset `m % 8`.
#[derive(Clone, Debug)]
pub struct Bloom {
    pub b: Vec<u8>,
}

/// Whether bit `m` is set in a 256-byte filter.
pub open spec fn bloom_bit(bits: Seq<u8>, m: int) -> bool {
    bits[m / 8] & (1u8 << (m % 8) as u8) != 0
}

/// The filter positions of one inserted item: the low 11 bits of the three
/// big-endian 16-bit windows at bytes 0-1, 2-3 and 4-5 of its Keccak-256.
pub open spec fn bloom_pos(digest: Seq<u8>, i: int) -> int {
    ((digest[2 * i] as int) * 256 + digest[2 * i + 1]) % 2048
}

impl View for Bloom {
    type V = Seq<u8>;

    open spec fn view(&self) -> Seq<u8> {
        self.b@
    }
}

impl Bloom {
    /// A filter is exactly 256 bytes.
    pub open spec fn wf(self) -> bool {
        self.b@.len() == 256
    }

    /// The empty filter: no bit set.
    pub fn new() -> (r: Bloom)
        ensures
            r.wf(),
            forall|m: int| 0 <= m < 2048 ==> !(#[trigger] bloom_bit(r@, m)),
            r@ =~= Seq::new(256, |i: int| 0u8),
    {
        let mut b: Vec<u8> = Vec::new();
        let mut i: usize = 0;
        while i < 256
            invariant
                i <= 256,
                b@.len() == i,
                forall|j: int| 0 <= j < i ==> b@[j] == 0u8,
            decreases 256 - i,
        {
            b.push(0u8);
            i += 1;
        }
        proof {
            assert forall|m: int| 0 <= m < 2048 implies !bloom_bit(b@, m) by {
                assert(b@[m / 8] == 0u8);
                let off = (m % 8) as u8;
                assert(0u8 & (1u8 << off) == 0) by (bit_vector);
            }
        }
        Bloom { b }
    }

    /// Set bit `m`; every other bit keeps its value.
    pub fn set_bit(&mut self, m: usize)
        requires
            old(self).wf(),
            m < 2048,
        ensures
            final(self).wf(),
            bloom_bit(final(self)@, m as int),
            forall|k: int|
                0 <= k < 2048 && k != m ==> (#[trigger] bloom_bit(final(self)@, k)) == bloom_bit(
                    old(self)@,
                    k,
                ),
    {
        let byte: usize = m / 8;
        let off: u8 = (m % 8) as u8;
        let oldv: u8 = self.b[byte];
        let newv: u8 = oldv | (1u8 << off);
        self.b.set(byte, newv);
        proof {
            let mi = m as int;
            assert(newv & (1u8 << off) != 0) by (bit_vector)
                requires
                    newv == oldv | (1u8 << off),
                    off < 8,
            ;
            assert forall|k: int| 0 <= k < 2048 && k != mi implies bloom_bit(self@, k)
                == bloom_bit(old(self)@, k) by {
                if k / 8 == mi / 8 {
                    let ko = (k % 8) as u8;
                    assert(ko != off) by {
                        if ko == off {
                            assert(k == (k / 8) * 8 + k % 8);
                            assert(mi == (mi / 8) * 8 + mi % 8);
                        }
                    }
                    assert((newv & (1u8 << ko) != 0) == (oldv & (1u8 << ko) != 0)) by (bit_vector)
                        requires
                            newv == oldv | (1u8 << off),
                            ko != off,
                            ko < 8,
                            off < 8,
                    ;
                } else {
                    assert(self@[k / 8] == old(self)@[k / 8]);
                }
            }
        }
    }

    /// Insert a 20- or 32-byte item: set the three bits that its Keccak-256
    /// digest selects, leaving every other bit as it was.
    pub fn insert_item(&mut self, item: &Vec<u8>)
        requires
            old(self).wf(),
        ensures
            final(self).wf(),
            forall|k: int|
                0 <= k < 2048 ==> (#[trigger] bloom_bit(final(self)@, k)) == (bloom_bit(
                    old(self)@,
                    k,
                ) || k == bloom_pos(keccak_of(item@), 0) || k == bloom_pos(keccak_of(item@), 1)
                    || k == bloom_pos(keccak_of(item@), 2)),
    {
        let digest = keccak256(item);
        let ghost d = keccak_of(item@);
        let mut w: usize = 0;
        while w < 3
            invariant
                self.wf(),
                d.len() == 32,
                d == keccak_of(item@),
                digest@ == d,
                w <= 3,
                forall|k: int|
                    0 <= k < 2048 ==> bloom_bit(self@, k) == (bloom_bit(old(self)@, k)
                        || exists|i: int| 0 <= i < w && k == bloom_pos(d, i)),
            decreases 3 - w,
        {
            let hi = digest[2 * w];
            let lo = digest[2 * w + 1];
            let m: usize = ((hi as usize) * 256 + (lo as usize)) % 2048;
            proof {
                assert(m == bloom_pos(d, w as int));
            }
            self.set_bit(m);
            w += 1;
            proof {
                assert forall|k: int|
                    0 <= k < 2048 implies bloom_bit(self@, k) == (bloom_bit(old(self)@, k)
                        || exists|i: int| 0 <= i < w && k == bloom_pos(d, i)) by {
                    if k == m {
                        assert(k == bloom_pos(d, w - 1));
                    }
                }
            }
        }
        proof {
            assert forall|k: int|
                0 <= k < 2048 implies bloom_bit(self@, k) == (bloom_bit(old(self)@, k) || k
                    == bloom_pos(d, 0) || k == bloom_pos(d, 1) || k == bloom_pos(d, 2)) by {
                if bloom_bit(self@, k) && !bloom_bit(old(self)@, k) {
                    let i = choose|i: int| 0 <= i < 3 && k == bloom_pos(d, i);
                    assert(i == 0 || i == 1 || i == 2);
                }
            }
        }
    }

    /// Bitwise union: bit `k` of the result is the disjunction of the
    /// operands' bits `k`.
    pub fn union(&self, other: &Bloom) -> (r: Bloom)
        requires
            self.wf(),
            other.wf(),
        ensures
            r.wf(),
            forall|k: int|
                0 <= k < 2048 ==> (#[trigger] bloom_bit(r@, k)) == (bloom_bit(self@, k)
                    || bloom_bit(other@, k)),
    {
        let mut b: Vec<u8> = Vec::new();
        let mut i: usize = 0;
        while i < 256
            invariant
                self.wf(),
                other.wf(),
                i <= 256,
                b@.len() == i,
                forall|j: int| 0 <= j < i ==> b@[j] == (self@[j] | other@[j]),
            decreases 256 - i,
        {
            b.push(self.b[i] | other.b[i]);
            i += 1;
        }
        proof {
            assert forall|k: int|
                0 <= k < 2048 implies bloom_bit(b@, k) == (bloom_bit(self@, k) || bloom_bit(
                    other@,
                    k,
                )) by {
                let x = self@[k / 8];
                let y = other@[k / 8];
                let ko = (k % 8) as u8;
                assert(((x | y) & (1u8 << ko) != 0) == ((x & (1u8 << ko) != 0) || (y & (1u8 << ko)
                    != 0))) by (bit_vector);
            }
        }
        Bloom { b }
    }

    /// A copy with the same bytes.
    pub fn duplicate(&self) -> (r: Bloom)
        ensures
            r@ == self@,
            self.wf() ==> r.wf(),
    {
        Bloom { b: crate::types::clone_bytes(&self.b) }
    }

    /// Equality of the 2048 bit positions, byte for byte.
    pub fn eq_bits(&self, other: &Bloom) -> (r: bool)
        ensures
            r == (self@ =~= other@),
    {
        crate::types::bytes_eq(&self.b, &other.b)
    }
}

} // verus!
