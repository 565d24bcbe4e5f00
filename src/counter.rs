//! The counter: a precision and its register array.

use vstd::arithmetic::power2::pow2;
use vstd::prelude::*;

use crate::digest::{digest, sip_digest};
use crate::rank::{rank_in_window, rho};
use crate::registers::{
    bucket_of, count_zeros, lemma_bucket_bounds, lemma_rank_bounds, lemma_record_monotone,
    lemma_record_valid, merged, precision_ok, rank_of, record, registers_valid,
    scaled_inverse_sum, zero_registers, MAX_PRECISION, MIN_PRECISION,
};

verus! {

/// A precision outside the accepted range was asked for.
#[derive(Debug, Clone, Copy, PartialEq, Eq, Structural)]
pub struct ConfigurationError {
    pub precision: usize,
}

/// Two counters of different precisions cannot be merged.
#[derive(Debug, Clone, Copy, PartialEq, Eq, Structural)]
pub struct MergeError {
    pub left: usize,
    pub right: usize,
}

/// A LogLog-Beta cardinality counter of `2^p` registers.
pub struct LogLogBeta {
    p: usize,
    registers: Vec<u8>,
}

impl LogLogBeta {
    /// The precision `p`: the counter has `2^p` buckets.
    pub closed spec fn spec_precision(&self) -> nat {
        self.p as nat
    }

    /// The registers, one per bucket.
    pub closed spec fn spec_registers(&self) -> Seq<u8> {
        self.registers@
    }

    /// The counter's invariant: an accepted precision, one register per
    /// bucket, and no register above the largest possible rank.
    pub open spec fn wf(&self) -> bool {
        registers_valid(self.spec_registers(), self.spec_precision())
    }

    /// An empty counter of `2^p` buckets, for `p` in
    /// `MIN_PRECISION..=MAX_PRECISION`.
    pub fn with_precision(p: usize) -> (r: Result<LogLogBeta, ConfigurationError>)
        ensures
            r is Ok <==> precision_ok(p as nat),
            r matches Ok(c) ==> c.wf() && c.spec_precision() == p && c.spec_registers()
                == zero_registers(pow2(p as nat)),
            r matches Err(e) ==> e == (ConfigurationError { precision: p }),
    {
        if p < MIN_PRECISION || p > MAX_PRECISION {
            return Err(ConfigurationError { precision: p });
        }
        let m: usize = 1usize << p;
        proof {
            vstd::bits::lemma_usize_pow2_no_overflow(p as nat);
            vstd::bits::lemma_usize_shl_is_mul(1, p);
        }
        let mut registers: Vec<u8> = Vec::new();
        let mut i: usize = 0;
        while i < m
            invariant
                i <= m,
                m == pow2(p as nat),
                registers@ == zero_registers(i as nat),
            decreases m - i,
        {
            registers.push(0u8);
            i += 1;
            proof {
                assert(registers@ =~= zero_registers(i as nat));
            }
        }
        Ok(LogLogBeta { p, registers })
    }

    /// The precision `p`.
    pub fn precision(&self) -> (r: usize)
        ensures
            r == self.spec_precision(),
    {
        self.p
    }

    /// The number of buckets, `2^p`.
    pub fn bucket_count(&self) -> (r: u64)
        requires
            self.wf(),
        ensures
            r == pow2(self.spec_precision()),
    {
        proof {
            vstd::bits::lemma_u64_pow2_no_overflow(self.p as nat);
            vstd::bits::lemma_u64_shl_is_mul(1, self.p as u64);
        }
        1u64 << (self.p as u64)
    }

    /// The registers, one per bucket.
    pub fn registers(&self) -> (r: &[u8])
        ensures
            r@ == self.spec_registers(),
    {
        self.registers.as_slice()
    }

    /// Records a 64-bit digest: its low `p` bits pick a register, which
    /// rises to the rank of the remaining bits if that is larger. The rank of
    /// a remainder is always positive, so recording cannot fail.
    pub fn insert_digest(&mut self, x: u64)
        requires
            old(self).wf(),
        ensures
            final(self).wf(),
            final(self).spec_precision() == old(self).spec_precision(),
            final(self).spec_registers() == record(
                old(self).spec_registers(),
                old(self).spec_precision(),
                x,
            ),
            forall|i: int|
                0 <= i < old(self).spec_registers().len() ==> old(self).spec_registers()[i]
                    <= #[trigger] final(self).spec_registers()[i],
    {
        let p = self.p;
        proof {
            let pn = p as nat;
            vstd::bits::lemma_u64_pow2_no_overflow(pn);
            vstd::bits::lemma_u64_shl_is_mul(1, p as u64);
            vstd::bits::lemma_u64_shr_is_div(x, p as u64);
            vstd::bits::lemma_u64_low_bits_mask_is_mod(x, pn);
            lemma_rank_bounds(x, pn);
            lemma_bucket_bounds(x, pn);
            lemma_record_valid(self.registers@, pn, x);
            lemma_record_monotone(self.registers@, pn, x);
        }
        let mask: u64 = (1u64 << (p as u64)) - 1;
        let w: u64 = x >> (p as u64);
        let j: u64 = x & mask;
        proof {
            assert(mask == vstd::bits::low_bits_mask(p as nat) as u64);
            assert(j as int == bucket_of(x, p as nat));
            assert(w as nat == x as nat / pow2(p as nat));
            assert(rank_in_window(w as nat, (64 - p) as isize as int) == rank_of(x, p as nat));
            vstd::bits::lemma_usize_pow2_no_overflow(p as nat);
        }
        let idx = j as usize;
        match rho(w, 64 - p as isize) {
            Ok(rank) => {
                let rank = rank as u8;
                if rank > self.registers[idx] {
                    self.registers.set(idx, rank);
                }
                proof {
                    assert(self.registers@ =~= record(old(self).registers@, p as nat, x));
                }
            },
            Err(_) => {
                // the remainder has at most 64 - p bits, so its rank is positive
                proof {
                    assert(false);
                }
            },
        }
    }

    /// Records an element given by its bytes, through its SipHash digest.
    pub fn insert(&mut self, element: &[u8])
        requires
            old(self).wf(),
        ensures
            final(self).wf(),
            final(self).spec_precision() == old(self).spec_precision(),
            final(self).spec_registers() == record(
                old(self).spec_registers(),
                old(self).spec_precision(),
                sip_digest(element@),
            ),
    {
        let x = digest(element);
        self.insert_digest(x);
    }

    /// How many registers are still zero.
    pub fn zero_count(&self) -> (r: usize)
        requires
            self.wf(),
        ensures
            r == count_zeros(self.spec_registers()),
    {
        let n = self.registers.len();
        let mut count: usize = 0;
        let mut i: usize = 0;
        while i < n
            invariant
                n == self.registers@.len(),
                i <= n,
                count <= i,
                count == count_zeros(self.registers@.take(i as int)),
            decreases n - i,
        {
            proof {
                assert(self.registers@.take(i + 1).drop_last() =~= self.registers@.take(i as int));
            }
            if self.registers[i] == 0 {
                count += 1;
            }
            i += 1;
        }
        proof {
            assert(self.registers@.take(n as int) =~= self.registers@);
        }
        count
    }

    /// The sum of `2^-r` over the registers `r`, scaled by `2^64` so that it
    /// is an exact integer.
    pub fn scaled_inverse_sum(&self) -> (r: u128)
        requires
            self.wf(),
        ensures
            r == scaled_inverse_sum(self.spec_registers()),
    {
        let n = self.registers.len();
        let ghost regs = self.registers@;
        proof {
            vstd::arithmetic::power2::lemma2_to64();
            vstd::arithmetic::power2::lemma_pow2_strictly_increases(MAX_PRECISION as nat, 64);
            if self.p < MAX_PRECISION {
                vstd::arithmetic::power2::lemma_pow2_strictly_increases(
                    self.p as nat,
                    MAX_PRECISION as nat,
                );
            }
        }
        let mut sum: u128 = 0;
        let mut i: usize = 0;
        while i < n
            invariant
                regs == self.registers@,
                n == regs.len(),
                n <= pow2(MAX_PRECISION as nat),
                pow2(MAX_PRECISION as nat) == 0x40000000,
                pow2(64) == 0x10000000000000000,
                forall|k: int| 0 <= k < regs.len() ==> #[trigger] regs[k] <= 64,
                i <= n,
                sum <= i * 0x10000000000000000,
                sum == scaled_inverse_sum(regs.take(i as int)),
            decreases n - i,
        {
            proof {
                assert(regs.take(i + 1).drop_last() =~= regs.take(i as int));
            }
            let v = self.registers[i];
            let term: u128 = if v == 0 {
                0x10000000000000000u128
            } else {
                proof {
                    vstd::bits::lemma_u64_pow2_no_overflow((64 - v) as nat);
                    vstd::bits::lemma_u64_shl_is_mul(1, (64 - v) as u64);
                }
                (1u64 << ((64 - v) as u64)) as u128
            };
            proof {
                if v > 0 {
                    vstd::arithmetic::power2::lemma_pow2_strictly_increases((64 - v) as nat, 64);
                }
                assert(term == pow2((64 - v) as nat));
                assert(sum + term <= (i + 1) * 0x10000000000000000) by (nonlinear_arith)
                    requires
                        sum <= i * 0x10000000000000000,
                        term <= 0x10000000000000000,
                ;
                assert((i + 1) * 0x10000000000000000 <= 0x40000000 * 0x10000000000000000)
                    by (nonlinear_arith)
                    requires
                        i + 1 <= 0x40000000,
                ;
            }
            sum = sum + term;
            i += 1;
        }
        proof {
            assert(regs.take(n as int) =~= regs);
        }
        sum
    }

    /// Combines two counters of one precision: each register of the result
    /// is the larger of the two corresponding registers. Fails with
    /// [`MergeError`] when the precisions differ.
    pub fn merge(&self, b: LogLogBeta) -> (r: Result<LogLogBeta, MergeError>)
        requires
            self.wf(),
            b.wf(),
        ensures
            r is Ok <==> self.spec_precision() == b.spec_precision(),
            r matches Ok(c) ==> c.wf() && c.spec_precision() == self.spec_precision()
                && c.spec_registers() == merged(self.spec_registers(), b.spec_registers()),
            r matches Err(e) ==> e.left == self.spec_precision() && e.right == b.spec_precision(),
    {
        if self.p != b.p {
            return Err(MergeError { left: self.p, right: b.p });
        }
        let n = self.registers.len();
        let mut out: Vec<u8> = Vec::new();
        let mut i: usize = 0;
        while i < n
            invariant
                n == self.registers@.len(),
                n == b.registers@.len(),
                i <= n,
                out@ == merged(self.registers@.take(i as int), b.registers@.take(i as int)),
            decreases n - i,
        {
            let x = self.registers[i];
            let y = b.registers[i];
            if x >= y {
                out.push(x);
            } else {
                out.push(y);
            }
            i += 1;
            proof {
                assert(out@ =~= merged(
                    self.registers@.take(i as int),
                    b.registers@.take(i as int),
                ));
            }
        }
        proof {
            assert(self.registers@.take(n as int) =~= self.registers@);
            assert(b.registers@.take(n as int) =~= b.registers@);
        }
        Ok(LogLogBeta { p: self.p, registers: out })
    }
}

} // verus!
