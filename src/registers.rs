//! The register array as a mathematical sequence: how a digest is recorded,
//! how two arrays merge, and the laws that follow.

use vstd::arithmetic::power2::pow2;
use vstd::prelude::*;

use crate::rank::{bit_width, lemma_width_bound, rank_in_window};

verus! {

/// Smallest precision a counter accepts.
pub const MIN_PRECISION: usize = 1;

/// Largest precision a counter accepts: 2^30 registers.
pub const MAX_PRECISION: usize = 30;

/// The bucket a digest falls in: its low `p` bits.
pub open spec fn bucket_of(x: u64, p: nat) -> int {
    (x as nat % pow2(p)) as int
}

/// The rank a digest carries: that of its high `64 - p` bits in their window.
pub open spec fn rank_of(x: u64, p: nat) -> int {
    rank_in_window(x as nat / pow2(p), 64 - p)
}

pub open spec fn max_u8(a: u8, b: u8) -> u8 {
    if a >= b {
        a
    } else {
        b
    }
}

/// The registers after recording digest `x` at precision `p`.
pub open spec fn record(regs: Seq<u8>, p: nat, x: u64) -> Seq<u8> {
    let j = bucket_of(x, p);
    regs.update(j, max_u8(regs[j], rank_of(x, p) as u8))
}

/// The registers after recording each digest of `xs`, in order.
pub open spec fn record_all(regs: Seq<u8>, p: nat, xs: Seq<u64>) -> Seq<u8>
    decreases xs.len(),
{
    if xs.len() == 0 {
        regs
    } else {
        record(record_all(regs, p, xs.drop_last()), p, xs.last())
    }
}

/// Element-wise maximum of two register arrays.
pub open spec fn merged(a: Seq<u8>, b: Seq<u8>) -> Seq<u8> {
    Seq::new(a.len(), |i: int| max_u8(a[i], b[i]))
}

/// `n` registers, all zero.
pub open spec fn zero_registers(n: nat) -> Seq<u8> {
    Seq::new(n, |i: int| 0u8)
}

/// How many registers hold zero.
pub open spec fn count_zeros(regs: Seq<u8>) -> nat
    decreases regs.len(),
{
    if regs.len() == 0 {
        0
    } else {
        count_zeros(regs.drop_last()) + if regs.last() == 0 {
            1nat
        } else {
            0nat
        }
    }
}

/// The sum of `2^-r` over the registers `r`, scaled by `2^64`.
pub open spec fn scaled_inverse_sum(regs: Seq<u8>) -> nat
    decreases regs.len(),
{
    if regs.len() == 0 {
        0
    } else {
        scaled_inverse_sum(regs.drop_last()) + pow2((64 - regs.last()) as nat)
    }
}

/// A precision that a counter accepts.
pub open spec fn precision_ok(p: nat) -> bool {
    MIN_PRECISION <= p <= MAX_PRECISION
}

/// A register array that a counter of precision `p` can hold: one register
/// per bucket, each at most the largest rank a digest can carry.
pub open spec fn registers_valid(regs: Seq<u8>, p: nat) -> bool {
    &&& precision_ok(p)
    &&& regs.len() == pow2(p)
    &&& forall|i: int| 0 <= i < regs.len() ==> #[trigger] regs[i] <= 65 - p
}

/// Every digest carries a rank between 1 and `65 - p`.
pub proof fn lemma_rank_bounds(x: u64, p: nat)
    requires
        p < 64,
    ensures
        1 <= rank_of(x, p) <= 65 - p,
{
    let w = x as nat / pow2(p);
    vstd::arithmetic::power2::lemma_pow2_pos(p);
    vstd::arithmetic::power2::lemma_pow2_adds(p, (64 - p) as nat);
    vstd::arithmetic::power2::lemma2_to64();
    assert((x as nat) < pow2(p) * pow2((64 - p) as nat));
    vstd::arithmetic::div_mod::lemma_multiply_divide_lt(
        x as int,
        pow2(p) as int,
        pow2((64 - p) as nat) as int,
    );
    assert(((64 - p) as nat) == 64 - p);
    lemma_width_bound(w, (64 - p) as nat);
}

/// The bucket of a digest lies inside the array.
pub proof fn lemma_bucket_bounds(x: u64, p: nat)
    ensures
        0 <= bucket_of(x, p) < pow2(p),
{
    vstd::arithmetic::power2::lemma_pow2_pos(p);
}

/// Recording a digest keeps the array valid.
pub proof fn lemma_record_valid(regs: Seq<u8>, p: nat, x: u64)
    requires
        registers_valid(regs, p),
    ensures
        registers_valid(record(regs, p, x), p),
{
    lemma_rank_bounds(x, p);
    lemma_bucket_bounds(x, p);
}

/// Recording a digest changes one register, and never lowers any.
pub proof fn lemma_record_monotone(regs: Seq<u8>, p: nat, x: u64)
    requires
        regs.len() == pow2(p),
    ensures
        record(regs, p, x).len() == regs.len(),
        forall|i: int| 0 <= i < regs.len() ==> regs[i] <= #[trigger] record(regs, p, x)[i],
{
    lemma_bucket_bounds(x, p);
}

/// Recording keeps the number of registers.
pub proof fn lemma_record_all_len(regs: Seq<u8>, p: nat, xs: Seq<u64>)
    requires
        regs.len() == pow2(p),
    ensures
        record_all(regs, p, xs).len() == regs.len(),
    decreases xs.len(),
{
    if xs.len() > 0 {
        lemma_record_all_len(regs, p, xs.drop_last());
        lemma_bucket_bounds(xs.last(), p);
    }
}

/// Along any stream of digests, no register ever decreases: the registers
/// after a prefix of the stream are at most those after the whole stream.
pub proof fn lemma_stream_monotone(regs: Seq<u8>, p: nat, xs: Seq<u64>, k: nat)
    requires
        regs.len() == pow2(p),
        k <= xs.len(),
    ensures
        record_all(regs, p, xs.take(k as int)).len() == regs.len(),
        record_all(regs, p, xs).len() == regs.len(),
        forall|i: int|
            0 <= i < regs.len() ==> #[trigger] record_all(regs, p, xs.take(k as int))[i]
                <= record_all(regs, p, xs)[i],
    decreases xs.len(),
{
    lemma_record_all_len(regs, p, xs);
    lemma_record_all_len(regs, p, xs.take(k as int));
    if k == xs.len() {
        assert(xs.take(k as int) =~= xs);
    } else {
        let rest = xs.drop_last();
        assert(rest.take(k as int) =~= xs.take(k as int));
        lemma_stream_monotone(regs, p, rest, k);
        lemma_record_all_len(regs, p, rest);
        lemma_record_monotone(record_all(regs, p, rest), p, xs.last());
    }
}

/// Recording the same digest twice is recording it once.
pub proof fn lemma_record_idempotent(regs: Seq<u8>, p: nat, x: u64)
    requires
        regs.len() == pow2(p),
    ensures
        record(record(regs, p, x), p, x) == record(regs, p, x),
{
    lemma_bucket_bounds(x, p);
    assert(record(record(regs, p, x), p, x) =~= record(regs, p, x));
}

/// Recording one digest `n >= 1` times leaves the registers as recording it
/// once does.
pub proof fn lemma_duplicates_idempotent(regs: Seq<u8>, p: nat, x: u64, n: nat)
    requires
        regs.len() == pow2(p),
        n >= 1,
    ensures
        record_all(regs, p, Seq::new(n, |i: int| x)) == record(regs, p, x),
    decreases n,
{
    let xs = Seq::new(n, |i: int| x);
    assert(xs.last() == x);
    assert(record_all(regs, p, xs) == record(record_all(regs, p, xs.drop_last()), p, x));
    if n == 1 {
        assert(record_all(regs, p, Seq::<u64>::empty()) == regs);
        assert(xs.drop_last() =~= Seq::<u64>::empty());
    } else {
        assert(xs.drop_last() =~= Seq::new((n - 1) as nat, |i: int| x));
        lemma_duplicates_idempotent(regs, p, x, (n - 1) as nat);
        lemma_record_idempotent(regs, p, x);
    }
}

/// Merging an array with itself gives it back.
pub proof fn lemma_merge_self(a: Seq<u8>)
    ensures
        merged(a, a) == a,
{
    assert(merged(a, a) =~= a);
}

/// Merging is commutative.
pub proof fn lemma_merge_commutative(a: Seq<u8>, b: Seq<u8>)
    requires
        a.len() == b.len(),
    ensures
        merged(a, b) == merged(b, a),
{
    assert(merged(a, b) =~= merged(b, a));
}

/// Merging is associative.
pub proof fn lemma_merge_associative(a: Seq<u8>, b: Seq<u8>, c: Seq<u8>)
    requires
        a.len() == b.len(),
        b.len() == c.len(),
    ensures
        merged(merged(a, b), c) == merged(a, merged(b, c)),
{
    assert(merged(merged(a, b), c) =~= merged(a, merged(b, c)));
}

/// Recording a digest into one side of a merge is recording it into the merge.
pub proof fn lemma_merge_record(a: Seq<u8>, b: Seq<u8>, p: nat, x: u64)
    requires
        a.len() == pow2(p),
        b.len() == pow2(p),
    ensures
        merged(a, record(b, p, x)) == record(merged(a, b), p, x),
{
    lemma_bucket_bounds(x, p);
    assert(merged(a, record(b, p, x)) =~= record(merged(a, b), p, x));
}

/// Recording a stream into one side of a merge is recording it into the merge.
pub proof fn lemma_merge_record_all(a: Seq<u8>, b: Seq<u8>, p: nat, ys: Seq<u64>)
    requires
        a.len() == pow2(p),
        b.len() == pow2(p),
    ensures
        merged(a, record_all(b, p, ys)) == record_all(merged(a, b), p, ys),
    decreases ys.len(),
{
    if ys.len() > 0 {
        lemma_merge_record_all(a, b, p, ys.drop_last());
        lemma_record_all_len(b, p, ys.drop_last());
        lemma_merge_record(a, record_all(b, p, ys.drop_last()), p, ys.last());
    }
}

/// Recording two streams one after the other is recording their concatenation.
pub proof fn lemma_record_all_append(regs: Seq<u8>, p: nat, xs: Seq<u64>, ys: Seq<u64>)
    ensures
        record_all(regs, p, xs + ys) == record_all(record_all(regs, p, xs), p, ys),
    decreases ys.len(),
{
    if ys.len() == 0 {
        assert(xs + ys =~= xs);
    } else {
        assert((xs + ys).drop_last() =~= xs + ys.drop_last());
        lemma_record_all_append(regs, p, xs, ys.drop_last());
    }
}

/// Merging with an all-zero array changes nothing.
pub proof fn lemma_merge_zero(a: Seq<u8>)
    ensures
        merged(a, zero_registers(a.len())) == a,
{
    assert(merged(a, zero_registers(a.len())) =~= a);
}

/// Two empty counters of one precision that record two streams, once merged,
/// hold exactly the registers of one counter that recorded both streams.
pub proof fn lemma_merge_of_split_stream(p: nat, xs: Seq<u64>, ys: Seq<u64>)
    ensures
        merged(
            record_all(zero_registers(pow2(p)), p, xs),
            record_all(zero_registers(pow2(p)), p, ys),
        ) == record_all(zero_registers(pow2(p)), p, xs + ys),
{
    let z = zero_registers(pow2(p));
    let a = record_all(z, p, xs);
    lemma_record_all_len(z, p, xs);
    lemma_merge_record_all(a, z, p, ys);
    lemma_merge_zero(a);
    lemma_record_all_append(z, p, xs, ys);
}

/// In an array of zeros every register counts as empty, and each adds
/// `2^64` to the scaled inverse sum.
pub proof fn lemma_empty_registers(n: nat)
    ensures
        count_zeros(zero_registers(n)) == n,
        scaled_inverse_sum(zero_registers(n)) == n * pow2(64),
    decreases n,
{
    if n > 0 {
        assert(zero_registers(n).drop_last() =~= zero_registers((n - 1) as nat));
        lemma_empty_registers((n - 1) as nat);
        assert(n * pow2(64) == (n - 1) * pow2(64) + pow2(64)) by (nonlinear_arith);
    }
}

} // verus!
