//! What each shard reads of the input buffers, and how a shard's challenge point
//! is split to open the commitments of those buffers.

use vstd::prelude::*;

use vstd::arithmetic::div_mod::lemma_div_denominator;

use crate::graph::{graph_wf, template_shard_count, template_wf, ComputationGraph};
use crate::shard::{
    exp2, ilog2, is_pow2, lemma_exp2_monotone, lemma_exp2_pos, lemma_log2_of_pow2, lemma_shard_count_is_least_pow2,
    log2_floor, next_power_of_two,
};

verus! {

/// Why a shard's local view of the input buffers cannot be formed.
#[derive(Debug, Clone, Copy, PartialEq, Eq, Structural)]
pub enum PartitionError {
    /// The shard index is not below the shard count (or the count is zero).
    ShardOutOfRange { shard_index: usize, shard_count: usize },
    /// There is not exactly one broadcast flag per buffer.
    FlagCountMismatch { buffers: usize, flags: usize },
    /// A partitioned buffer's length is not a multiple of the shard count.
    NotDivisible { buffer: usize, len: usize, shard_count: usize },
}

/// The views of a sequence of vectors.
pub open spec fn views<T>(v: Seq<Vec<T>>) -> Seq<Seq<T>> {
    v.map_values(|b: Vec<T>| b@)
}

/// The `index`-th of `count` equal contiguous slices of `buf`.
pub open spec fn shard_slice<T>(buf: Seq<T>, index: nat, count: nat) -> Seq<T> {
    let w = buf.len() / count;
    buf.subrange((index * w) as int, ((index + 1) * w) as int)
}

/// What one shard reads of each buffer: the whole buffer when it is broadcast,
/// its own slice otherwise.
pub open spec fn spec_local_vals<T>(
    buffers: Seq<Seq<T>>,
    is_broadcast: Seq<bool>,
    index: nat,
    count: nat,
) -> Seq<Seq<T>> {
    Seq::new(
        buffers.len(),
        |i: int|
            if is_broadcast[i] {
                buffers[i]
            } else {
                shard_slice(buffers[i], index, count)
            },
    )
}

/// Buffer `i` is partitioned and cannot be cut into `count` equal slices.
pub open spec fn indivisible<T>(buffers: Seq<Seq<T>>, is_broadcast: Seq<bool>, i: int, count: nat) -> bool {
    !is_broadcast[i] && buffers[i].len() % count != 0
}

/// The error `get_local_vals` reports, if any.
pub open spec fn local_vals_error<T>(
    buffers: Seq<Seq<T>>,
    is_broadcast: Seq<bool>,
    index: nat,
    count: nat,
) -> Option<PartitionError> {
    if count == 0 || index >= count {
        Some(PartitionError::ShardOutOfRange { shard_index: index as usize, shard_count: count as usize })
    } else if is_broadcast.len() != buffers.len() {
        Some(
            PartitionError::FlagCountMismatch {
                buffers: buffers.len() as usize,
                flags: is_broadcast.len() as usize,
            },
        )
    } else if exists|i: int| 0 <= i < buffers.len() && indivisible(buffers, is_broadcast, i, count) {
        let i = choose|i: int|
            0 <= i < buffers.len() && indivisible(buffers, is_broadcast, i, count) && forall|j: int|
                0 <= j < i ==> !indivisible(buffers, is_broadcast, j, count);
        Some(
            PartitionError::NotDivisible {
                buffer: i as usize,
                len: buffers[i].len() as usize,
                shard_count: count as usize,
            },
        )
    } else {
        None
    }
}

/// A copy of `buf[start..end]`.
pub(crate) fn copy_range<T: Copy>(buf: &Vec<T>, start: usize, end: usize) -> (r: Vec<T>)
    requires
        start <= end <= buf.len(),
    ensures
        r@ == buf@.subrange(start as int, end as int),
{
    let mut r: Vec<T> = Vec::new();
    let mut j: usize = start;
    while j < end
        invariant
            start <= j <= end <= buf.len(),
            r@ == buf@.subrange(start as int, j as int),
        decreases end - j,
    {
        r.push(buf[j]);
        j = j + 1;
    }
    r
}

/// The first partitioned buffer that `count` shards cannot divide evenly.
fn first_indivisible<T>(buffers: &Vec<Vec<T>>, is_broadcast: &Vec<bool>, count: usize) -> (r: Option<usize>)
    requires
        count > 0,
        is_broadcast.len() == buffers.len(),
    ensures
        match r {
            Some(i) => i < buffers.len() && indivisible(views(buffers@), is_broadcast@, i as int, count as nat)
                && forall|j: int| 0 <= j < i ==> !indivisible(views(buffers@), is_broadcast@, j, count as nat),
            None => forall|j: int|
                0 <= j < buffers.len() ==> !indivisible(views(buffers@), is_broadcast@, j, count as nat),
        },
{
    let mut i: usize = 0;
    while i < buffers.len()
        invariant
            count > 0,
            is_broadcast.len() == buffers.len(),
            i <= buffers.len(),
            forall|j: int| 0 <= j < i ==> !indivisible(views(buffers@), is_broadcast@, j, count as nat),
        decreases buffers.len() - i,
    {
        if !is_broadcast[i] && buffers[i].len() % count != 0 {
            return Some(i);
        }
        i = i + 1;
    }
    None
}

/// The values that shard `shard_index` of `shard_count` reads: for each buffer the
/// whole of it when its flag says broadcast, else its `shard_index`-th of
/// `shard_count` equal contiguous slices.
pub fn get_local_vals<T: Copy>(
    buffers: &Vec<Vec<T>>,
    is_broadcast: &Vec<bool>,
    shard_index: usize,
    shard_count: usize,
) -> (r: Result<Vec<Vec<T>>, PartitionError>)
    ensures
        match local_vals_error(views(buffers@), is_broadcast@, shard_index as nat, shard_count as nat) {
            Some(e) => r == Err::<Vec<Vec<T>>, PartitionError>(e),
            None => r is Ok && views(r->Ok_0@) == spec_local_vals(
                views(buffers@),
                is_broadcast@,
                shard_index as nat,
                shard_count as nat,
            ),
        },
{
    let ghost bufs = views(buffers@);
    if shard_count == 0 || shard_index >= shard_count {
        return Err(PartitionError::ShardOutOfRange { shard_index, shard_count });
    }
    if is_broadcast.len() != buffers.len() {
        return Err(PartitionError::FlagCountMismatch { buffers: buffers.len(), flags: is_broadcast.len() });
    }
    match first_indivisible(buffers, is_broadcast, shard_count) {
        Some(i) => {
            proof {
                let k = choose|k: int|
                    0 <= k < bufs.len() && indivisible(bufs, is_broadcast@, k, shard_count as nat)
                        && forall|j: int| 0 <= j < k ==> !indivisible(bufs, is_broadcast@, j, shard_count as nat);
                assert(k == i as int) by {
                    if k < i {
                    } else if k > i {
                    }
                }
            }
            return Err(PartitionError::NotDivisible { buffer: i, len: buffers[i].len(), shard_count });
        },
        None => {},
    }
    let ghost spec_r = spec_local_vals(bufs, is_broadcast@, shard_index as nat, shard_count as nat);
    let mut out: Vec<Vec<T>> = Vec::new();
    let mut i: usize = 0;
    while i < buffers.len()
        invariant
            0 < shard_count,
            shard_index < shard_count,
            is_broadcast.len() == buffers.len(),
            bufs == views(buffers@),
            spec_r == spec_local_vals(bufs, is_broadcast@, shard_index as nat, shard_count as nat),
            i <= buffers.len(),
            out.len() == i,
            forall|j: int| 0 <= j < i ==> #[trigger] out@[j]@ == spec_r[j],
        decreases buffers.len() - i,
    {
        let buf = &buffers[i];
        if is_broadcast[i] {
            out.push(copy_range(buf, 0, buf.len()));
            assert(buf@.subrange(0, buf@.len() as int) =~= buf@);
        } else {
            let w = buf.len() / shard_count;
            proof {
                assert(shard_index * w + w <= shard_count * w) by (nonlinear_arith)
                    requires shard_index < shard_count;
                assert(shard_count * w <= buf.len()) by (nonlinear_arith)
                    requires w == buf.len() / shard_count, shard_count > 0;
                assert((shard_index + 1) * w == shard_index * w + w) by (nonlinear_arith);
            }
            out.push(copy_range(buf, shard_index * w, shard_index * w + w));
        }
        i = i + 1;
    }
    assert(views(out@) =~= spec_r);
    Ok(out)
}

/// A challenge point as the proof engine hands it out: the coordinates `rz` of the
/// circuit's input variables, the SIMD coordinates `r_simd`, and `r_mpi`, which
/// selects one of the shards.
#[derive(Debug, Clone, PartialEq, Eq)]
pub struct SingleVarChallenge<T> {
    pub rz: Vec<T>,
    pub r_simd: Vec<T>,
    pub r_mpi: Vec<T>,
}

/// The number of variables of the polynomial a commitment opens on: that of the
/// whole buffer when it is broadcast, that of one shard's slice otherwise.
pub open spec fn opening_vars(total_vals_len: nat, parallel_count: nat, is_broadcast: bool) -> nat {
    if is_broadcast {
        log2_floor(total_vals_len)
    } else {
        log2_floor(total_vals_len / parallel_count)
    }
}

/// The `rz` of the opening point: the first `opening_vars` coordinates, and for a
/// partitioned buffer `r_mpi` after them, since the shard is then part of the
/// polynomial's domain.
pub open spec fn spec_opening_rz<T>(
    rz: Seq<T>,
    r_mpi: Seq<T>,
    total_vals_len: nat,
    parallel_count: nat,
    is_broadcast: bool,
) -> Seq<T> {
    let n = opening_vars(total_vals_len, parallel_count, is_broadcast) as int;
    if is_broadcast {
        rz.take(n)
    } else {
        rz.take(n) + r_mpi
    }
}

/// The component index: the coordinates of `rz` past the opening's variables.
pub open spec fn spec_component_index<T>(
    rz: Seq<T>,
    total_vals_len: nat,
    parallel_count: nat,
    is_broadcast: bool,
) -> Seq<T> {
    rz.skip(opening_vars(total_vals_len, parallel_count, is_broadcast) as int)
}

/// When `partition_challenge_and_location_for_pcs_mpi` can split `rz`.
pub open spec fn partition_ok<T>(rz: Seq<T>, total_vals_len: nat, parallel_count: nat, is_broadcast: bool) -> bool {
    &&& total_vals_len >= 1
    &&& is_broadcast || (parallel_count >= 1 && total_vals_len / parallel_count >= 1)
    &&& opening_vars(total_vals_len, parallel_count, is_broadcast) <= rz.len()
}

/// Splits a challenge point for opening the commitment of a buffer of
/// `total_vals_len` elements read by `parallel_count` shards. Returns the point to
/// open at (its `r_mpi` cleared) and the component index.
pub fn partition_challenge_and_location_for_pcs_mpi<T: Copy>(
    gkr_challenge: &SingleVarChallenge<T>,
    total_vals_len: usize,
    parallel_count: usize,
    is_broadcast: bool,
) -> (r: (SingleVarChallenge<T>, Vec<T>))
    requires
        partition_ok(gkr_challenge.rz@, total_vals_len as nat, parallel_count as nat, is_broadcast),
    ensures
        r.0.rz@ == spec_opening_rz(
            gkr_challenge.rz@,
            gkr_challenge.r_mpi@,
            total_vals_len as nat,
            parallel_count as nat,
            is_broadcast,
        ),
        r.0.r_simd@ == gkr_challenge.r_simd@,
        r.0.r_mpi@ == Seq::<T>::empty(),
        r.1@ == spec_component_index(gkr_challenge.rz@, total_vals_len as nat, parallel_count as nat, is_broadcast),
{
    let rz = &gkr_challenge.rz;
    let n_vals_vars = if is_broadcast {
        ilog2(total_vals_len)
    } else {
        ilog2(total_vals_len / parallel_count)
    };
    let component_idx_vars = copy_range(rz, n_vals_vars, rz.len());
    let mut new_rz = copy_range(rz, 0, n_vals_vars);
    if !is_broadcast {
        let mut j: usize = 0;
        let ghost head = new_rz@;
        while j < gkr_challenge.r_mpi.len()
            invariant
                j <= gkr_challenge.r_mpi.len(),
                new_rz@ == head + gkr_challenge.r_mpi@.take(j as int),
            decreases gkr_challenge.r_mpi.len() - j,
        {
            new_rz.push(gkr_challenge.r_mpi[j]);
            j = j + 1;
            assert(gkr_challenge.r_mpi@.take(j as int) =~= gkr_challenge.r_mpi@.take(j - 1) + seq![
                gkr_challenge.r_mpi@[j - 1],
            ]);
        }
        assert(gkr_challenge.r_mpi@.take(j as int) =~= gkr_challenge.r_mpi@);
    }
    assert(rz@.subrange(0, n_vals_vars as int) =~= rz@.take(n_vals_vars as int));
    assert(rz@.subrange(n_vals_vars as int, rz@.len() as int) =~= rz@.skip(n_vals_vars as int));
    let r_simd = copy_range(&gkr_challenge.r_simd, 0, gkr_challenge.r_simd.len());
    assert(gkr_challenge.r_simd@.subrange(0, gkr_challenge.r_simd@.len() as int) =~= gkr_challenge.r_simd@);
    (SingleVarChallenge { rz: new_rz, r_simd, r_mpi: Vec::new() }, component_idx_vars)
}

proof fn lemma_slices_join<T>(
    buffers: Seq<Seq<T>>,
    is_broadcast: Seq<bool>,
    j: int,
    count: nat,
    k: nat,
)
    requires
        0 <= j < buffers.len(),
        !is_broadcast[j],
        count >= 1,
        buffers[j].len() % count == 0,
        k <= count,
    ensures
        Seq::new(k, |i: int| spec_local_vals(buffers, is_broadcast, i as nat, count)[j]).flatten()
            == buffers[j].take((k * (buffers[j].len() / count)) as int),
    decreases k,
{
    let b = buffers[j];
    let w = b.len() / count;
    let f = |i: int| spec_local_vals(buffers, is_broadcast, i as nat, count)[j];
    assert(count * w == b.len()) by (nonlinear_arith)
        requires
            w == b.len() / count,
            b.len() % count == 0,
            count >= 1,
    ;
    if k == 0 {
        assert(Seq::new(0, f) =~= Seq::<Seq<T>>::empty());
        assert(b.take(0) =~= Seq::<T>::empty());
    } else {
        let k1 = (k - 1) as nat;
        lemma_slices_join(buffers, is_broadcast, j, count, k1);
        assert(Seq::new(k, f) =~= Seq::new(k1, f).push(f(k1 as int)));
        Seq::new(k1, f).lemma_flatten_push(f(k1 as int));
        assert(k1 * w + w == k * w) by (nonlinear_arith)
            requires
                k1 + 1 == k,
        ;
        assert(k * w <= count * w) by (nonlinear_arith)
            requires
                k <= count,
        ;
        assert(b.take((k1 * w) as int) + b.subrange((k1 * w) as int, (k * w) as int) =~= b.take((k * w) as int));
    }
}

/// A partitioned buffer of length `L` split into `count` shards: each shard's view
/// holds `L / count` values, and the views of shards `0..count`, joined in order,
/// give the buffer back.
pub proof fn lemma_partition_reconstructs<T>(
    buffers: Seq<Seq<T>>,
    is_broadcast: Seq<bool>,
    j: int,
    count: nat,
)
    requires
        0 <= j < buffers.len(),
        !is_broadcast[j],
        count >= 1,
        buffers[j].len() % count == 0,
    ensures
        forall|i: nat|
            i < count ==> (#[trigger] spec_local_vals(buffers, is_broadcast, i, count))[j].len() == buffers[j].len()
                / count,
        Seq::new(count, |i: int| spec_local_vals(buffers, is_broadcast, i as nat, count)[j]).flatten()
            == buffers[j],
{
    let b = buffers[j];
    let w = b.len() / count;
    assert forall|i: nat| i < count implies (#[trigger] spec_local_vals(buffers, is_broadcast, i, count))[j].len()
        == w by {
        assert(i * w + w <= count * w) by (nonlinear_arith)
            requires
                i < count,
        ;
        assert(count * w == b.len()) by (nonlinear_arith)
            requires
                w == b.len() / count,
                b.len() % count == 0,
                count >= 1,
        ;
        assert((i + 1) * w == i * w + w) by (nonlinear_arith);
    }
    lemma_slices_join(buffers, is_broadcast, j, count, count);
    assert(count * w == b.len()) by (nonlinear_arith)
        requires
            w == b.len() / count,
            b.len() % count == 0,
            count >= 1,
    ;
    assert(b.take(b.len() as int) =~= b);
}

/// A broadcast buffer is seen whole by every shard.
pub proof fn lemma_broadcast_invariant<T>(buffers: Seq<Seq<T>>, is_broadcast: Seq<bool>, j: int, count: nat)
    requires
        0 <= j < buffers.len(),
        is_broadcast[j],
    ensures
        forall|i: nat| i < count ==> (#[trigger] spec_local_vals(buffers, is_broadcast, i, count))[j] == buffers[j],
{
}

/// The split of a challenge point can be undone: for a broadcast buffer the opening
/// `rz` followed by the component index is the original `rz`; for a partitioned one
/// the opening `rz` is the first `n` coordinates of `rz` followed by `r_mpi`, and those
/// `n` coordinates followed by the component index are the original `rz`.
pub proof fn lemma_challenge_partition_round_trip<T>(
    rz: Seq<T>,
    r_mpi: Seq<T>,
    total_vals_len: nat,
    parallel_count: nat,
    is_broadcast: bool,
)
    requires
        partition_ok(rz, total_vals_len, parallel_count, is_broadcast),
    ensures
        ({
            let n = opening_vars(total_vals_len, parallel_count, is_broadcast) as int;
            let opened = spec_opening_rz(rz, r_mpi, total_vals_len, parallel_count, is_broadcast);
            let component = spec_component_index(rz, total_vals_len, parallel_count, is_broadcast);
            &&& is_broadcast ==> opened + component == rz
            &&& !is_broadcast ==> opened.take(n) + component == rz && opened.skip(n) == r_mpi
        }),
{
    let n = opening_vars(total_vals_len, parallel_count, is_broadcast) as int;
    let opened = spec_opening_rz(rz, r_mpi, total_vals_len, parallel_count, is_broadcast);
    if is_broadcast {
        assert(opened + rz.skip(n) =~= rz);
    } else {
        assert(opened.take(n) =~= rz.take(n));
        assert(opened.skip(n) =~= r_mpi);
        assert(rz.take(n) + rz.skip(n) =~= rz);
    }
}

/// Why the opening points of a shard's commitments cannot be derived.
#[derive(Debug, Clone, Copy, PartialEq, Eq, Structural)]
pub enum OpeningError {
    /// Not one broadcast flag per commitment.
    FlagCountMismatch { commitments: usize, flags: usize },
    /// `r_mpi` names more shards than a `usize` can count.
    TooManyShardVars { vars: usize },
    /// The challenge cannot be split for this commitment (too few coordinates, or a
    /// buffer smaller than its shard count).
    Unsplittable { commitment: usize },
}

/// The number of shards `r_mpi` ranges over, or `None` when it exceeds `usize`.
fn shard_count_of_vars(vars: usize) -> (r: Option<usize>)
    ensures
        match r {
            Some(p) => p as nat == exp2(vars as nat),
            None => exp2(vars as nat) > usize::MAX,
        },
{
    let mut p: usize = 1;
    let mut i: usize = 0;
    while i < vars
        invariant
            i <= vars,
            p as nat == exp2(i as nat),
        decreases vars - i,
    {
        if p > usize::MAX / 2 {
            proof {
                lemma_exp2_monotone(i as nat, vars as nat);
            }
            return None;
        }
        p = p * 2;
        i = i + 1;
    }
    Some(p)
}

/// Derives from one shard's GKR challenge the point at which each commitment the
/// shard reads is opened, in argument order; the shard count is the one `r_mpi`
/// ranges over. The caller opens commitment `k` at point `k` and appends the
/// opening to the shard's transcript.
pub fn partition_single_gkr_claim_and_open_pcs_mpi<T: Copy>(
    vals_lens: &Vec<usize>,
    gkr_challenge: &SingleVarChallenge<T>,
    is_broadcast: &Vec<bool>,
) -> (r: Result<Vec<SingleVarChallenge<T>>, OpeningError>)
    ensures
        r is Ok <==> (vals_lens@.len() == is_broadcast@.len() && exp2(gkr_challenge.r_mpi@.len()) <= usize::MAX
            && forall|k: int|
            0 <= k < vals_lens@.len() ==> partition_ok(
                gkr_challenge.rz@,
                #[trigger] vals_lens@[k] as nat,
                exp2(gkr_challenge.r_mpi@.len()),
                is_broadcast@[k],
            )),
        r matches Ok(points) ==> points@.len() == vals_lens@.len() && forall|k: int|
            0 <= k < points@.len() ==> {
                &&& (#[trigger] points@[k]).rz@ == spec_opening_rz(
                    gkr_challenge.rz@,
                    gkr_challenge.r_mpi@,
                    vals_lens@[k] as nat,
                    exp2(gkr_challenge.r_mpi@.len()),
                    is_broadcast@[k],
                )
                &&& points@[k].r_simd@ == gkr_challenge.r_simd@
                &&& points@[k].r_mpi@.len() == 0
            },
{
    if vals_lens.len() != is_broadcast.len() {
        return Err(OpeningError::FlagCountMismatch { commitments: vals_lens.len(), flags: is_broadcast.len() });
    }
    let parallel_count = match shard_count_of_vars(gkr_challenge.r_mpi.len()) {
        None => {
            return Err(OpeningError::TooManyShardVars { vars: gkr_challenge.r_mpi.len() });
        },
        Some(p) => p,
    };
    let ghost pc = exp2(gkr_challenge.r_mpi@.len());
    proof {
        lemma_exp2_pos(gkr_challenge.r_mpi@.len());
    }
    let mut points: Vec<SingleVarChallenge<T>> = Vec::new();
    let mut k: usize = 0;
    while k < vals_lens.len()
        invariant
            vals_lens@.len() == is_broadcast@.len(),
            parallel_count as nat == pc,
            parallel_count >= 1,
            pc == exp2(gkr_challenge.r_mpi@.len()),
            k <= vals_lens.len(),
            points@.len() == k,
            forall|j: int|
                0 <= j < k ==> partition_ok(gkr_challenge.rz@, #[trigger] vals_lens@[j] as nat, pc, is_broadcast@[j]),
            forall|j: int|
                0 <= j < k ==> {
                    &&& (#[trigger] points@[j]).rz@ == spec_opening_rz(
                        gkr_challenge.rz@,
                        gkr_challenge.r_mpi@,
                        vals_lens@[j] as nat,
                        pc,
                        is_broadcast@[j],
                    )
                    &&& points@[j].r_simd@ == gkr_challenge.r_simd@
                    &&& points@[j].r_mpi@.len() == 0
                },
        decreases vals_lens.len() - k,
    {
        let len = vals_lens[k];
        let broadcast = is_broadcast[k];
        let n_vals_vars: usize;
        if len == 0 || (!broadcast && len / parallel_count == 0) {
            return Err(OpeningError::Unsplittable { commitment: k });
        }
        if broadcast {
            n_vals_vars = ilog2(len);
        } else {
            n_vals_vars = ilog2(len / parallel_count);
        }
        if n_vals_vars > gkr_challenge.rz.len() {
            return Err(OpeningError::Unsplittable { commitment: k });
        }
        let (point, _component) = partition_challenge_and_location_for_pcs_mpi(
            gkr_challenge,
            len,
            parallel_count,
            broadcast,
        );
        points.push(point);
        k = k + 1;
    }
    Ok(points)
}

/// The shard index `i` as `k` challenge coordinates, least significant bit first:
/// `one` for a set bit, `zero` otherwise.
pub open spec fn index_bits<T>(i: nat, k: nat, zero: T, one: T) -> Seq<T> {
    Seq::new(k, |j: int| if (i / exp2(j as nat)) % 2 == 1 { one } else { zero })
}

fn shard_index_bits<T: Copy>(i: usize, k: usize, zero: T, one: T) -> (r: Vec<T>)
    ensures
        r@ == index_bits(i as nat, k as nat, zero, one),
{
    let mut r: Vec<T> = Vec::new();
    let mut v: usize = i;
    let mut j: usize = 0;
    assert(exp2(0) == 1);
    while j < k
        invariant
            j <= k,
            v as nat == i as nat / exp2(j as nat),
            r@ == index_bits(i as nat, j as nat, zero, one),
        decreases k - j,
    {
        proof {
            lemma_exp2_pos(j as nat);
            lemma_div_denominator(i as int, exp2(j as nat) as int, 2);
            assert(exp2((j + 1) as nat) == exp2(j as nat) * 2);
        }
        r.push(if v % 2 == 1 { one } else { zero });
        v = v / 2;
        j = j + 1;
        assert(r@ =~= index_bits(i as nat, j as nat, zero, one));
    }
    r
}

/// The lengths of the buffers template `t` reads, in argument order.
pub open spec fn spec_template_lens(g: ComputationGraph, t: int) -> Seq<usize> {
    let ci = g.proof_templates@[t].commitment_indices@;
    Seq::new(ci.len(), |j: int| g.commitments_lens@[ci[j] as int])
}

/// The lengths of the buffers template `t` reads, in argument order.
pub fn template_lens(g: &ComputationGraph, t: usize) -> (r: Vec<usize>)
    requires
        graph_wf(*g),
        t < g.proof_templates.len(),
    ensures
        r@ == spec_template_lens(*g, t as int),
{
    assert(template_wf(*g, t as int));
    let ci = &g.proof_templates[t].commitment_indices;
    let mut r: Vec<usize> = Vec::new();
    let mut j: usize = 0;
    while j < ci.len()
        invariant
            graph_wf(*g),
            t < g.proof_templates.len(),
            template_wf(*g, t as int),
            ci == g.proof_templates@[t as int].commitment_indices,
            j <= ci.len(),
            r@ == spec_template_lens(*g, t as int).take(j as int),
        decreases ci.len() - j,
    {
        r.push(g.commitments_lens[ci[j]]);
        j = j + 1;
        assert(r@ =~= spec_template_lens(*g, t as int).take(j as int));
    }
    assert(r@ =~= spec_template_lens(*g, t as int));
    r
}

/// The buffers template `t` reads, in argument order, out of the global input
/// buffers `values`.
pub fn template_values<T: Copy>(g: &ComputationGraph, t: usize, values: &Vec<Vec<T>>) -> (r: Vec<Vec<T>>)
    requires
        graph_wf(*g),
        t < g.proof_templates.len(),
        values.len() == g.commitments_lens.len(),
    ensures
        ({
            let ci = g.proof_templates@[t as int].commitment_indices@;
            views(r@) == Seq::new(ci.len(), |j: int| values@[ci[j] as int]@)
        }),
{
    assert(template_wf(*g, t as int));
    let ci = &g.proof_templates[t].commitment_indices;
    let ghost want = Seq::new(ci@.len(), |j: int| values@[ci@[j] as int]@);
    let mut r: Vec<Vec<T>> = Vec::new();
    let mut j: usize = 0;
    while j < ci.len()
        invariant
            template_wf(*g, t as int),
            ci == g.proof_templates@[t as int].commitment_indices,
            values.len() == g.commitments_lens.len(),
            want == Seq::new(ci@.len(), |j: int| values@[ci@[j] as int]@),
            j <= ci.len(),
            views(r@) == want.take(j as int),
        decreases ci.len() - j,
    {
        let c = ci[j];
        let buf = &values[c];
        let copy = copy_range(buf, 0, buf.len());
        assert(buf@.subrange(0, buf@.len() as int) =~= buf@);
        assert(want[j as int] == copy@);
        let ghost before = views(r@);
        r.push(copy);
        assert(views(r@) =~= before.push(copy@));
        j = j + 1;
        assert(views(r@) =~= want.take(j as int));
    }
    assert(want.take(ci@.len() as int) =~= want);
    r
}

/// When the commitments of template `t` can be opened from a shard challenge
/// whose `rz` is `rz`.
pub open spec fn shard_openable<T>(g: ComputationGraph, t: int, rz: Seq<T>) -> bool {
    let lens = spec_template_lens(g, t);
    forall|j: int|
        0 <= j < lens.len() ==> partition_ok(
            rz,
            #[trigger] lens[j] as nat,
            template_shard_count(g, t),
            g.proof_templates@[t].is_broadcast@[j],
        )
}

/// The points at which shard `shard_index` of template `t` opens the commitments
/// it reads, in argument order. `challenge` is the shard's GKR challenge over its
/// local circuit; its `r_mpi` is replaced by the shard index, as
/// `log2(shard_count)` coordinates, least significant bit first (`zero` and `one`
/// are the challenge field's zero and one). The same function serves the prover,
/// which opens there, and the verifier, which checks the openings there.
pub fn shard_opening_points<T: Copy>(
    g: &ComputationGraph,
    t: usize,
    shard_index: usize,
    challenge: &SingleVarChallenge<T>,
    zero: T,
    one: T,
) -> (r: Result<Vec<SingleVarChallenge<T>>, OpeningError>)
    requires
        graph_wf(*g),
        t < g.proof_templates.len(),
        shard_index < template_shard_count(*g, t as int),
    ensures
        r is Ok <==> shard_openable(*g, t as int, challenge.rz@),
        r matches Ok(points) ==> {
            let lens = spec_template_lens(*g, t as int);
            let sc = template_shard_count(*g, t as int);
            let bits = index_bits(shard_index as nat, log2_floor(sc), zero, one);
            &&& points@.len() == lens.len()
            &&& forall|j: int|
                0 <= j < points@.len() ==> {
                    &&& (#[trigger] points@[j]).rz@ == spec_opening_rz(
                        challenge.rz@,
                        bits,
                        lens[j] as nat,
                        sc,
                        g.proof_templates@[t as int].is_broadcast@[j],
                    )
                    &&& points@[j].r_simd@ == challenge.r_simd@
                    &&& points@[j].r_mpi@.len() == 0
                }
        },
{
    assert(template_wf(*g, t as int));
    let sc = next_power_of_two(g.proof_templates[t].parallel_count);
    proof {
        lemma_log2_of_pow2(sc as nat);
    }
    let k = ilog2(sc);
    let bits = shard_index_bits(shard_index, k, zero, one);
    let rz = copy_range(&challenge.rz, 0, challenge.rz.len());
    let r_simd = copy_range(&challenge.r_simd, 0, challenge.r_simd.len());
    assert(challenge.rz@.subrange(0, challenge.rz@.len() as int) =~= challenge.rz@);
    assert(challenge.r_simd@.subrange(0, challenge.r_simd@.len() as int) =~= challenge.r_simd@);
    let full = SingleVarChallenge { rz, r_simd, r_mpi: bits };
    let lens = template_lens(g, t);
    partition_single_gkr_claim_and_open_pcs_mpi(&lens, &full, &g.proof_templates[t].is_broadcast)
}

/// The buffers template `t` reads out of the global input buffers `values`.
pub open spec fn spec_template_values<T>(g: ComputationGraph, t: int, values: Seq<Seq<T>>) -> Seq<Seq<T>> {
    let ci = g.proof_templates@[t].commitment_indices@;
    Seq::new(ci.len(), |j: int| values[ci[j] as int])
}

/// In a well-formed graph, with global input buffers of the declared lengths, a
/// buffer that template `t` reads partitioned is cut by the template's shards into
/// slices of `L / shard_count` values that, joined in shard order, give the buffer
/// back.
pub proof fn lemma_template_partition_reconstructs<T>(g: ComputationGraph, t: int, values: Seq<Seq<T>>, j: int)
    requires
        graph_wf(g),
        0 <= t < g.proof_templates@.len(),
        values.len() == g.commitments_lens@.len(),
        forall|c: int| 0 <= c < values.len() ==> (#[trigger] values[c]).len() == g.commitments_lens@[c],
        0 <= j < g.proof_templates@[t].commitment_indices@.len(),
        !g.proof_templates@[t].is_broadcast@[j],
    ensures
        ({
            let bufs = spec_template_values(g, t, values);
            let flags = g.proof_templates@[t].is_broadcast@;
            let sc = template_shard_count(g, t);
            let buf = values[g.proof_templates@[t].commitment_indices@[j] as int];
            &&& forall|i: nat| i < sc ==> (#[trigger] spec_local_vals(bufs, flags, i, sc))[j].len() == buf.len() / sc
            &&& Seq::new(sc, |i: int| spec_local_vals(bufs, flags, i as nat, sc)[j]).flatten() == buf
        }),
{
    assert(template_wf(g, t));
    let tp = g.proof_templates@[t];
    assert(values[tp.commitment_indices@[j] as int].len() == g.commitments_lens@[tp.commitment_indices@[j] as int]);
    lemma_shard_count_is_least_pow2(tp.parallel_count as nat);
    lemma_partition_reconstructs(spec_template_values(g, t, values), tp.is_broadcast@, j, template_shard_count(g, t));
}

/// In a well-formed graph, a buffer that template `t` reads broadcast is seen whole
/// by every one of the template's shards.
pub proof fn lemma_template_broadcast_invariant<T>(g: ComputationGraph, t: int, values: Seq<Seq<T>>, j: int)
    requires
        0 <= t < g.proof_templates@.len(),
        0 <= j < g.proof_templates@[t].commitment_indices@.len(),
        g.proof_templates@[t].is_broadcast@[j],
    ensures
        ({
            let bufs = spec_template_values(g, t, values);
            let flags = g.proof_templates@[t].is_broadcast@;
            let sc = template_shard_count(g, t);
            forall|i: nat|
                i < sc ==> (#[trigger] spec_local_vals(bufs, flags, i, sc))[j]
                    == values[g.proof_templates@[t].commitment_indices@[j] as int]
        }),
{
    lemma_broadcast_invariant(
        spec_template_values(g, t, values),
        g.proof_templates@[t].is_broadcast@,
        j,
        template_shard_count(g, t),
    );
}

} // verus!
