//! The byte layouts of the shared memory regions, and when a region is grown.

use vstd::prelude::*;

use vstd::arithmetic::div_mod::{lemma_div_denominator, lemma_mod_breakdown, lemma_small_mod};

use crate::combined::{CombinedProof, Commitment, ExpanderProof};
use crate::partition::{copy_range, views};

verus! {

/// `256^n`.
pub open spec fn pow256(n: nat) -> nat
    decreases n,
{
    if n == 0 {
        1
    } else {
        256 * pow256((n - 1) as nat)
    }
}

/// The number that the bytes `b` encode, least significant byte first.
pub open spec fn le_value(b: Seq<u8>) -> nat
    decreases b.len(),
{
    if b.len() == 0 {
        0
    } else {
        b[0] as nat + 256 * le_value(b.drop_first())
    }
}

/// The `n` least significant bytes of `x`, least significant first.
pub open spec fn le_digits(x: nat, n: nat) -> Seq<u8> {
    Seq::new(n, |i: int| ((x / pow256(i as nat)) % 256) as u8)
}

/// The eight-byte little-endian encoding of `x`.
pub open spec fn le8(x: nat) -> Seq<u8> {
    le_digits(x, 8)
}

/// The buffers of a witness region, each as its element count (eight bytes,
/// little endian) followed by its bytes, one after the other.
pub open spec fn buffers_layout(bufs: Seq<Seq<u8>>, elem_size: nat) -> Seq<u8>
    decreases bufs.len(),
{
    if bufs.len() == 0 {
        Seq::empty()
    } else {
        let last = bufs.last();
        buffers_layout(bufs.drop_last(), elem_size) + le8(last.len() / elem_size) + last
    }
}

/// The bytes of a witness region: the number of buffers (eight bytes, little
/// endian), then each buffer's element count and its raw element bytes.
pub open spec fn witness_layout(bufs: Seq<Seq<u8>>, elem_size: nat) -> Seq<u8> {
    le8(bufs.len()) + buffers_layout(bufs, elem_size)
}

/// Reads `n` buffers laid out as in `buffers_layout` from the front of `b`;
/// whatever follows them is ignored. `None` when `b` ends too early.
pub open spec fn parse_buffers(b: Seq<u8>, n: nat, elem_size: nat) -> Option<Seq<Seq<u8>>>
    decreases n,
{
    if n == 0 {
        Some(Seq::empty())
    } else if b.len() < 8 {
        None
    } else {
        let size = le_value(b.take(8)) * elem_size;
        if b.len() < 8 + size {
            None
        } else {
            match parse_buffers(b.skip(8 + size as int), (n - 1) as nat, elem_size) {
                Some(rest) => Some(seq![b.subrange(8, 8 + size as int)] + rest),
                None => None,
            }
        }
    }
}

/// Reads a witness region: the buffer count, then that many buffers. A region is
/// never shrunk, so bytes after the last buffer are ignored.
pub open spec fn parse_witness(b: Seq<u8>, elem_size: nat) -> Option<Seq<Seq<u8>>> {
    if b.len() < 8 {
        None
    } else {
        parse_buffers(b.skip(8), le_value(b.take(8)), elem_size)
    }
}

proof fn lemma_le_value_bound(b: Seq<u8>)
    ensures
        le_value(b) < pow256(b.len()),
    decreases b.len(),
{
    if b.len() > 0 {
        lemma_le_value_bound(b.drop_first());
        let v = le_value(b.drop_first());
        let p = pow256((b.len() - 1) as nat);
        assert(b[0] as nat + 256 * v < 256 * p) by (nonlinear_arith)
            requires
                v < p,
                b[0] < 256,
        ;
    }
}

proof fn lemma_pow256_pos(n: nat)
    ensures
        pow256(n) >= 1,
    decreases n,
{
    if n > 0 {
        lemma_pow256_pos((n - 1) as nat);
    }
}

proof fn lemma_le_digits_value(x: nat, n: nat)
    ensures
        le_value(le_digits(x, n)) == x % pow256(n),
    decreases n,
{
    if n == 0 {
        lemma_small_mod(0, 1);
        assert(x % 1 == 0) by (nonlinear_arith);
    } else {
        let m = (n - 1) as nat;
        lemma_le_digits_value(x / 256, m);
        assert forall|i: int| 0 <= i < m implies #[trigger] le_digits(x, n).drop_first()[i] == le_digits(
            x / 256,
            m,
        )[i] by {
            lemma_pow256_pos(i as nat);
            lemma_div_denominator(x as int, 256, pow256(i as nat) as int);
        }
        assert(le_digits(x, n).drop_first() =~= le_digits(x / 256, m));
        lemma_pow256_pos(m);
        lemma_mod_breakdown(x as int, 256, pow256(m) as int);
        assert(pow256(0) == 1);
        assert(x / pow256(0) == x);
    }
}

/// Eight little-endian bytes read back give the number written.
pub proof fn lemma_le8_round_trip(x: nat)
    requires
        x < pow256(8),
    ensures
        le8(x).len() == 8,
        le_value(le8(x)) == x,
{
    lemma_le_digits_value(x, 8);
    lemma_small_mod(x, pow256(8));
}

/// Why witness bytes cannot be written or read.
#[derive(Debug, Clone, Copy, PartialEq, Eq, Structural)]
pub enum WitnessLayoutError {
    /// A buffer's byte length is not a whole number of elements.
    PartialElement { buffer: usize, len: usize, elem_size: usize },
    /// The region ends before the buffers it announces.
    Truncated,
}

pub(crate) fn push_le8(out: &mut Vec<u8>, x: u64)
    ensures
        final(out)@ == old(out)@ + le8(x as nat),
{
    let ghost start = out@;
    assert(pow256(0) == 1);
    assert(start + le_digits(x as nat, 0) =~= start);
    let mut v: u64 = x;
    let mut j: usize = 0;
    while j < 8
        invariant
            j <= 8,
            v as nat == x as nat / pow256(j as nat),
            out@ == start + le_digits(x as nat, j as nat),
        decreases 8 - j,
    {
        proof {
            lemma_pow256_pos(j as nat);
            lemma_div_denominator(x as int, pow256(j as nat) as int, 256);
            assert(le_digits(x as nat, (j + 1) as nat) =~= le_digits(x as nat, j as nat).push(
                ((x as nat / pow256(j as nat)) % 256) as u8,
            ));
        }
        out.push((v % 256) as u8);
        v = v / 256;
        j = j + 1;
    }
}

fn read_le8(b: &Vec<u8>, pos: usize) -> (r: u64)
    requires
        pos + 8 <= b.len(),
    ensures
        r as nat == le_value(b@.subrange(pos as int, pos + 8)),
{
    let mut acc: u64 = 0;
    let mut j: usize = 8;
    while j > 0
        invariant
            j <= 8,
            pos + 8 <= b.len(),
            acc as nat == le_value(b@.subrange(pos + j, pos + 8)),
        decreases j,
    {
        let ghost tail = b@.subrange(pos + j, pos + 8);
        let ghost s = b@.subrange(pos + j - 1, pos + 8);
        proof {
            lemma_le_value_bound(tail);
            assert(s.drop_first() =~= tail);
            assert(pow256(tail.len()) <= pow256(7)) by {
                lemma_pow256_monotone(tail.len(), 7);
            }
            assert(pow256(7) == 0x100_0000_0000_0000) by {
                reveal_with_fuel(pow256, 8);
            }
            assert(acc * 256 + 255 <= 0xffff_ffff_ffff_ffff);
        }
        acc = acc * 256 + b[pos + j - 1] as u64;
        j = j - 1;
    }
    acc
}

proof fn lemma_pow256_monotone(a: nat, b: nat)
    requires
        a <= b,
    ensures
        pow256(a) <= pow256(b),
    decreases b,
{
    if a < b {
        lemma_pow256_monotone(a, (b - 1) as nat);
    }
}

proof fn lemma_layout_front(bufs: Seq<Seq<u8>>, elem_size: nat)
    requires
        bufs.len() > 0,
    ensures
        buffers_layout(bufs, elem_size) == le8(bufs[0].len() / elem_size) + bufs[0] + buffers_layout(
            bufs.drop_first(),
            elem_size,
        ),
    decreases bufs.len(),
{
    if bufs.len() == 1 {
        assert(bufs.drop_last() =~= Seq::<Seq<u8>>::empty());
        assert(bufs.drop_first() =~= Seq::<Seq<u8>>::empty());
        assert(buffers_layout(bufs.drop_last(), elem_size) == Seq::<u8>::empty());
        assert(buffers_layout(bufs.drop_first(), elem_size) == Seq::<u8>::empty());
        assert(bufs.last() == bufs[0]);
        assert(buffers_layout(bufs, elem_size) =~= le8(bufs[0].len() / elem_size) + bufs[0]);
        assert(le8(bufs[0].len() / elem_size) + bufs[0] + Seq::<u8>::empty() =~= le8(bufs[0].len() / elem_size)
            + bufs[0]);
    } else {
        lemma_layout_front(bufs.drop_last(), elem_size);
        assert(bufs.drop_last().drop_first() =~= bufs.drop_first().drop_last());
        assert(bufs.drop_first().last() == bufs.last());
        assert(bufs.drop_last()[0] == bufs[0]);
    }
}

proof fn lemma_parse_buffers_layout(bufs: Seq<Seq<u8>>, elem_size: nat, trailing: Seq<u8>)
    requires
        elem_size > 0,
        forall|i: int| 0 <= i < bufs.len() ==> (#[trigger] bufs[i]).len() % elem_size == 0,
        forall|i: int| 0 <= i < bufs.len() ==> (#[trigger] bufs[i]).len() / elem_size < pow256(8),
    ensures
        parse_buffers(buffers_layout(bufs, elem_size) + trailing, bufs.len(), elem_size) == Some(bufs),
    decreases bufs.len(),
{
    if bufs.len() == 0 {
        assert(bufs =~= Seq::<Seq<u8>>::empty());
    } else {
        let b0 = bufs[0];
        let rest = bufs.drop_first();
        let c = b0.len() / elem_size;
        let whole = buffers_layout(bufs, elem_size) + trailing;
        lemma_layout_front(bufs, elem_size);
        lemma_le8_round_trip(c);
        assert(c * elem_size == b0.len()) by (nonlinear_arith)
            requires
                c == b0.len() / elem_size,
                b0.len() % elem_size == 0,
                elem_size > 0,
        ;
        assert(whole =~= le8(c) + (b0 + (buffers_layout(rest, elem_size) + trailing)));
        assert(whole.take(8) =~= le8(c));
        assert(whole.subrange(8, 8 + b0.len() as int) =~= b0);
        assert(whole.skip(8 + b0.len() as int) =~= buffers_layout(rest, elem_size) + trailing);
        assert forall|i: int| 0 <= i < rest.len() implies (#[trigger] rest[i]).len() % elem_size == 0
            && rest[i].len() / elem_size < pow256(8) by {
            assert(rest[i] == bufs[i + 1]);
        }
        lemma_parse_buffers_layout(rest, elem_size, trailing);
        assert(seq![b0] + rest =~= bufs);
    }
}

/// Reading back what `encode_witness` lays out gives the buffers that were
/// written, whatever bytes follow them in the region.
pub proof fn lemma_witness_round_trip(bufs: Seq<Seq<u8>>, elem_size: nat, trailing: Seq<u8>)
    requires
        elem_size > 0,
        bufs.len() < pow256(8),
        forall|i: int| 0 <= i < bufs.len() ==> (#[trigger] bufs[i]).len() % elem_size == 0,
        forall|i: int| 0 <= i < bufs.len() ==> (#[trigger] bufs[i]).len() / elem_size < pow256(8),
    ensures
        parse_witness(witness_layout(bufs, elem_size) + trailing, elem_size) == Some(bufs),
{
    let whole = witness_layout(bufs, elem_size) + trailing;
    lemma_le8_round_trip(bufs.len());
    assert(whole.take(8) =~= le8(bufs.len()));
    assert(whole.skip(8) =~= buffers_layout(bufs, elem_size) + trailing);
    lemma_parse_buffers_layout(bufs, elem_size, trailing);
}

/// Transport of large payloads between a client and a worker through named
/// shared memory regions: the layout of what is written there, and when a region
/// has to be allocated anew.
pub struct SharedMemoryEngine {}

impl SharedMemoryEngine {
    /// Whether a region of `current_len` bytes (`None`: no region yet) must be
    /// allocated anew to hold `target_size` bytes. A region is only ever grown.
    pub fn allocation_needed(current_len: Option<usize>, target_size: usize) -> (r: bool)
        ensures
            r == match current_len {
                Some(len) => len < target_size,
                None => true,
            },
    {
        match current_len {
            Some(len) => len < target_size,
            None => true,
        }
    }

    /// Lays out witness buffers, each given as its raw element bytes, for the
    /// witness region: the buffer count, then for each buffer its element count
    /// and its bytes.
    pub fn encode_witness(values: &Vec<Vec<u8>>, elem_size: usize) -> (r: Result<Vec<u8>, WitnessLayoutError>)
        requires
            elem_size > 0,
        ensures
            match r {
                Ok(bytes) => (forall|i: int|
                    0 <= i < values@.len() ==> (#[trigger] values@[i])@.len() % elem_size as nat == 0)
                    && bytes@ == witness_layout(views(values@), elem_size as nat),
                Err(e) => e matches WitnessLayoutError::PartialElement { buffer, len, elem_size: es } && es
                    == elem_size && buffer < values@.len() && values@[buffer as int]@.len() == len && len
                    % elem_size != 0,
            },
    {
        let mut out: Vec<u8> = Vec::new();
        push_le8(&mut out, values.len() as u64);
        let ghost head = out@;
        let mut i: usize = 0;
        while i < values.len()
            invariant
                elem_size > 0,
                i <= values.len(),
                head == le8(values@.len() as nat),
                out@ == head + buffers_layout(views(values@.take(i as int)), elem_size as nat),
                forall|k: int| 0 <= k < i ==> (#[trigger] values@[k])@.len() % elem_size as nat == 0,
            decreases values.len() - i,
        {
            let buf = &values[i];
            if buf.len() % elem_size != 0 {
                return Err(WitnessLayoutError::PartialElement { buffer: i, len: buf.len(), elem_size });
            }
            push_le8(&mut out, (buf.len() / elem_size) as u64);
            let mut j: usize = 0;
            let ghost mid = out@;
            while j < buf.len()
                invariant
                    j <= buf.len(),
                    out@ == mid + buf@.take(j as int),
                decreases buf.len() - j,
            {
                out.push(buf[j]);
                j = j + 1;
                assert(buf@.take(j as int) =~= buf@.take(j - 1).push(buf@[j - 1]));
            }
            proof {
                assert(buf@.take(buf@.len() as int) =~= buf@);
                let t1 = views(values@.take(i + 1));
                assert(t1.drop_last() =~= views(values@.take(i as int)));
                assert(t1.last() == buf@);
            }
            i = i + 1;
        }
        assert(values@.take(values@.len() as int) =~= values@);
        Ok(out)
    }

    /// Reads the witness buffers, as raw element bytes, out of the bytes of a
    /// witness region; bytes after the last buffer are ignored.
    pub fn decode_witness(bytes: &Vec<u8>, elem_size: usize) -> (r: Result<Vec<Vec<u8>>, WitnessLayoutError>)
        requires
            elem_size > 0,
        ensures
            match parse_witness(bytes@, elem_size as nat) {
                Some(bufs) => r is Ok && views(r->Ok_0@) == bufs,
                None => r == Err::<Vec<Vec<u8>>, WitnessLayoutError>(WitnessLayoutError::Truncated),
            },
    {
        if bytes.len() < 8 {
            return Err(WitnessLayoutError::Truncated);
        }
        let n = read_le8(bytes, 0);
        assert(bytes@.subrange(0, 8) =~= bytes@.take(8));
        let ghost b = bytes@;
        let mut out: Vec<Vec<u8>> = Vec::new();
        let mut pos: usize = 8;
        let mut i: u64 = 0;
        while i < n
            invariant
                elem_size > 0,
                b == bytes@,
                8 <= pos <= bytes.len(),
                i <= n,
                n as nat == le_value(b.take(8)),
                parse_witness(b, elem_size as nat) == (match parse_buffers(
                    b.skip(pos as int),
                    (n - i) as nat,
                    elem_size as nat,
                ) {
                    Some(rest) => Some(views(out@) + rest),
                    None => None::<Seq<Seq<u8>>>,
                }),
            decreases n - i,
        {
            let ghost rb = b.skip(pos as int);
            if bytes.len() - pos < 8 {
                return Err(WitnessLayoutError::Truncated);
            }
            let count = read_le8(bytes, pos);
            assert(b.subrange(pos as int, pos + 8) =~= rb.take(8));
            let remaining = bytes.len() - pos - 8;
            let limit = remaining / elem_size;
            if count > limit as u64 {
                proof {
                    assert(count * elem_size > remaining) by (nonlinear_arith)
                        requires
                            count > limit,
                            limit == remaining / elem_size,
                            elem_size > 0,
                    ;
                }
                return Err(WitnessLayoutError::Truncated);
            }
            proof {
                assert(count <= remaining);
                assert(count * elem_size <= remaining) by (nonlinear_arith)
                    requires
                        count <= limit,
                        limit == remaining / elem_size,
                        elem_size > 0,
                ;
            }
            let size = count as usize * elem_size;
            let buf = copy_range(bytes, pos + 8, pos + 8 + size);
            proof {
                assert(rb.subrange(8, 8 + size) =~= b.subrange(pos + 8, pos + 8 + size));
                assert(rb.skip(8 + size) =~= b.skip(pos + 8 + size));
                assert(views(out@.push(buf)) =~= views(out@) + seq![buf@]);
                match parse_buffers(b.skip(pos + 8 + size), (n - i - 1) as nat, elem_size as nat) {
                    Some(rest) => {
                        assert(views(out@) + (seq![buf@] + rest) =~= views(out@) + seq![buf@] + rest);
                    },
                    None => {},
                }
            }
            out.push(buf);
            pos = pos + 8 + size;
            i = i + 1;
        }
        assert(views(out@) + Seq::<Seq<u8>>::empty() =~= views(out@));
        Ok(out)
    }
}

/// A commitment as the proof region holds it: its declared length and its bytes.
pub open spec fn commitment_views(p: CombinedProof) -> Seq<(usize, Seq<u8>)> {
    p.commitments@.map_values(|c: Commitment| (c.vals_len, c.bytes@))
}

/// The shard blobs of each template, as the proof region holds them.
pub open spec fn proof_views(p: CombinedProof) -> Seq<Seq<Seq<u8>>> {
    p.proofs@.map_values(|e: ExpanderProof| views(e.data@))
}

/// One commitment: its declared length (eight bytes, little endian), then its bytes.
pub open spec fn commitment_blob(c: (usize, Seq<u8>)) -> Seq<u8> {
    le8(c.0 as nat) + c.1
}

/// The bytes of the proof region: a list of two entries, the list of commitments
/// and the list of per-template blob lists, each list laid out as the witness
/// region lays out its buffers, with one-byte elements.
pub open spec fn combined_layout(cs: Seq<(usize, Seq<u8>)>, ps: Seq<Seq<Seq<u8>>>) -> Seq<u8> {
    witness_layout(
        seq![
            witness_layout(cs.map_values(|c: (usize, Seq<u8>)| commitment_blob(c)), 1),
            witness_layout(ps.map_values(|d: Seq<Seq<u8>>| witness_layout(d, 1)), 1),
        ],
        1,
    )
}

/// Reads one commitment entry.
pub open spec fn parse_commitment(b: Seq<u8>) -> Option<(usize, Seq<u8>)> {
    if b.len() < 8 || le_value(b.take(8)) > usize::MAX {
        None
    } else {
        Some((le_value(b.take(8)) as usize, b.skip(8)))
    }
}

/// Reads the proof region: exactly two lists, every commitment entry readable and
/// every template's entry a readable list of blobs.
pub open spec fn parse_combined(b: Seq<u8>) -> Option<(Seq<(usize, Seq<u8>)>, Seq<Seq<Seq<u8>>>)> {
    match parse_witness(b, 1) {
        Some(outer) => if outer.len() != 2 {
            None
        } else {
            match (parse_witness(outer[0], 1), parse_witness(outer[1], 1)) {
                (Some(cb), Some(pb)) => if (forall|i: int| 0 <= i < cb.len() ==> #[trigger] parse_commitment(cb[i]) is Some)
                    && (forall|i: int| 0 <= i < pb.len() ==> #[trigger] parse_witness(pb[i], 1) is Some) {
                    Some(
                        (
                            cb.map_values(|x: Seq<u8>| parse_commitment(x)->Some_0),
                            pb.map_values(|x: Seq<u8>| parse_witness(x, 1)->Some_0),
                        ),
                    )
                } else {
                    None
                },
                _ => None,
            }
        },
        None => None,
    }
}

/// Why the proof region cannot be read.
#[derive(Debug, Clone, Copy, PartialEq, Eq, Structural)]
pub enum ProofDecodeError {
    /// A list ends before the entries it announces.
    Truncated,
    /// The region does not hold exactly the two lists of a combined proof.
    WrongShape,
    /// A commitment entry is too short or declares a length beyond `usize`.
    BadCommitment { commitment: usize },
    /// A template's entry is not a list of blobs.
    BadTemplate { template: usize },
}

pub(crate) proof fn lemma_pow256_8()
    ensures
        pow256(8) == 0x1_0000_0000_0000_0000,
{
    reveal_with_fuel(pow256, 9);
}

/// The sizes that the eight-byte counts and lengths of the proof region can express.
pub open spec fn combined_fits(cs: Seq<(usize, Seq<u8>)>, ps: Seq<Seq<Seq<u8>>>) -> bool {
    &&& cs.len() < pow256(8)
    &&& ps.len() < pow256(8)
    &&& forall|i: int| 0 <= i < cs.len() ==> (#[trigger] commitment_blob(cs[i])).len() < pow256(8)
    &&& forall|i: int|
        0 <= i < ps.len() ==> (#[trigger] ps[i]).len() < pow256(8) && witness_layout(ps[i], 1).len() < pow256(8)
            && forall|j: int| 0 <= j < ps[i].len() ==> (#[trigger] ps[i][j]).len() < pow256(8)
    &&& witness_layout(cs.map_values(|c: (usize, Seq<u8>)| commitment_blob(c)), 1).len() < pow256(8)
    &&& witness_layout(ps.map_values(|d: Seq<Seq<u8>>| witness_layout(d, 1)), 1).len() < pow256(8)
}

proof fn lemma_unit_round_trip(bufs: Seq<Seq<u8>>)
    requires
        bufs.len() < pow256(8),
        forall|i: int| 0 <= i < bufs.len() ==> (#[trigger] bufs[i]).len() < pow256(8),
    ensures
        parse_witness(witness_layout(bufs, 1), 1) == Some(bufs),
{
    assert forall|i: int| 0 <= i < bufs.len() implies (#[trigger] bufs[i]).len() % 1nat == 0 && bufs[i].len() / 1nat
        < pow256(8) by {}
    lemma_witness_round_trip(bufs, 1, Seq::empty());
    assert(witness_layout(bufs, 1) + Seq::<u8>::empty() =~= witness_layout(bufs, 1));
}

/// Reading back what `encode_combined_proof` writes gives the commitments and the
/// shard blobs that were written, whatever bytes follow them in the region.
pub proof fn lemma_combined_round_trip(cs: Seq<(usize, Seq<u8>)>, ps: Seq<Seq<Seq<u8>>>, trailing: Seq<u8>)
    requires
        combined_fits(cs, ps),
    ensures
        parse_combined(combined_layout(cs, ps) + trailing) == Some((cs, ps)),
{
    let cb = cs.map_values(|c: (usize, Seq<u8>)| commitment_blob(c));
    let pb = ps.map_values(|d: Seq<Seq<u8>>| witness_layout(d, 1));
    let a = witness_layout(cb, 1);
    let b = witness_layout(pb, 1);
    lemma_pow256_8();
    assert(pow256(8) > 2);
    let outer = seq![a, b];
    assert forall|i: int| 0 <= i < outer.len() implies (#[trigger] outer[i]).len() % 1nat == 0 && outer[i].len()
        / 1nat < pow256(8) by {}
    lemma_witness_round_trip(outer, 1, trailing);
    lemma_unit_round_trip(cb);
    lemma_unit_round_trip(pb);
    assert forall|i: int| 0 <= i < cb.len() implies #[trigger] parse_commitment(cb[i]) == Some(cs[i]) by {
        let c = cs[i];
        lemma_le8_round_trip(c.0 as nat);
        assert(cb[i].take(8) =~= le8(c.0 as nat));
        assert(cb[i].skip(8) =~= c.1);
    }
    assert forall|i: int| 0 <= i < pb.len() implies #[trigger] parse_witness(pb[i], 1) == Some(ps[i]) by {
        lemma_unit_round_trip(ps[i]);
    }
    assert(cb.map_values(|x: Seq<u8>| parse_commitment(x)->Some_0) =~= cs);
    assert(pb.map_values(|x: Seq<u8>| parse_witness(x, 1)->Some_0) =~= ps);
}

/// A list of byte strings laid out as the witness region lays out its buffers,
/// with one-byte elements.
fn unit_layout(values: &Vec<Vec<u8>>) -> (r: Vec<u8>)
    ensures
        r@ == witness_layout(views(values@), 1),
{
    match SharedMemoryEngine::encode_witness(values, 1) {
        Ok(bytes) => bytes,
        Err(_) => {
            proof {
                assert(false);
            }
            Vec::new()
        },
    }
}

impl SharedMemoryEngine {
    /// Lays out a combined proof for the proof region.
    pub fn encode_combined_proof(p: &CombinedProof) -> (r: Vec<u8>)
        ensures
            r@ == combined_layout(commitment_views(*p), proof_views(*p)),
    {
        let mut cblobs: Vec<Vec<u8>> = Vec::new();
        let mut i: usize = 0;
        while i < p.commitments.len()
            invariant
                i <= p.commitments.len(),
                views(cblobs@) == commitment_views(*p).take(i as int).map_values(
                    |c: (usize, Seq<u8>)| commitment_blob(c),
                ),
            decreases p.commitments.len() - i,
        {
            let c = &p.commitments[i];
            let mut blob: Vec<u8> = Vec::new();
            push_le8(&mut blob, c.vals_len as u64);
            let bytes = copy_range(&c.bytes, 0, c.bytes.len());
            let mut b2 = bytes;
            blob.append(&mut b2);
            proof {
                assert(c.bytes@.subrange(0, c.bytes@.len() as int) =~= c.bytes@);
                assert(Seq::<u8>::empty() + le8(c.vals_len as nat) =~= le8(c.vals_len as nat));
                assert(commitment_views(*p)[i as int] == (c.vals_len, c.bytes@));
                assert(blob@ == commitment_blob(commitment_views(*p)[i as int]));
            }
            let ghost before = views(cblobs@);
            cblobs.push(blob);
            assert(views(cblobs@) =~= before.push(blob@));
            i = i + 1;
            proof {
                assert(views(cblobs@) =~= commitment_views(*p).take(i as int).map_values(
                    |c: (usize, Seq<u8>)| commitment_blob(c),
                ));
            }
        }
        proof {
            assert(commitment_views(*p).take(p.commitments@.len() as int) =~= commitment_views(*p));
        }
        let mut pblobs: Vec<Vec<u8>> = Vec::new();
        let mut t: usize = 0;
        while t < p.proofs.len()
            invariant
                t <= p.proofs.len(),
                views(pblobs@) == proof_views(*p).take(t as int).map_values(
                    |d: Seq<Seq<u8>>| witness_layout(d, 1),
                ),
            decreases p.proofs.len() - t,
        {
            let ghost before = views(pblobs@);
            let entry = unit_layout(&p.proofs[t].data);
            assert(proof_views(*p)[t as int] == views(p.proofs@[t as int].data@));
            pblobs.push(entry);
            assert(views(pblobs@) =~= before.push(entry@));
            t = t + 1;
            proof {
                assert(views(pblobs@) =~= proof_views(*p).take(t as int).map_values(
                    |d: Seq<Seq<u8>>| witness_layout(d, 1),
                ));
            }
        }
        proof {
            assert(proof_views(*p).take(p.proofs@.len() as int) =~= proof_views(*p));
        }
        let a = unit_layout(&cblobs);
        let b = unit_layout(&pblobs);
        let outer = vec![a, b];
        assert(views(outer@) =~= seq![a@, b@]);
        unit_layout(&outer)
    }

    /// Reads a combined proof back out of the bytes of the proof region.
    pub fn decode_combined_proof(bytes: &Vec<u8>) -> (r: Result<CombinedProof, ProofDecodeError>)
        ensures
            match parse_combined(bytes@) {
                Some((cs, ps)) => r is Ok && commitment_views(r->Ok_0) == cs && proof_views(r->Ok_0) == ps,
                None => r is Err,
            },
    {
        let outer = match SharedMemoryEngine::decode_witness(bytes, 1) {
            Ok(o) => o,
            Err(_) => {
                return Err(ProofDecodeError::Truncated);
            },
        };
        if outer.len() != 2 {
            return Err(ProofDecodeError::WrongShape);
        }
        let cb = match SharedMemoryEngine::decode_witness(&outer[0], 1) {
            Ok(o) => o,
            Err(_) => {
                return Err(ProofDecodeError::Truncated);
            },
        };
        let pb = match SharedMemoryEngine::decode_witness(&outer[1], 1) {
            Ok(o) => o,
            Err(_) => {
                return Err(ProofDecodeError::Truncated);
            },
        };
        let ghost so = views(outer@);
        let ghost scb = views(cb@);
        let ghost spb = views(pb@);
        let mut commitments: Vec<Commitment> = Vec::new();
        let mut i: usize = 0;
        while i < cb.len()
            invariant
                parse_witness(bytes@, 1) == Some(so),
                so.len() == 2,
                parse_witness(so[0], 1) == Some(scb),
                parse_witness(so[1], 1) == Some(spb),
                scb == views(cb@),
                i <= cb.len(),
                commitments@.len() == i,
                forall|k: int| 0 <= k < i ==> #[trigger] parse_commitment(scb[k]) is Some,
                forall|k: int|
                    0 <= k < i ==> (#[trigger] commitments@[k]).vals_len == parse_commitment(scb[k])->Some_0.0
                        && commitments@[k].bytes@ == parse_commitment(scb[k])->Some_0.1,
            decreases cb.len() - i,
        {
            let blob = &cb[i];
            if blob.len() < 8 {
                assert(parse_commitment(scb[i as int]) is None);
                return Err(ProofDecodeError::BadCommitment { commitment: i });
            }
            let v = read_le8(blob, 0);
            assert(blob@.subrange(0, 8) =~= blob@.take(8));
            if v > usize::MAX as u64 {
                assert(parse_commitment(scb[i as int]) is None);
                return Err(ProofDecodeError::BadCommitment { commitment: i });
            }
            let rest = copy_range(blob, 8, blob.len());
            assert(blob@.subrange(8, blob@.len() as int) =~= blob@.skip(8));
            commitments.push(Commitment { vals_len: v as usize, bytes: rest });
            i = i + 1;
        }
        let mut proofs: Vec<ExpanderProof> = Vec::new();
        let mut t: usize = 0;
        while t < pb.len()
            invariant
                parse_witness(bytes@, 1) == Some(so),
                so.len() == 2,
                parse_witness(so[0], 1) == Some(scb),
                parse_witness(so[1], 1) == Some(spb),
                forall|k: int| 0 <= k < scb.len() ==> #[trigger] parse_commitment(scb[k]) is Some,
                spb == views(pb@),
                t <= pb.len(),
                proofs@.len() == t,
                forall|k: int| 0 <= k < t ==> #[trigger] parse_witness(spb[k], 1) is Some,
                forall|k: int|
                    0 <= k < t ==> views((#[trigger] proofs@[k]).data@) == parse_witness(spb[k], 1)->Some_0,
            decreases pb.len() - t,
        {
            match SharedMemoryEngine::decode_witness(&pb[t], 1) {
                Ok(data) => {
                    proofs.push(ExpanderProof { data });
                },
                Err(_) => {
                    assert(spb[t as int] == pb@[t as int]@);
                    assert(parse_witness(spb[t as int], 1) is None);
                    return Err(ProofDecodeError::BadTemplate { template: t });
                },
            }
            t = t + 1;
        }
        let p = CombinedProof { commitments, proofs };
        assert(commitment_views(p) =~= scb.map_values(|x: Seq<u8>| parse_commitment(x)->Some_0));
        assert(proof_views(p) =~= spb.map_values(|x: Seq<u8>| parse_witness(x, 1)->Some_0));
        Ok(p)
    }
}

/// A single payload in a region (the serialized setup): its length (eight bytes,
/// little endian), then its bytes.
pub open spec fn payload_layout(b: Seq<u8>) -> Seq<u8> {
    le8(b.len()) + b
}

/// Reads a payload from the front of a region; bytes after it are ignored.
pub open spec fn parse_payload(r: Seq<u8>) -> Option<Seq<u8>> {
    if r.len() < 8 {
        None
    } else {
        let n = le_value(r.take(8));
        if r.len() < 8 + n {
            None
        } else {
            Some(r.subrange(8, 8 + n as int))
        }
    }
}

/// Reading back a payload gives the bytes written, whatever follows them.
pub proof fn lemma_payload_round_trip(b: Seq<u8>, trailing: Seq<u8>)
    requires
        b.len() < pow256(8),
    ensures
        parse_payload(payload_layout(b) + trailing) == Some(b),
{
    let whole = payload_layout(b) + trailing;
    lemma_le8_round_trip(b.len());
    assert(whole.take(8) =~= le8(b.len()));
    assert(whole.subrange(8, 8 + b.len() as int) =~= b);
}

impl SharedMemoryEngine {
    /// Frames a payload for a region.
    pub fn encode_payload(b: &Vec<u8>) -> (r: Vec<u8>)
        ensures
            r@ == payload_layout(b@),
    {
        let mut r: Vec<u8> = Vec::new();
        push_le8(&mut r, b.len() as u64);
        let mut rest = copy_range(b, 0, b.len());
        assert(b@.subrange(0, b@.len() as int) =~= b@);
        assert(Seq::<u8>::empty() + le8(b@.len()) =~= le8(b@.len()));
        r.append(&mut rest);
        r
    }

    /// Reads the payload at the front of a region's bytes.
    pub fn decode_payload(r: &Vec<u8>) -> (p: Option<Vec<u8>>)
        ensures
            match parse_payload(r@) {
                Some(x) => p is Some && p->Some_0@ == x,
                None => p is None,
            },
    {
        if r.len() < 8 {
            return None;
        }
        let n = read_le8(r, 0);
        assert(r@.subrange(0, 8) =~= r@.take(8));
        if n > (r.len() - 8) as u64 {
            return None;
        }
        let end = 8 + n as usize;
        Some(copy_range(r, 8, end))
    }
}

} // verus!
