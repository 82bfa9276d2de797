//! The worker's control plane: its requests, its options, its port, and the state
//! machine that decides what each request does.

use vstd::prelude::*;

use vstd::string::StringSliceAdditionalSpecFns;

use crate::graph::{check_graph, graph_error_holds, graph_wf, ComputationGraph, GraphError, ShardTask};
use crate::partition::views;
use crate::prover::{keys_cover, plan_proving, prove_error_holds, setup_key_lens, witness_fits, ProvePlanError};
use crate::transport::{parse_witness, SharedMemoryEngine, WitnessLayoutError};

verus! {

/// A request to a worker: load a computation graph from a file and set up its
/// commitment keys, prove the witness the client has written to shared memory, or
/// shut down.
#[derive(Debug, Clone)]
pub enum RequestType {
    Setup(String),
    Prove,
    Exit,
}

/// The options a worker is started with.
#[derive(Debug, Clone)]
pub struct ExpanderExecArgs {
    /// M31, GF2, BN254, Goldilocks, BabyBear
    pub field_type: String,
    /// Fiat-Shamir hash: SHA256, Poseidon or MiMC5
    pub fiat_shamir_hash: String,
    /// Polynomial commitment scheme: Raw or Orion
    pub poly_commit: String,
    /// The port the worker listens on.
    pub port_number: String,
    /// Whether all commitment openings of a proof are batched into one.
    pub batch_pcs: bool,
}

impl Default for ExpanderExecArgs {
    fn default() -> (r: Self)
        ensures
            r.field_type@ == "M31"@,
            r.fiat_shamir_hash@ == "SHA256"@,
            r.poly_commit@ == "Raw"@,
            r.port_number@ == "3000"@,
            !r.batch_pcs,
    {
        ExpanderExecArgs {
            field_type: "M31".to_owned(),
            fiat_shamir_hash: "SHA256".to_owned(),
            poly_commit: "Raw".to_owned(),
            port_number: "3000".to_owned(),
            batch_pcs: false,
        }
    }
}

/// Every byte of `b` is an ASCII decimal digit (an empty `b` included).
pub open spec fn all_digits(b: Seq<u8>) -> bool {
    forall|i: int| 0 <= i < b.len() ==> 48 <= #[trigger] b[i] <= 57
}

/// The number the ASCII decimal digits `b` spell, most significant first.
pub open spec fn digits_value(b: Seq<u8>) -> nat
    decreases b.len(),
{
    if b.len() == 0 {
        0
    } else {
        10 * digits_value(b.drop_last()) + (b.last() - 48) as nat
    }
}

/// The port a string names: an optional `+`, then one or more decimal digits
/// whose value is at most 65535.
pub open spec fn spec_parse_u16(b: Seq<u8>) -> Option<u16> {
    let d = if b.len() > 0 && b[0] == 43 {
        b.drop_first()
    } else {
        b
    };
    if d.len() > 0 && all_digits(d) && digits_value(d) <= 65535 {
        Some(digits_value(d) as u16)
    } else {
        None
    }
}

proof fn lemma_digits_value_grows(b: Seq<u8>, i: int)
    requires
        all_digits(b),
        0 <= i <= b.len(),
    ensures
        digits_value(b.take(i)) <= digits_value(b),
    decreases b.len() - i,
{
    if i < b.len() {
        lemma_digits_value_grows(b, i + 1);
        assert(b.take(i + 1).drop_last() =~= b.take(i));
    } else {
        assert(b.take(i) =~= b);
    }
}

/// Reads a port number the way `str::parse::<u16>` does: an optional `+`, then
/// decimal digits, at most 65535.
pub fn parse_port(s: &str) -> (r: Option<u16>)
    ensures
        r == spec_parse_u16(s.spec_bytes()),
{
    let b = s.as_bytes();
    let start: usize = if b.len() > 0 && b[0] == 43 {
        1
    } else {
        0
    };
    let ghost d = if b@.len() > 0 && b@[0] == 43 {
        b@.drop_first()
    } else {
        b@
    };
    assert(d =~= b@.skip(start as int));
    if start >= b.len() {
        return None;
    }
    let mut acc: u32 = 0;
    let mut i: usize = start;
    while i < b.len()
        invariant
            start <= i <= b.len(),
            b@ == s.spec_bytes(),
            d == (if b@.len() > 0 && b@[0] == 43 {
                b@.drop_first()
            } else {
                b@
            }),
            d == b@.skip(start as int),
            all_digits(d.take(i - start)),
            acc as nat == digits_value(d.take(i - start)),
            acc <= 65535,
        decreases b.len() - i,
    {
        let c = b[i];
        if c < 48 || c > 57 {
            assert(d[i - start] == c);
            assert(!all_digits(d));
            return None;
        }
        proof {
            let next = d.take(i - start + 1);
            assert(next.drop_last() =~= d.take(i - start));
            assert(next.last() == c);
            assert(digits_value(next) == 10 * acc + (c - 48));
            assert forall|k: int| 0 <= k < next.len() implies 48 <= #[trigger] next[k] <= 57 by {
                if k < next.len() - 1 {
                    assert(next[k] == d.take(i - start)[k]);
                }
            }
        }
        acc = acc * 10 + (c - 48) as u32;
        i = i + 1;
        if acc > 65535 {
            proof {
                if all_digits(d) {
                    lemma_digits_value_grows(d, i - start);
                }
            }
            return None;
        }
    }
    assert(d.take(i - start) =~= d);
    Some(acc as u16)
}

/// The port a worker listens on: the one named by the environment, when it names
/// one, else the current one.
pub fn parse_port_number(env_value: Option<&str>, current: u16) -> (r: u16)
    ensures
        r == match env_value {
            Some(s) => match spec_parse_u16(s.spec_bytes()) {
                Some(p) => p,
                None => current,
            },
            None => current,
        },
{
    match env_value {
        Some(s) => match parse_port(s) {
            Some(p) => p,
            None => current,
        },
        None => current,
    }
}

/// Why a worker refuses a request.
#[derive(Debug, Clone, Copy, PartialEq, Eq, Structural)]
pub enum WorkerError {
    /// No computation graph has been set up.
    NoGraph,
    /// The loaded computation graph is malformed.
    Graph(GraphError),
    /// No witness has been written to shared memory.
    NoWitness,
    /// The witness region does not hold a well-formed witness.
    Layout(WitnessLayoutError),
    /// The witness does not fit the graph or the setup.
    Witness(ProvePlanError),
}

/// What a worker does for a request.
#[derive(Debug, Clone)]
pub enum WorkerAction {
    /// Read the computation graph from this file and hand it to `install_graph`.
    LoadGraph(String),
    /// Read the witness region and hand its bytes to `plan_prove_request`.
    ReadWitness,
    /// Acknowledge the request and begin shutting down once the requests already
    /// waiting have completed; a repeated exit request is acknowledged the same way.
    Shutdown,
    /// Answer the request with a failure.
    Refuse(WorkerError),
}

/// The long-lived state of a worker. It takes one request at a time: every
/// transition takes it by `&mut`, so requests cannot overlap.
pub struct Worker {
    graph: Option<ComputationGraph>,
    key_lens: Vec<usize>,
    shutting_down: bool,
}

impl Worker {
    /// The computation graph set up, if any.
    pub closed spec fn graph_spec(&self) -> Option<ComputationGraph> {
        self.graph
    }

    /// The lengths the current setup holds commitment keys for.
    pub closed spec fn key_lens_spec(&self) -> Seq<usize> {
        self.key_lens@
    }

    /// The worker has been asked to exit. Requests that still reach it are handled
    /// as before: the process stops once they have completed.
    pub closed spec fn is_shutting_down(&self) -> bool {
        self.shutting_down
    }

    /// A graph set up is well formed, and its keys are those of its buffer lengths.
    pub closed spec fn wf(&self) -> bool {
        match self.graph {
            Some(g) => graph_wf(g) && self.key_lens@.to_set() == g.commitments_lens@.to_set(),
            None => self.key_lens@.len() == 0,
        }
    }

    /// Whether an exit request has been seen.
    pub fn is_exit_requested(&self) -> (r: bool)
        ensures
            r == self.is_shutting_down(),
    {
        self.shutting_down
    }

    /// The computation graph set up, if any.
    pub fn graph(&self) -> (r: &Option<ComputationGraph>)
        ensures
            *r == self.graph_spec(),
    {
        &self.graph
    }

    /// A fresh worker: no graph, no keys.
    pub fn new() -> (w: Worker)
        ensures
            w.wf(),
            w.graph_spec() is None,
            !w.is_shutting_down(),
    {
        Worker { graph: None, key_lens: Vec::new(), shutting_down: false }
    }

    /// Decides what to do for a request.
    pub fn on_request(&mut self, request: &RequestType) -> (r: WorkerAction)
        requires
            old(self).wf(),
        ensures
            final(self).wf(),
            final(self).graph_spec() == old(self).graph_spec(),
            final(self).key_lens_spec() == old(self).key_lens_spec(),
            final(self).is_shutting_down() == (old(self).is_shutting_down() || request is Exit),
            match request {
                RequestType::Setup(path) => r matches WorkerAction::LoadGraph(p) && p@ == path@,
                RequestType::Prove => if old(self).graph_spec() is None {
                    r == WorkerAction::Refuse(WorkerError::NoGraph)
                } else {
                    r == WorkerAction::ReadWitness
                },
                RequestType::Exit => r == WorkerAction::Shutdown,
            },
    {
        match request {
            RequestType::Setup(path) => WorkerAction::LoadGraph(path.clone()),
            RequestType::Prove => {
                if self.graph.is_none() {
                    WorkerAction::Refuse(WorkerError::NoGraph)
                } else {
                    WorkerAction::ReadWitness
                }
            },
            RequestType::Exit => {
                self.shutting_down = true;
                WorkerAction::Shutdown
            },
        }
    }

    /// Takes the graph a setup request loaded. A well-formed graph replaces the
    /// current one, and the lengths to make commitment keys for are returned; a
    /// malformed one leaves the worker as it was.
    pub fn install_graph(&mut self, g: ComputationGraph) -> (r: Result<Vec<usize>, WorkerError>)
        requires
            old(self).wf(),
        ensures
            final(self).wf(),
            final(self).is_shutting_down() == old(self).is_shutting_down(),
            r is Ok <==> graph_wf(g),
            r matches Ok(keys) ==> final(self).graph_spec() == Some(g) && keys@.no_duplicates() && keys@.to_set()
                == g.commitments_lens@.to_set() && final(self).key_lens_spec() == keys@,
            r matches Err(e) ==> final(self).graph_spec() == old(self).graph_spec() && final(self).key_lens_spec()
                == old(self).key_lens_spec() && (e matches WorkerError::Graph(ge) && graph_error_holds(g, ge)),
    {
        match check_graph(&g) {
            Err(e) => Err(WorkerError::Graph(e)),
            Ok(()) => {
                let keys = setup_key_lens(&g);
                let mut copy: Vec<usize> = Vec::new();
                let mut i: usize = 0;
                while i < keys.len()
                    invariant
                        i <= keys.len(),
                        copy@ == keys@.take(i as int),
                    decreases keys.len() - i,
                {
                    copy.push(keys[i]);
                    i = i + 1;
                    assert(keys@.take(i as int) =~= keys@.take(i - 1).push(keys@[i - 1]));
                }
                assert(keys@.take(keys@.len() as int) =~= keys@);
                self.graph = Some(g);
                self.key_lens = copy;
                Ok(keys)
            },
        }
    }

    /// Checks a prove request: `witness_region` holds the bytes of the witness
    /// region, or nothing when no witness was ever written. On success returns the
    /// witness buffers (raw element bytes of `elem_size` each) and the shards to
    /// prove.
    pub fn plan_prove_request(&self, witness_region: Option<&Vec<u8>>, elem_size: usize) -> (r: Result<
        (Vec<Vec<u8>>, Vec<ShardTask>),
        WorkerError,
    >)
        requires
            self.wf(),
            elem_size > 0,
        ensures
            self.graph_spec() is None ==> r == Err::<
                (Vec<Vec<u8>>, Vec<ShardTask>),
                WorkerError,
            >(WorkerError::NoGraph),
            self.graph_spec() is Some && witness_region is None ==> r == Err::<
                (Vec<Vec<u8>>, Vec<ShardTask>),
                WorkerError,
            >(WorkerError::NoWitness),
            (self.graph_spec() is Some && witness_region is Some) ==> match parse_witness(
                witness_region->Some_0@,
                elem_size as nat,
            ) {
                None => r == Err::<(Vec<Vec<u8>>, Vec<ShardTask>), WorkerError>(
                    WorkerError::Layout(WitnessLayoutError::Truncated),
                ),
                Some(bufs) => {
                    let lens = bufs.map_values(|b: Seq<u8>| (b.len() / elem_size as nat) as usize);
                    let fits = (forall|i: int| 0 <= i < bufs.len() ==> (#[trigger] bufs[i]).len() % elem_size as nat == 0)
                        && witness_fits(self.graph_spec()->Some_0, lens) && keys_cover(lens, self.key_lens_spec());
                    &&& r is Ok <==> fits
                    &&& r matches Ok(res) ==> views(res.0@) == bufs && res.1@ == crate::graph::spec_shard_tasks(
                        self.graph_spec()->Some_0,
                    )
                    &&& r matches Err(WorkerError::Witness(e)) ==> prove_error_holds(
                        self.graph_spec()->Some_0,
                        lens,
                        self.key_lens_spec(),
                        e,
                    )
                },
            },
    {
        let g = match &self.graph {
            None => {
                return Err(WorkerError::NoGraph);
            },
            Some(g) => g,
        };
        let bytes = match witness_region {
            None => {
                return Err(WorkerError::NoWitness);
            },
            Some(b) => b,
        };
        let bufs = match SharedMemoryEngine::decode_witness(bytes, elem_size) {
            Err(e) => {
                return Err(WorkerError::Layout(e));
            },
            Ok(b) => b,
        };
        let ghost sb = views(bufs@);
        let ghost lens_spec = sb.map_values(|b: Seq<u8>| (b.len() / elem_size as nat) as usize);
        let mut lens: Vec<usize> = Vec::new();
        let mut i: usize = 0;
        while i < bufs.len()
            invariant
                elem_size > 0,
                self.graph is Some,
                witness_region is Some,
                parse_witness(witness_region->Some_0@, elem_size as nat) == Some(sb),
                sb == views(bufs@),
                lens_spec == sb.map_values(|b: Seq<u8>| (b.len() / elem_size as nat) as usize),
                i <= bufs.len(),
                lens@ == lens_spec.take(i as int),
                forall|k: int| 0 <= k < i ==> (#[trigger] sb[k]).len() % elem_size as nat == 0,
            decreases bufs.len() - i,
        {
            if bufs[i].len() % elem_size != 0 {
                assert(sb[i as int].len() % elem_size as nat != 0);
                return Err(
                    WorkerError::Layout(
                        WitnessLayoutError::PartialElement { buffer: i, len: bufs[i].len(), elem_size },
                    ),
                );
            }
            lens.push(bufs[i].len() / elem_size);
            i = i + 1;
            assert(lens_spec.take(i as int) =~= lens_spec.take(i - 1).push(lens_spec[i - 1]));
        }
        assert(lens_spec.take(lens_spec.len() as int) =~= lens_spec);
        match plan_proving(g, &lens, &self.key_lens) {
            Err(e) => Err(WorkerError::Witness(e)),
            Ok(tasks) => Ok((bufs, tasks)),
        }
    }
}

} // verus!
