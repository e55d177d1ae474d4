//! Policy-gated distributed computation over a content-addressed expression
//! graph.
//!
//! A fixed fleet of peer *sites* cooperatively evaluates computation
//! expressions whose inputs are opaque byte blobs.  Every replication, every
//! placement of a computation, and every admission of data at a site is
//! authorised by a pluggable policy reasoner.  Sites make local decisions,
//! gossip state to peers over a point-to-point message fabric, and converge
//! toward having results available at whichever sites are permitted to hold
//! them.
use vstd::prelude::*;

pub mod identity;
pub mod logger;
pub mod network;
pub mod policy_reasoner;
pub mod resolutions;
pub mod site;

verus! {

/// An opaque 64-bit fingerprint.  All identifiers wrap one of these.
#[derive(Debug, Copy, Clone, Eq, PartialEq, Structural, Hash)]
pub struct Id {
    pub bits: u64,
}

/// Content-addressed identifier of a byte blob.
#[derive(Debug, Copy, Clone, Eq, PartialEq, Structural, Hash)]
pub struct ExprId(pub Id);

/// Content-addressed identifier of an expression tree.
#[derive(Debug, Copy, Clone, Eq, PartialEq, Structural, Hash)]
pub struct DataId(pub Id);

/// Identity of one site of the fleet, assigned at bootstrap.
#[derive(Debug, Copy, Clone, Eq, PartialEq, Structural, Hash)]
pub struct SiteId(pub Id);

impl View for ExprId {
    type V = u64;

    open spec fn view(&self) -> u64 {
        self.0.bits
    }
}

impl View for DataId {
    type V = u64;

    open spec fn view(&self) -> u64 {
        self.0.bits
    }
}

impl View for SiteId {
    type V = u64;

    open spec fn view(&self) -> u64 {
        self.0.bits
    }
}

/// A computation expression.  The tree is finite and acyclic by construction:
/// it is a value, not a graph with back-edges.
#[derive(Debug)]
pub enum Expr {
    /// Opaque reference to an already-known expression.
    Ref(ExprId),
    /// The expression "this known blob".
    Leaf(DataId),
    /// Application of the fixed compute function to the ordered results of
    /// the child expressions.
    Node(Vec<Expr>),
}

/// One message of the wire protocol.
#[derive(Debug)]
pub enum Msg {
    /// Replicate a blob: insert `did -> data` at the receiver.
    Copy { did: DataId, data: Vec<u8> },
    /// Assert the resolution `eid -> did` at the receiver.
    DidToEid { did: DataId, eid: ExprId },
    /// Install an expression tree at the receiver, without re-broadcast.
    Compute { expr: Expr },
}

/// The mathematical image of a message, as the contracts speak of it: ids
/// are bare bits, a blob is its byte sequence, and an expression tree is
/// named by its content id.
pub enum MsgV {
    Copy { did: u64, data: Seq<u8> },
    DidToEid { did: u64, eid: u64 },
    Compute { eid: u64 },
}

/// What a message looks like to the contracts.
pub open spec fn msg_view(m: Msg) -> MsgV {
    match m {
        Msg::Copy { did, data } => MsgV::Copy { did: did@, data: data@ },
        Msg::DidToEid { did, eid } => MsgV::DidToEid { did: did@, eid: eid@ },
        Msg::Compute { expr } => MsgV::Compute { eid: identity::hash_expr_spec(expr) },
    }
}

impl Clone for Expr {
    /// A clone of a tree hashes to the same id (and so do all its parts).
    fn clone(&self) -> (res: Self)
        ensures
            identity::hash_expr_spec(res) == identity::hash_expr_spec(*self),
    {
        clone_expr(self)
    }
}

/// Deep copy of an expression tree, preserving every content id.
fn clone_expr(e: &Expr) -> (r: Expr)
    ensures
        identity::hash_expr_spec(r) == identity::hash_expr_spec(*e),
    decreases *e,
{
    match e {
        Expr::Ref(eid) => Expr::Ref(*eid),
        Expr::Leaf(did) => Expr::Leaf(*did),
        Expr::Node(cs) => {
            let mut v: Vec<Expr> = Vec::new();
            let mut i: usize = 0;
            while i < cs.len()
                invariant
                    i <= cs.len(),
                    v@.len() == i,
                    forall|j: int|
                        0 <= j < i ==> identity::hash_expr_spec(#[trigger] v@[j])
                            == identity::hash_expr_spec(cs@[j]),
                    *e == Expr::Node(*cs),
                decreases cs.len() - i,
            {
                proof {
                    assert(e->Node_0 == *cs);
                    assert(decreases_to!(*e => e->Node_0));
                    assert(decreases_to!(*cs => cs@));
                    assert(decreases_to!(cs@ => cs@[i as int]));
                }
                let c = clone_expr(&cs[i]);
                v.push(c);
                i = i + 1;
            }
            proof {
                identity::lemma_child_ids_index(v@);
                identity::lemma_child_ids_index(cs@);
                assert(identity::child_ids_spec(v@) =~= identity::child_ids_spec(cs@));
            }
            Expr::Node(v)
        },
    }
}

/// Make a blob's bytes its own: a copy with the same byte sequence.
pub fn clone_bytes(v: &Vec<u8>) -> (r: Vec<u8>)
    ensures
        r@ == v@,
{
    let mut r: Vec<u8> = Vec::new();
    let mut i: usize = 0;
    while i < v.len()
        invariant
            i <= v.len(),
            r@ == v@.take(i as int),
        decreases v.len() - i,
    {
        r.push(v[i]);
        proof {
            assert(v@.take(i as int).push(v@[i as int]) =~= v@.take(i as int + 1));
        }
        i = i + 1;
    }
    proof {
        assert(v@.take(v@.len() as int) =~= v@);
    }
    r
}

impl Clone for Msg {
    /// A clone of a message has the same image.
    fn clone(&self) -> (res: Self)
        ensures
            msg_view(res) == msg_view(*self),
    {
        match self {
            Msg::Copy { did, data } => Msg::Copy { did: *did, data: clone_bytes(data) },
            Msg::DidToEid { did, eid } => Msg::DidToEid { did: *did, eid: *eid },
            Msg::Compute { expr } => Msg::Compute { expr: expr.clone() },
        }
    }
}

/// A fatal condition of the engine.  The engine itself never panics: it
/// reports the condition and the embedding process decides the site's fate.
#[derive(Debug, Copy, Clone, Eq, PartialEq, Structural)]
pub enum SiteError {
    /// An `ExprId -> DataId` resolution contradicted an entry already held:
    /// a hash collision or divergent reasoner semantics.
    ResolutionConflict,
    /// The transport could not enqueue an outgoing message.
    Transport,
}

/// What one progress tick did.
#[derive(Debug, Copy, Clone, Eq, PartialEq, Structural)]
pub enum StepOutcome {
    /// One ready, permitted computation was completed and published.
    Computed { eid: ExprId, did: DataId },
    /// No computation was possible; at least one pending message was applied.
    Drained,
    /// Nothing to do.  The caller should pause briefly before the next tick
    /// to avoid a busy loop.
    Idle,
}

/// The bare bits of a sequence of expression ids, as a set.
pub open spec fn eid_bits_set(eids: Seq<ExprId>) -> Set<u64> {
    eids.map_values(|e: ExprId| e@).to_set()
}

/// The set of expression ids a data id is currently associated with: every
/// expression resolved to it.
pub open spec fn assoc_of(res: Map<u64, u64>, did: u64) -> Set<u64> {
    Set::new(|e: u64| res.contains_key(e) && res[e] == did)
}

/// The byte sequences of a list of blobs, in order.
pub open spec fn blobs_view(args: Seq<Vec<u8>>) -> Seq<Seq<u8>> {
    args.map_values(|v: Vec<u8>| v@)
}

/// Oracle deciding which sites may hold which data and which sites may
/// perform which computations.  Its two predicates are pure: each answer is
/// a function of the reasoner's state and the question alone, and the engine
/// never caches an answer.
pub trait PolicyReasoner: Sized {
    /// What `may_access` answers: may site `sid` hold the bytes for `did`,
    /// in a context where `did` is associated with the expressions `eids`?
    spec fn may_access_spec(&self, did: u64, eids: Set<u64>, sid: u64) -> bool;

    /// What `may_compute` answers: may site `sid` perform the computation
    /// identified by `eid`?
    spec fn may_compute_spec(&self, eid: u64, sid: u64) -> bool;

    fn may_access(&self, did: DataId, eids: &Vec<ExprId>, sid: SiteId) -> (r: bool)
        ensures
            r == self.may_access_spec(did@, eid_bits_set(eids@), sid@),
    ;

    fn may_compute(&self, eid: ExprId, sid: SiteId) -> (r: bool)
        ensures
            r == self.may_compute_spec(eid@, sid@),
    ;
}

/// A line-oriented append sink for diagnostics.  Logging is best-effort:
/// nothing is assumed about it and nothing depends on it.
pub trait Logger: Sized {
    fn log_line(&mut self, line: &str);
}

/// Per-site, point-to-point, lossless message transport.  The model keeps
/// the fleet's ids and the log of everything this site has sent, so that
/// the engine's contracts can pin exactly which messages go out.
pub trait Network: Sized {
    /// The ids of the sites the transport can reach, in a fixed order.
    /// This site's own id may be among them; the engine skips it.
    spec fn peers_spec(&self) -> Seq<SiteId>;

    /// Every message handed to the transport so far, in order: the
    /// addressee and the message's image.
    spec fn sent_spec(&self) -> Seq<(u64, MsgV)>;

    fn peers(&self) -> (r: Vec<SiteId>)
        ensures
            r@ == self.peers_spec(),
    ;

    /// Enqueue one copy of `msg` to `sid`.  Failure is fatal to the caller;
    /// an unbounded transport fails only on an addressee it does not know.
    fn send_to(&mut self, msg: &Msg, sid: SiteId) -> (r: Result<(), ()>)
        ensures
            final(self).peers_spec() == old(self).peers_spec(),
            r is Ok ==> old(self).peers_spec().contains(sid),
            r is Ok ==> final(self).sent_spec() == old(self).sent_spec().push(
                (sid@, msg_view(*msg)),
            ),
            r is Err ==> final(self).sent_spec() == old(self).sent_spec(),
    ;

    /// Non-blocking dequeue from this site's inbox.  What arrives is
    /// whatever some peer sent: nothing is assumed about it.
    fn try_recv(&mut self) -> (r: Option<Msg>)
        ensures
            final(self).peers_spec() == old(self).peers_spec(),
            final(self).sent_spec() == old(self).sent_spec(),
    ;
}

/// The fixed compute function a site applies to the ordered child blobs of
/// a ready inner expression.  Deterministic: the result is a function of the
/// argument bytes alone, so every site computes the same blob.
pub trait ComputeFn: Sized {
    spec fn compute_spec(&self, args: Seq<Seq<u8>>) -> Seq<u8>;

    fn compute(&self, args: &Vec<Vec<u8>>) -> (r: Vec<u8>)
        ensures
            r@ == self.compute_spec(blobs_view(args@)),
    ;
}

/// What the reference compute function returns: one byte per argument blob,
/// its length reduced mod 256, in order.
pub open spec fn compute_fn_spec(args: Seq<Seq<u8>>) -> Seq<u8> {
    Seq::new(args.len(), |i: int| (args[i].len() % 256) as u8)
}

/// The reference compute function.
pub fn compute_fn(args: &Vec<Vec<u8>>) -> (r: Vec<u8>)
    ensures
        r@ == compute_fn_spec(blobs_view(args@)),
{
    let mut r: Vec<u8> = Vec::new();
    let mut i: usize = 0;
    while i < args.len()
        invariant
            i <= args.len(),
            r@.len() == i,
            forall|j: int| 0 <= j < i ==> r@[j] == (args@[j]@.len() % 256) as u8,
        decreases args.len() - i,
    {
        r.push((args[i].len() % 256) as u8);
        i = i + 1;
    }
    proof {
        assert(r@ =~= compute_fn_spec(blobs_view(args@)));
    }
    r
}

/// The reference compute function as a capability handed to a site.
pub struct ComputeFnImpl;

impl ComputeFn for ComputeFnImpl {
    open spec fn compute_spec(&self, args: Seq<Seq<u8>>) -> Seq<u8> {
        compute_fn_spec(args)
    }

    fn compute(&self, args: &Vec<Vec<u8>>) -> (r: Vec<u8>) {
        compute_fn(args)
    }
}

} // verus!
