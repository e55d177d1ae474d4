//! The per-site convergence engine: the graph store, the `add_data` /
//! `add_expr` user entry points, the `step` progress tick, the replication
//! rules, and the inbound-message handler.
use crate::assoc_of;
use crate::identity::child_ids_spec;
use crate::identity::hash_data;
use crate::identity::hash_data_spec;
use crate::identity::hash_expr_spec;
use crate::identity::hash_leaf;
use crate::identity::hash_leaf_spec;
use crate::identity::hash_node;
use crate::identity::hash_node_spec;
use crate::resolutions::Resolutions;
use crate::ComputeFn;
use crate::DataId;
use crate::Expr;
use crate::ExprId;
use crate::Logger;
use crate::msg_view;
use crate::Msg;
use crate::MsgV;
use crate::Network;
use crate::PolicyReasoner;
use crate::SiteError;
use crate::SiteId;
use crate::StepOutcome;
use std::collections::HashMap;
use std::collections::HashSet;
use vstd::prelude::*;

verus! {

broadcast use vstd::std_specs::hash::group_hash_axioms;

/// One site of the fleet.  It owns its graph store exclusively and talks to
/// the rest of the fleet only through its network capability.
pub struct Site<R: PolicyReasoner, L: Logger, N: Network, C: ComputeFn> {
    /// The blobs this site holds, by data id bits.
    pub did_to_data: HashMap<u64, Vec<u8>>,
    /// The children of each inner expression known here, by expression id
    /// bits, in order.
    pub eid_to_children: HashMap<u64, Vec<u64>>,
    /// The keys of `eid_to_children` in insertion order: the deterministic
    /// traversal order of the readiness search.
    pub inner_eids: Vec<u64>,
    /// The resolutions `ExprId -> DataId` this site believes.
    pub did_to_eids: Resolutions,
    /// The data ids this site has already run the `add_data` procedure
    /// for, broadcast included: a repeat insert of the same bytes performs
    /// no further side effect, whether or not the blob itself was admitted
    /// locally the first time.
    pub announced_dids: HashSet<u64>,
    /// The tree ids this site has already broadcast a `Compute` for: a
    /// repeat `add_expr` of the same tree re-broadcasts nothing.
    pub announced_eids: HashSet<u64>,
    pub reasoner: R,
    pub logger: L,
    pub network: N,
    pub compute: C,
    pub my_sid: SiteId,
}

/// The leaf entries an expression tree installs: for every `Leaf(did)` in
/// the tree, the pair (leaf expression id, data id bits).
pub open spec fn tree_leaves(e: Expr) -> Set<(u64, u64)>
    decreases e, 1int,
{
    match e {
        Expr::Ref(_) => Set::empty(),
        Expr::Leaf(did) => Set::empty().insert((hash_leaf_spec(did@), did@)),
        Expr::Node(cs) => seq_tree_leaves(cs@),
    }
}

pub open spec fn seq_tree_leaves(cs: Seq<Expr>) -> Set<(u64, u64)>
    decreases cs, 0int,
{
    if cs.len() == 0 {
        Set::empty()
    } else {
        tree_leaves(cs[0]).union(seq_tree_leaves(cs.drop_first()))
    }
}

/// The inner-node entries an expression tree installs: for every `Node`
/// subtree, the pair (its id, its children's ids in order).
pub open spec fn tree_nodes(e: Expr) -> Set<(u64, Seq<u64>)>
    decreases e, 1int,
{
    match e {
        Expr::Ref(_) => Set::empty(),
        Expr::Leaf(_) => Set::empty(),
        Expr::Node(cs) => seq_tree_nodes(cs@).insert((hash_expr_spec(e), child_ids_spec(cs@))),
    }
}

pub open spec fn seq_tree_nodes(cs: Seq<Expr>) -> Set<(u64, Seq<u64>)>
    decreases cs, 0int,
{
    if cs.len() == 0 {
        Set::empty()
    } else {
        tree_nodes(cs[0]).union(seq_tree_nodes(cs.drop_first()))
    }
}

/// Whether installing the tree cannot contradict the resolutions `res`:
/// every leaf of the tree agrees with `res` and with every other leaf.
pub open spec fn tree_ok(res: Map<u64, u64>, e: Expr) -> bool {
    &&& forall|p: (u64, u64)| #[trigger]
        tree_leaves(e).contains(p) ==> (res.contains_key(p.0) ==> res[p.0] == p.1)
    &&& forall|p: (u64, u64), q: (u64, u64)|
        tree_leaves(e).contains(p) && tree_leaves(e).contains(q) && p.0 == q.0 ==> p.1 == q.1
}

/// Whether installing the tree writes each inner node unambiguously:
/// every node entry of the tree agrees with what the site already stores
/// under that id, and with every other node entry of the tree.  Distinct
/// entries share an id only through a hash collision.
pub open spec fn nodes_ok(cm: Map<u64, Seq<u64>>, e: Expr) -> bool {
    &&& forall|p: (u64, Seq<u64>)| #[trigger]
        tree_nodes(e).contains(p) ==> (cm.contains_key(p.0) ==> cm[p.0] == p.1)
    &&& forall|p: (u64, Seq<u64>), q: (u64, Seq<u64>)|
        tree_nodes(e).contains(p) && tree_nodes(e).contains(q) && p.0 == q.0 ==> p.1 == q.1
}

/// The messages a policy-gated `Copy` broadcast hands to the transport:
/// one copy to every peer other than `my` that the reasoner admits, in
/// peer-list order.
pub open spec fn copy_sends<R: PolicyReasoner>(
    rz: R,
    peers: Seq<SiteId>,
    my: u64,
    did: u64,
    data: Seq<u8>,
    assoc: Set<u64>,
) -> Seq<(u64, MsgV)>
    decreases peers.len(),
{
    if peers.len() == 0 {
        Seq::empty()
    } else {
        let head: Seq<(u64, MsgV)> = if peers[0]@ != my && rz.may_access_spec(
            did,
            assoc,
            peers[0]@,
        ) {
            seq![(peers[0]@, MsgV::Copy { did, data })]
        } else {
            Seq::empty()
        };
        head + copy_sends(rz, peers.drop_first(), my, did, data, assoc)
    }
}

/// The messages an ungated broadcast hands to the transport: one copy of
/// `m` to every peer other than `my`, in peer-list order.
pub open spec fn bcast_sends(peers: Seq<SiteId>, my: u64, m: MsgV) -> Seq<(u64, MsgV)>
    decreases peers.len(),
{
    if peers.len() == 0 {
        Seq::empty()
    } else {
        let head: Seq<(u64, MsgV)> = if peers[0]@ != my {
            seq![(peers[0]@, m)]
        } else {
            Seq::empty()
        };
        head + bcast_sends(peers.drop_first(), my, m)
    }
}

pub proof fn lemma_copy_sends_push<R: PolicyReasoner>(
    rz: R,
    peers: Seq<SiteId>,
    p: SiteId,
    my: u64,
    did: u64,
    data: Seq<u8>,
    assoc: Set<u64>,
)
    ensures
        copy_sends(rz, peers.push(p), my, did, data, assoc) == copy_sends(
            rz,
            peers,
            my,
            did,
            data,
            assoc,
        ) + (if p@ != my && rz.may_access_spec(did, assoc, p@) {
            seq![(p@, MsgV::Copy { did, data })]
        } else {
            Seq::<(u64, MsgV)>::empty()
        }),
    decreases peers.len(),
{
    let tail: Seq<(u64, MsgV)> = if p@ != my && rz.may_access_spec(did, assoc, p@) {
        seq![(p@, MsgV::Copy { did, data })]
    } else {
        Seq::empty()
    };
    if peers.len() == 0 {
        assert(peers.push(p)[0] == p);
        assert(peers.push(p).drop_first() =~= Seq::<SiteId>::empty());
        assert(copy_sends(rz, peers.push(p).drop_first(), my, did, data, assoc) =~= Seq::<(
            u64,
            MsgV,
        )>::empty());
        assert(copy_sends(rz, peers.push(p), my, did, data, assoc) =~= copy_sends(
            rz,
            peers,
            my,
            did,
            data,
            assoc,
        ) + tail);
    } else {
        assert(peers.push(p)[0] == peers[0]);
        assert(peers.push(p).drop_first() =~= peers.drop_first().push(p));
        lemma_copy_sends_push(rz, peers.drop_first(), p, my, did, data, assoc);
        assert(copy_sends(rz, peers.push(p), my, did, data, assoc) =~= copy_sends(
            rz,
            peers,
            my,
            did,
            data,
            assoc,
        ) + tail);
    }
}

/// Appending one subtree to a child list unions in its leaf entries.
pub proof fn lemma_seq_tree_leaves_push(cs: Seq<Expr>, c: Expr)
    ensures
        seq_tree_leaves(cs.push(c)) == seq_tree_leaves(cs).union(tree_leaves(c)),
    decreases cs.len(),
{
    if cs.len() == 0 {
        assert(cs.push(c)[0] == c);
        assert(cs.push(c).drop_first() =~= Seq::<Expr>::empty());
        assert(seq_tree_leaves(cs.push(c).drop_first()) =~= Set::<(u64, u64)>::empty());
        assert(seq_tree_leaves(cs.push(c)) =~= seq_tree_leaves(cs).union(tree_leaves(c)));
    } else {
        assert(cs.push(c)[0] == cs[0]);
        assert(cs.push(c).drop_first() =~= cs.drop_first().push(c));
        lemma_seq_tree_leaves_push(cs.drop_first(), c);
        assert(seq_tree_leaves(cs.push(c)) =~= seq_tree_leaves(cs).union(tree_leaves(c)));
    }
}

/// Appending one subtree to a child list unions in its node ids.
pub proof fn lemma_seq_tree_nodes_push(cs: Seq<Expr>, c: Expr)
    ensures
        seq_tree_nodes(cs.push(c)) == seq_tree_nodes(cs).union(tree_nodes(c)),
    decreases cs.len(),
{
    if cs.len() == 0 {
        assert(cs.push(c)[0] == c);
        assert(cs.push(c).drop_first() =~= Seq::<Expr>::empty());
        assert(seq_tree_nodes(cs.push(c).drop_first()) =~= Set::<(u64, Seq<u64>)>::empty());
        assert(seq_tree_nodes(cs.push(c)) =~= seq_tree_nodes(cs).union(tree_nodes(c)));
    } else {
        assert(cs.push(c)[0] == cs[0]);
        assert(cs.push(c).drop_first() =~= cs.drop_first().push(c));
        lemma_seq_tree_nodes_push(cs.drop_first(), c);
        assert(seq_tree_nodes(cs.push(c)) =~= seq_tree_nodes(cs).union(tree_nodes(c)));
    }
}

/// A subtree's leaf entries are among the child list's.
pub proof fn lemma_seq_tree_leaves_index(cs: Seq<Expr>, i: int)
    requires
        0 <= i < cs.len(),
    ensures
        forall|p: (u64, u64)| #[trigger]
            tree_leaves(cs[i]).contains(p) ==> seq_tree_leaves(cs).contains(p),
    decreases cs.len(),
{
    if i == 0 {
    } else {
        lemma_seq_tree_leaves_index(cs.drop_first(), i - 1);
        assert(cs.drop_first()[i - 1] == cs[i]);
    }
}

/// A subtree's node ids are among the child list's.
pub proof fn lemma_seq_tree_nodes_index(cs: Seq<Expr>, i: int)
    requires
        0 <= i < cs.len(),
    ensures
        forall|p: (u64, Seq<u64>)| #[trigger]
            tree_nodes(cs[i]).contains(p) ==> seq_tree_nodes(cs).contains(p),
    decreases cs.len(),
{
    if i == 0 {
    } else {
        lemma_seq_tree_nodes_index(cs.drop_first(), i - 1);
        assert(cs.drop_first()[i - 1] == cs[i]);
    }
}

/// Policy discipline of the replication rule: every `Copy` that the gated
/// broadcast hands to the transport goes to a site other than the sender
/// that the reasoner admitted at broadcast time, and carries exactly the
/// published blob.
pub proof fn lemma_copy_sends_admitted<R: PolicyReasoner>(
    rz: R,
    peers: Seq<SiteId>,
    my: u64,
    did: u64,
    data: Seq<u8>,
    assoc: Set<u64>,
)
    ensures
        forall|j: int|
            0 <= j < copy_sends(rz, peers, my, did, data, assoc).len() ==> {
                let s = #[trigger] copy_sends(rz, peers, my, did, data, assoc)[j];
                &&& s.0 != my
                &&& rz.may_access_spec(did, assoc, s.0)
                &&& s.1 == (MsgV::Copy { did, data })
            },
    decreases peers.len(),
{
    if peers.len() > 0 {
        lemma_copy_sends_admitted(rz, peers.drop_first(), my, did, data, assoc);
    }
}

/// Every copy the gated broadcast emits is addressed to one of the peers.
pub proof fn lemma_copy_sends_from_peers<R: PolicyReasoner>(
    rz: R,
    peers: Seq<SiteId>,
    my: u64,
    did: u64,
    data: Seq<u8>,
    assoc: Set<u64>,
)
    ensures
        forall|j: int|
            0 <= j < copy_sends(rz, peers, my, did, data, assoc).len() ==> exists|i: int|
                0 <= i < peers.len() && (#[trigger] copy_sends(rz, peers, my, did, data, assoc)[j]).0
                    == peers[i]@,
    decreases peers.len(),
{
    if peers.len() > 0 {
        lemma_copy_sends_from_peers(rz, peers.drop_first(), my, did, data, assoc);
        let s = copy_sends(rz, peers, my, did, data, assoc);
        let rest = copy_sends(rz, peers.drop_first(), my, did, data, assoc);
        assert forall|j: int| 0 <= j < s.len() implies exists|i: int|
            0 <= i < peers.len() && (#[trigger] s[j]).0 == peers[i]@ by {
            if s.len() > rest.len() && j == 0 {
                assert(s[j].0 == peers[0]@);
            } else {
                let jr = j - (s.len() - rest.len());
                assert(s[j] == rest[jr]);
                let i = choose|i: int| 0 <= i < peers.drop_first().len() && rest[jr].0
                    == peers.drop_first()[i]@;
                assert(peers.drop_first()[i] == peers[i + 1]);
            }
        }
    }
}

/// At most one copy per admitted peer: over a duplicate-free peer list the
/// gated broadcast never addresses the same site twice.
pub proof fn lemma_copy_sends_once<R: PolicyReasoner>(
    rz: R,
    peers: Seq<SiteId>,
    my: u64,
    did: u64,
    data: Seq<u8>,
    assoc: Set<u64>,
)
    requires
        peers.no_duplicates(),
    ensures
        ({
            let s = copy_sends(rz, peers, my, did, data, assoc);
            forall|j1: int, j2: int| 0 <= j1 < j2 < s.len() ==> (#[trigger] s[j1]).0 != (
            #[trigger] s[j2]).0
        }),
    decreases peers.len(),
{
    if peers.len() > 0 {
        assert(peers.drop_first().no_duplicates());
        lemma_copy_sends_once(rz, peers.drop_first(), my, did, data, assoc);
        lemma_copy_sends_from_peers(rz, peers.drop_first(), my, did, data, assoc);
        let s = copy_sends(rz, peers, my, did, data, assoc);
        let rest = copy_sends(rz, peers.drop_first(), my, did, data, assoc);
        assert forall|j1: int, j2: int| 0 <= j1 < j2 < s.len() implies (#[trigger] s[j1]).0 != (
        #[trigger] s[j2]).0 by {
            let head = s.len() - rest.len();
            if j1 == 0 && head == 1 {
                assert(s[0].0 == peers[0]@);
                assert(s[j2] == rest[j2 - 1]);
                let i = choose|i: int| 0 <= i < peers.drop_first().len() && rest[j2 - 1].0
                    == peers.drop_first()[i]@;
                assert(peers.drop_first()[i] == peers[i + 1]);
                assert(peers[0] != peers[i + 1]);
            } else {
                assert(s[j1] == rest[j1 - head]);
                assert(s[j2] == rest[j2 - head]);
            }
        }
    }
}

/// Idempotent installation: when every leaf resolution and every inner
/// node of a tree is already held at a site, installing the tree again
/// changes neither the resolutions nor the known expressions.  The
/// hypotheses are exactly what the installing operations guarantee.
pub proof fn lemma_install_idempotent<R: PolicyReasoner, L: Logger, N: Network, C: ComputeFn>(
    pre: Site<R, L, N, C>,
    post: Site<R, L, N, C>,
    e: Expr,
)
    requires
        Site::grows_to(pre, post),
        forall|x: u64| #[trigger]
            post.resolution().contains_key(x) ==> pre.resolution().contains_key(x)
                || tree_leaves(e).contains((x, post.resolution()[x])),
        forall|x: u64| #[trigger]
            post.children_map().contains_key(x) ==> pre.children_map().contains_key(x)
                || tree_nodes(e).contains((x, post.children_map()[x])),
        forall|p: (u64, u64)| #[trigger]
            tree_leaves(e).contains(p) ==> pre.resolution().contains_key(p.0)
                && pre.resolution()[p.0] == p.1,
        forall|p: (u64, Seq<u64>)| #[trigger]
            tree_nodes(e).contains(p) ==> pre.children_map().contains_key(p.0),
    ensures
        post.resolution() == pre.resolution(),
        post.children_map() == pre.children_map(),
{
    assert forall|x: u64| #[trigger] post.resolution().contains_key(x) implies pre.resolution().contains_key(
        x,
    ) by {
        if !pre.resolution().contains_key(x) {
            assert(tree_leaves(e).contains((x, post.resolution()[x])));
        }
    }
    assert forall|x: u64| #[trigger] post.children_map().contains_key(x) implies pre.children_map().contains_key(
        x,
    ) by {
        if !pre.children_map().contains_key(x) {
            assert(tree_nodes(e).contains((x, post.children_map()[x])));
        }
    }
    assert(post.resolution() =~= pre.resolution());
    assert(post.children_map() =~= pre.children_map());
}

/// An ungated broadcast reaches no one but peers other than the sender,
/// with exactly the announced message.
pub proof fn lemma_bcast_sends_peers(peers: Seq<SiteId>, my: u64, m: MsgV)
    ensures
        forall|j: int|
            0 <= j < bcast_sends(peers, my, m).len() ==> {
                let s = #[trigger] bcast_sends(peers, my, m)[j];
                s.0 != my && s.1 == m
            },
    decreases peers.len(),
{
    if peers.len() > 0 {
        lemma_bcast_sends_peers(peers.drop_first(), my, m);
    }
}

/// A bare `Ref` installs nothing and cannot conflict, whether or not the
/// referenced expression is known at the receiving site.
pub proof fn lemma_ref_installs_nothing(res: Map<u64, u64>, eid: ExprId)
    ensures
        tree_ok(res, Expr::Ref(eid)),
        tree_leaves(Expr::Ref(eid)) == Set::<(u64, u64)>::empty(),
        tree_nodes(Expr::Ref(eid)) == Set::<(u64, Seq<u64>)>::empty(),
{
}

/// Fresh, mutually consistent leaves install without error, whatever
/// references the tree holds, known at the site or not: `tree_ok`, the
/// exact success condition of installation, reads the tree's leaves alone.
pub proof fn lemma_tree_ok_from_leaves(res: Map<u64, u64>, e: Expr)
    requires
        forall|p: (u64, u64)| #[trigger] tree_leaves(e).contains(p) ==> !res.contains_key(p.0),
        forall|p: (u64, u64), q: (u64, u64)|
            tree_leaves(e).contains(p) && tree_leaves(e).contains(q) && p.0 == q.0 ==> p.1 == q.1,
    ensures
        tree_ok(res, e),
{
}

/// A `Leaf(did)` installs exactly the resolution of its own leaf
/// expression to `did`: once installed, the leaf resolves immediately at
/// any site, and to nothing else.
pub proof fn lemma_leaf_entry(did: DataId)
    ensures
        tree_leaves(Expr::Leaf(did)) == Set::<(u64, u64)>::empty().insert(
            (hash_leaf_spec(did@), did@),
        ),
        tree_leaves(Expr::Leaf(did)).contains((hash_leaf_spec(did@), did@)),
{
}

/// What an idle or drain tick certifies: since the traversal list holds
/// every known inner expression, a tick that found nothing to compute has
/// checked them all — each is already resolved, missing a child blob, or
/// not permitted here.  While anything computable remains, ticks compute.
pub proof fn lemma_idle_means_nothing_computable<
    R: PolicyReasoner,
    L: Logger,
    N: Network,
    C: ComputeFn,
>(s: Site<R, L, N, C>)
    requires
        s.wf(),
        s.no_ready_before(s.inner_eids@.len() as int),
    ensures
        forall|e: u64| #[trigger] s.children_map().contains_key(e) ==> !s.ready_and_permitted(e),
{
    assert forall|e: u64| #[trigger] s.children_map().contains_key(e) implies !s.ready_and_permitted(
        e,
    ) by {
        assert(s.eid_to_children@.contains_key(e));
        assert(s.inner_eids@.contains(e));
        let j = choose|j: int| 0 <= j < s.inner_eids@.len() && s.inner_eids@[j] == e;
        assert(!s.ready_and_permitted(s.inner_eids@[j]));
    }
}

/// A sequence is a prefix of itself extended by anything.
pub proof fn lemma_prefix_concat<T>(a: Seq<T>, b: Seq<T>)
    ensures
        a.is_prefix_of(a + b),
{
    assert(a =~= (a + b).subrange(0, a.len() as int));
}

/// Prefixes chain: a prefix of a prefix is a prefix.
pub proof fn lemma_prefix_trans<T>(a: Seq<T>, b: Seq<T>, c: Seq<T>)
    requires
        a.is_prefix_of(b),
        b.is_prefix_of(c),
    ensures
        a.is_prefix_of(c),
{
    assert forall|i: int| 0 <= i < a.len() implies a[i] == c.subrange(0, a.len() as int)[i] by {
        assert(a[i] == b.subrange(0, a.len() as int)[i]);
        assert(b[i] == c.subrange(0, b.len() as int)[i]);
    }
    assert(a =~= c.subrange(0, a.len() as int));
}

pub proof fn lemma_bcast_sends_push(peers: Seq<SiteId>, p: SiteId, my: u64, m: MsgV)
    ensures
        bcast_sends(peers.push(p), my, m) == bcast_sends(peers, my, m) + (if p@ != my {
            seq![(p@, m)]
        } else {
            Seq::<(u64, MsgV)>::empty()
        }),
    decreases peers.len(),
{
    let tail: Seq<(u64, MsgV)> = if p@ != my {
        seq![(p@, m)]
    } else {
        Seq::empty()
    };
    if peers.len() == 0 {
        assert(peers.push(p)[0] == p);
        assert(peers.push(p).drop_first() =~= Seq::<SiteId>::empty());
        assert(bcast_sends(peers.push(p).drop_first(), my, m) =~= Seq::<(u64, MsgV)>::empty());
        assert(bcast_sends(peers.push(p), my, m) =~= bcast_sends(peers, my, m) + tail);
    } else {
        assert(peers.push(p)[0] == peers[0]);
        assert(peers.push(p).drop_first() =~= peers.drop_first().push(p));
        lemma_bcast_sends_push(peers.drop_first(), p, my, m);
        assert(bcast_sends(peers.push(p), my, m) =~= bcast_sends(peers, my, m) + tail);
    }
}

impl<R: PolicyReasoner, L: Logger, N: Network, C: ComputeFn> Site<R, L, N, C> {
    /// The blobs held: data id bits to byte sequence.
    pub open spec fn data_map(self) -> Map<u64, Seq<u8>> {
        self.did_to_data@.map_values(|v: Vec<u8>| v@)
    }

    /// The known inner expressions: expression id bits to ordered child ids.
    pub open spec fn children_map(self) -> Map<u64, Seq<u64>> {
        self.eid_to_children@.map_values(|v: Vec<u64>| v@)
    }

    /// The resolutions believed: expression id bits to data id bits.
    pub open spec fn resolution(self) -> Map<u64, u64> {
        self.did_to_eids@
    }

    /// The store invariants: every id is the hash of what it names, the
    /// resolution store's index is consistent, and the traversal list holds
    /// exactly the known inner expressions, each once.
    pub open spec fn wf(self) -> bool {
        &&& self.did_to_eids.wf()
        &&& forall|d: u64| #[trigger]
            self.did_to_data@.contains_key(d) ==> hash_data_spec(self.did_to_data@[d]@) == d
        &&& forall|e: u64| #[trigger]
            self.eid_to_children@.contains_key(e) ==> hash_node_spec(self.eid_to_children@[e]@)
                == e
        &&& self.inner_eids@.no_duplicates()
        &&& forall|i: int|
            0 <= i < self.inner_eids@.len() ==> self.eid_to_children@.contains_key(
                #[trigger] self.inner_eids@[i],
            )
        &&& forall|e: u64| #[trigger]
            self.eid_to_children@.contains_key(e) ==> self.inner_eids@.contains(e)
    }

    /// An inner expression is ready when it is unresolved and every child
    /// is resolved to a blob held locally.
    pub open spec fn ready(self, e: u64) -> bool {
        &&& self.children_map().contains_key(e)
        &&& !self.resolution().contains_key(e)
        &&& forall|j: int|
            0 <= j < self.children_map()[e].len() ==> {
                let c = #[trigger] self.children_map()[e][j];
                self.resolution().contains_key(c) && self.data_map().contains_key(
                    self.resolution()[c],
                )
            }
    }

    /// Ready, and the reasoner permits this site to compute it.
    pub open spec fn ready_and_permitted(self, e: u64) -> bool {
        self.ready(e) && self.reasoner.may_compute_spec(e, self.my_sid@)
    }

    /// No expression before position `i` of the traversal order is ready
    /// and permitted.
    pub open spec fn no_ready_before(self, i: int) -> bool {
        forall|j: int| 0 <= j < i ==> !self.ready_and_permitted(#[trigger] self.inner_eids@[j])
    }

    /// The blobs a ready expression's children resolve to, in order.
    pub open spec fn child_blobs(self, e: u64) -> Seq<Seq<u8>> {
        self.children_map()[e].map_values(|c: u64| self.data_map()[self.resolution()[c]])
    }

    /// The resolutions after registering the leaf expression of `did`.
    pub open spec fn res_after_leaf(pre: Map<u64, u64>, did: u64) -> Map<u64, u64> {
        pre.insert(hash_leaf_spec(did), did)
    }

    /// Whether registering the leaf of `did` would contradict a resolution
    /// already held.
    pub open spec fn leaf_conflicts(pre: Map<u64, u64>, did: u64) -> bool {
        pre.contains_key(hash_leaf_spec(did)) && pre[hash_leaf_spec(did)] != did
    }

    /// The persistent state only grows; the site's identity and fleet are
    /// fixed; the send log is append-only.
    pub open spec fn grows_to(pre: Self, post: Self) -> bool {
        &&& pre.data_map().submap_of(post.data_map())
        &&& pre.children_map().submap_of(post.children_map())
        &&& pre.resolution().submap_of(post.resolution())
        &&& post.my_sid == pre.my_sid
        &&& post.network.peers_spec() == pre.network.peers_spec()
        &&& pre.network.sent_spec().is_prefix_of(post.network.sent_spec())
        &&& pre.inner_eids@.is_prefix_of(post.inner_eids@)
        &&& pre.announced_dids@.subset_of(post.announced_dids@)
        &&& pre.announced_eids@.subset_of(post.announced_eids@)
    }

    /// Growth chains across successive operations.
    pub proof fn lemma_grows_trans(a: Self, b: Self, c: Self)
        requires
            Self::grows_to(a, b),
            Self::grows_to(b, c),
        ensures
            Self::grows_to(a, c),
    {
        lemma_prefix_trans(a.network.sent_spec(), b.network.sent_spec(), c.network.sent_spec());
        lemma_prefix_trans(a.inner_eids@, b.inner_eids@, c.inner_eids@);
        assert forall|k: u64| #[trigger] a.data_map().dom().contains(k) implies c.data_map().dom().contains(k) && a.data_map()[k] == c.data_map()[k] by {
            assert(b.data_map().dom().contains(k));
        }
        assert forall|k: u64| #[trigger] a.children_map().dom().contains(k) implies c.children_map().dom().contains(k) && a.children_map()[k] == c.children_map()[k] by {
            assert(b.children_map().dom().contains(k));
        }
        assert forall|k: u64| #[trigger] a.resolution().dom().contains(k) implies c.resolution().dom().contains(k) && a.resolution()[k] == c.resolution()[k] by {
            assert(b.resolution().dom().contains(k));
        }
    }

    pub fn new(reasoner: R, logger: L, network: N, compute: C, my_sid: SiteId) -> (r: Self)
        ensures
            r.wf(),
            r.data_map() == Map::<u64, Seq<u8>>::empty(),
            r.children_map() == Map::<u64, Seq<u64>>::empty(),
            r.resolution() == Map::<u64, u64>::empty(),
            r.announced_dids@ == Set::<u64>::empty(),
            r.announced_eids@ == Set::<u64>::empty(),
            r.my_sid == my_sid,
            r.reasoner == reasoner,
            r.network == network,
            r.compute == compute,
    {
        let r = Site {
            did_to_data: HashMap::new(),
            eid_to_children: HashMap::new(),
            inner_eids: Vec::new(),
            did_to_eids: Resolutions::new(),
            announced_dids: HashSet::new(),
            announced_eids: HashSet::new(),
            reasoner,
            logger,
            network,
            compute,
            my_sid,
        };
        proof {
            assert(r.data_map() =~= Map::<u64, Seq<u8>>::empty());
            assert(r.children_map() =~= Map::<u64, Seq<u64>>::empty());
        }
        r
    }

    /// The site's own logger, for the embedding process to write through.
    pub fn logger_mut(&mut self) -> (r: &mut L)
        ensures
            *final(r) == final(self).logger,
            final(self).did_to_data == old(self).did_to_data,
            final(self).eid_to_children == old(self).eid_to_children,
            final(self).inner_eids == old(self).inner_eids,
            final(self).did_to_eids == old(self).did_to_eids,
            final(self).reasoner == old(self).reasoner,
            final(self).network == old(self).network,
            final(self).compute == old(self).compute,
            final(self).my_sid == old(self).my_sid,
    {
        &mut self.logger
    }

    /// The resolved result of `eid` at this site, if known.
    pub fn eid_to_did(&self, eid: &ExprId) -> (r: Option<DataId>)
        ensures
            match r {
                Some(d) => self.resolution().contains_key(eid@) && self.resolution()[eid@] == d@,
                None => !self.resolution().contains_key(eid@),
            },
    {
        self.did_to_eids.get_one(eid)
    }

    /// Whether this site holds the bytes for `did`.
    pub fn has_blob(&self, did: &DataId) -> (r: bool)
        ensures
            r == self.data_map().contains_key(did@),
    {
        self.did_to_data.contains_key(&did.0.bits)
    }

    /// Insert a blob at this site.  The blob's id is its content hash; the
    /// blob is stored locally only if the reasoner admits this site to it;
    /// its `Leaf` expression is registered either way; and one `Copy` goes
    /// out to every admitted peer.  Idempotent: re-adding bytes already
    /// held returns the same id and performs no further state change and no
    /// further broadcast.
    #[verifier::loop_isolation(false)]
    pub fn add_data(&mut self, data: Vec<u8>) -> (r: Result<DataId, SiteError>)
        requires
            old(self).wf(),
        ensures
            final(self).wf(),
            Self::grows_to(*old(self), *final(self)),
            final(self).reasoner == old(self).reasoner,
            final(self).compute == old(self).compute,
            r is Ok ==> r->Ok_0@ == hash_data_spec(data@),
            ({
                let did = hash_data_spec(data@);
                let pre = *old(self);
                let post = *final(self);
                if pre.data_map().contains_key(did) || pre.announced_dids@.contains(did) {
                    &&& r is Ok
                    &&& post.data_map() == pre.data_map()
                    &&& post.children_map() == pre.children_map()
                    &&& post.resolution() == pre.resolution()
                    &&& post.announced_dids@ == pre.announced_dids@
                    &&& post.announced_eids@ == pre.announced_eids@
                    &&& post.network.sent_spec() == pre.network.sent_spec()
                } else if Self::leaf_conflicts(pre.resolution(), did) {
                    &&& r == Err::<DataId, SiteError>(SiteError::ResolutionConflict)
                    &&& post.data_map() == pre.data_map()
                    &&& post.children_map() == pre.children_map()
                    &&& post.resolution() == pre.resolution()
                    &&& post.announced_dids@ == pre.announced_dids@
                    &&& post.announced_eids@ == pre.announced_eids@
                    &&& post.network.sent_spec() == pre.network.sent_spec()
                } else {
                    let res1 = Self::res_after_leaf(pre.resolution(), did);
                    let assoc = assoc_of(res1, did);
                    let admitted = pre.reasoner.may_access_spec(did, assoc, pre.my_sid@);
                    &&& post.resolution() == res1
                    &&& post.children_map() == pre.children_map()
                    &&& post.announced_dids@ == pre.announced_dids@.insert(did)
                    &&& post.announced_eids@ == pre.announced_eids@
                    &&& post.data_map() == (if admitted {
                        pre.data_map().insert(did, data@)
                    } else {
                        pre.data_map()
                    })
                    &&& (r is Ok ==> post.network.sent_spec() == pre.network.sent_spec()
                        + copy_sends(
                        pre.reasoner,
                        pre.network.peers_spec(),
                        pre.my_sid@,
                        did,
                        data@,
                        assoc,
                    ))
                    &&& (r is Err ==> r == Err::<DataId, SiteError>(SiteError::Transport)
                        && exists|k: int|
                        0 <= k < pre.network.peers_spec().len() && pre.network.peers_spec()[k]@
                            != pre.my_sid@ && pre.reasoner.may_access_spec(
                            did,
                            assoc,
                            pre.network.peers_spec()[k]@,
                        ) && post.network.sent_spec() == pre.network.sent_spec() + copy_sends(
                            pre.reasoner,
                            #[trigger] pre.network.peers_spec().take(k),
                            pre.my_sid@,
                            did,
                            data@,
                            assoc,
                        ))
                }
            }),
    {
        let ghost dv = data@;
        let did = hash_data(&data);
        if self.did_to_data.contains_key(&did.0.bits) || self.announced_dids.contains(&did.0.bits) {
            self.logger.log_line("add_data: already added; nothing to do");
            return Ok(did);
        }
        let leaf = hash_leaf(did);
        match self.did_to_eids.insert(did, leaf) {
            Err(_) => {
                self.logger.log_line("add_data: leaf resolution conflict");
                return Err(SiteError::ResolutionConflict);
            },
            Ok(_) => {},
        }
        self.announced_dids.insert(did.0.bits);
        let assoc = self.did_to_eids.get_many(&did);
        let admitted = self.reasoner.may_access(did, &assoc, self.my_sid);
        let msg_bytes = crate::clone_bytes(&data);
        if admitted {
            self.logger.log_line("add_data: admitted locally");
            self.did_to_data.insert(did.0.bits, data);
            proof {
                assert(self.data_map() =~= old(self).data_map().insert(did@, dv));
            }
        } else {
            self.logger.log_line("add_data: policy denied holding this data");
        }
        let msg = Msg::Copy { did, data: msg_bytes };
        let peers = self.network.peers();
        let ghost mid = *self;
        let ghost sent0 = self.network.sent_spec();
        let ghost aset = assoc_of(self.resolution(), did@);
        proof {
            assert(crate::eid_bits_set(assoc@) == aset);
        }
        let mut i: usize = 0;
        while i < peers.len()
            invariant
                i <= peers@.len(),
                self.did_to_data == mid.did_to_data,
                self.eid_to_children == mid.eid_to_children,
                self.inner_eids == mid.inner_eids,
                self.did_to_eids == mid.did_to_eids,
                self.announced_dids == mid.announced_dids,
                self.announced_eids == mid.announced_eids,
                self.reasoner == mid.reasoner,
                self.compute == mid.compute,
                self.my_sid == mid.my_sid,
                self.network.peers_spec() == mid.network.peers_spec(),
                peers@ == mid.network.peers_spec(),
                self.network.sent_spec() == sent0 + copy_sends(
                    mid.reasoner,
                    peers@.take(i as int),
                    mid.my_sid@,
                    did@,
                    dv,
                    aset,
                ),
                aset == assoc_of(mid.resolution(), did@),
                crate::eid_bits_set(assoc@) == aset,
                msg_view(msg) == (MsgV::Copy { did: did@, data: dv }),
                mid.wf(),
            decreases peers@.len() - i,
        {
            let p = peers[i];
            if p.0.bits != self.my_sid.0.bits {
                let assoc_now = self.did_to_eids.get_many(&did);
                proof {
                    assert(crate::eid_bits_set(assoc_now@) == aset);
                }
                if self.reasoner.may_access(did, &assoc_now, p) {
                    self.logger.log_line("add_data: sending copy to admitted peer");
                    match self.network.send_to(&msg, p) {
                        Ok(_) => {},
                        Err(_) => {
                            proof {
                                let k = i as int;
                                assert(self.network.sent_spec() == sent0 + copy_sends(
                                    mid.reasoner,
                                    mid.network.peers_spec().take(k),
                                    mid.my_sid@,
                                    did@,
                                    dv,
                                    aset,
                                ));
                            }
                            return Err(SiteError::Transport);
                        },
                    }
                } else {
                    self.logger.log_line("add_data: policy denied replication to peer");
                }
            }
            proof {
                lemma_copy_sends_push(
                    mid.reasoner,
                    peers@.take(i as int),
                    peers@[i as int],
                    mid.my_sid@,
                    did@,
                    dv,
                    aset,
                );
                assert(peers@.take(i as int).push(peers@[i as int]) =~= peers@.take(i as int + 1));
            }
            i = i + 1;
        }
        proof {
            assert(peers@.take(peers@.len() as int) =~= peers@);
        }
        Ok(did)
    }

    /// Install an expression tree received by replication: walk it bottom
    /// up, registering every `Leaf` resolution and every inner node, with
    /// no re-broadcast.  Returns the tree's id.  Fails only when a leaf
    /// contradicts a resolution already held.
    #[verifier::loop_isolation(false)]
    fn add_replicated_expr(&mut self, expr: &Expr) -> (r: Result<ExprId, SiteError>)
        requires
            old(self).wf(),
        ensures
            final(self).wf(),
            Self::grows_to(*old(self), *final(self)),
            final(self).reasoner == old(self).reasoner,
            final(self).compute == old(self).compute,
            final(self).network == old(self).network,
            final(self).logger == old(self).logger,
            final(self).data_map() == old(self).data_map(),
            final(self).announced_dids == old(self).announced_dids,
            final(self).announced_eids == old(self).announced_eids,
            r is Ok ==> r->Ok_0@ == hash_expr_spec(*expr),
            r is Err ==> r == Err::<ExprId, SiteError>(SiteError::ResolutionConflict),
            tree_ok(old(self).resolution(), *expr) ==> r is Ok,
            forall|x: u64| #[trigger]
                final(self).resolution().contains_key(x) ==> old(self).resolution().contains_key(x)
                    || tree_leaves(*expr).contains((x, final(self).resolution()[x])),
            forall|x: u64| #[trigger]
                final(self).children_map().contains_key(x)
                    ==> old(self).children_map().contains_key(x) || tree_nodes(*expr).contains(
                    (x, final(self).children_map()[x]),
                ),
            r is Ok ==> forall|p: (u64, u64)| #[trigger]
                tree_leaves(*expr).contains(p) ==> final(self).resolution().contains_key(p.0)
                    && final(self).resolution()[p.0] == p.1,
            r is Ok ==> forall|p: (u64, Seq<u64>)| #[trigger]
                tree_nodes(*expr).contains(p) ==> final(self).children_map().contains_key(p.0),
            r is Ok && nodes_ok(old(self).children_map(), *expr) ==> forall|p: (u64, Seq<u64>)|
                #[trigger] tree_nodes(*expr).contains(p) ==> final(self).children_map().contains_key(
                    p.0,
                ) && final(self).children_map()[p.0] == p.1,
        decreases *expr,
    {
        match expr {
            Expr::Ref(eid) => Ok(*eid),
            Expr::Leaf(did) => {
                let eid = hash_leaf(*did);
                match self.did_to_eids.insert(*did, eid) {
                    Ok(_) => {
                        proof {
                            let p = (hash_leaf_spec(did@), did@);
                            assert(tree_leaves(*expr).contains(p));
                        }
                        Ok(eid)
                    },
                    Err(_) => {
                        proof {
                            let p = (hash_leaf_spec(did@), did@);
                            assert(tree_leaves(*expr).contains(p));
                        }
                        Err(SiteError::ResolutionConflict)
                    },
                }
            },
            Expr::Node(cs) => {
                let ghost res0 = old(self).resolution();
                let ghost cm0 = old(self).children_map();
                let ghost whole = *expr;
                let mut ids: Vec<u64> = Vec::new();
                let mut i: usize = 0;
                while i < cs.len()
                    invariant
                        i <= cs@.len(),
                        self.wf(),
                        Self::grows_to(*old(self), *self),
                        self.reasoner == old(self).reasoner,
                        self.compute == old(self).compute,
                        self.network == old(self).network,
                        self.logger == old(self).logger,
                        self.announced_dids == old(self).announced_dids,
                        self.announced_eids == old(self).announced_eids,
                        self.data_map() == old(self).data_map(),
                        ids@ == crate::identity::child_ids_spec(cs@.take(i as int)),
                        forall|x: u64| #[trigger]
                            self.resolution().contains_key(x) ==> res0.contains_key(x)
                                || seq_tree_leaves(cs@.take(i as int)).contains(
                                (x, self.resolution()[x]),
                            ),
                        forall|x: u64| #[trigger]
                            self.children_map().contains_key(x) ==> cm0.contains_key(x)
                                || seq_tree_nodes(cs@.take(i as int)).contains(
                                (x, self.children_map()[x]),
                            ),
                        forall|p: (u64, u64)| #[trigger]
                            seq_tree_leaves(cs@.take(i as int)).contains(p)
                                ==> self.resolution().contains_key(p.0) && self.resolution()[p.0]
                                == p.1,
                        forall|p: (u64, Seq<u64>)| #[trigger]
                            seq_tree_nodes(cs@.take(i as int)).contains(p)
                                ==> self.children_map().contains_key(p.0),
                        nodes_ok(cm0, whole) ==> forall|p: (u64, Seq<u64>)| #[trigger]
                            seq_tree_nodes(cs@.take(i as int)).contains(p)
                                ==> self.children_map().contains_key(p.0)
                                && self.children_map()[p.0] == p.1,
                        forall|p: (u64, u64)| #[trigger]
                            seq_tree_leaves(cs@.take(i as int)).contains(p) ==> seq_tree_leaves(
                                cs@,
                            ).contains(p),
                        forall|p: (u64, Seq<u64>)| #[trigger]
                            seq_tree_nodes(cs@.take(i as int)).contains(p) ==> seq_tree_nodes(
                                cs@,
                            ).contains(p),
                    decreases cs@.len() - i,
                {
                    proof {
                        assert(expr->Node_0 == *cs);
                        assert(decreases_to!(*expr => expr->Node_0));
                        assert(decreases_to!(*cs => cs@));
                        assert(decreases_to!(cs@ => cs@[i as int]));
                        lemma_seq_tree_leaves_index(cs@, i as int);
                        lemma_seq_tree_nodes_index(cs@, i as int);
                        assert(tree_leaves(whole) == seq_tree_leaves(cs@));
                        assert(tree_nodes(whole) == seq_tree_nodes(cs@).insert(
                            (hash_expr_spec(whole), child_ids_spec(cs@)),
                        ));
                        assert(tree_ok(res0, whole) ==> tree_ok(self.resolution(), cs@[i as int]))
                            by {
                            if tree_ok(res0, whole) {
                                assert forall|p: (u64, u64)| #[trigger]
                                    tree_leaves(cs@[i as int]).contains(p)
                                        && self.resolution().contains_key(
                                        p.0,
                                    ) implies self.resolution()[p.0] == p.1 by {
                                    assert(seq_tree_leaves(cs@).contains(p));
                                    assert(tree_leaves(whole).contains(p));
                                    if res0.contains_key(p.0) {
                                        assert(res0[p.0] == self.resolution()[p.0]);
                                    } else {
                                        let q = (p.0, self.resolution()[p.0]);
                                        assert(seq_tree_leaves(cs@.take(i as int)).contains(q));
                                        assert(tree_leaves(whole).contains(q));
                                    }
                                }
                                assert forall|p: (u64, u64), q: (u64, u64)|
                                    tree_leaves(cs@[i as int]).contains(p) && tree_leaves(
                                        cs@[i as int],
                                    ).contains(q) && p.0 == q.0 implies p.1 == q.1 by {
                                    assert(tree_leaves(whole).contains(p));
                                    assert(tree_leaves(whole).contains(q));
                                }
                            }
                        }
                        assert(nodes_ok(cm0, whole) ==> nodes_ok(
                            self.children_map(),
                            cs@[i as int],
                        )) by {
                            if nodes_ok(cm0, whole) {
                                assert forall|p: (u64, Seq<u64>)| #[trigger]
                                    tree_nodes(cs@[i as int]).contains(p)
                                        && self.children_map().contains_key(
                                        p.0,
                                    ) implies self.children_map()[p.0] == p.1 by {
                                    assert(seq_tree_nodes(cs@).contains(p));
                                    assert(tree_nodes(whole).contains(p));
                                    if cm0.contains_key(p.0) {
                                        assert(cm0[p.0] == self.children_map()[p.0]);
                                    } else {
                                        let q = (p.0, self.children_map()[p.0]);
                                        assert(seq_tree_nodes(cs@.take(i as int)).contains(q));
                                        assert(tree_nodes(whole).contains(q));
                                    }
                                }
                                assert forall|p: (u64, Seq<u64>), q: (u64, Seq<u64>)|
                                    tree_nodes(cs@[i as int]).contains(p) && tree_nodes(
                                        cs@[i as int],
                                    ).contains(q) && p.0 == q.0 implies p.1 == q.1 by {
                                    assert(tree_nodes(whole).contains(p));
                                    assert(tree_nodes(whole).contains(q));
                                }
                            }
                        }
                    }
                    let ghost prev = *self;
                    let cid = match self.add_replicated_expr(&cs[i]) {
                        Ok(c) => c,
                        Err(e) => {
                            proof {
                                Self::lemma_grows_trans(*old(self), prev, *self);
                                assert(!tree_ok(res0, whole));
                                assert forall|x: u64| #[trigger]
                                    self.resolution().contains_key(x) implies res0.contains_key(x)
                                    || tree_leaves(whole).contains((x, self.resolution()[x])) by {
                                    if !res0.contains_key(x) {
                                        let v = self.resolution()[x];
                                        if seq_tree_leaves(cs@.take(i as int)).contains((x, v)) {
                                        } else {
                                            assert(tree_leaves(cs@[i as int]).contains((x, v)));
                                        }
                                    }
                                }
                                assert forall|x: u64| #[trigger]
                                    self.children_map().contains_key(x) implies cm0.contains_key(x)
                                    || tree_nodes(whole).contains((x, self.children_map()[x])) by {
                                    if !cm0.contains_key(x) {
                                        let v = self.children_map()[x];
                                        if seq_tree_nodes(cs@.take(i as int)).contains((x, v)) {
                                        } else {
                                            assert(tree_nodes(cs@[i as int]).contains((x, v)));
                                        }
                                    }
                                }
                            }
                            return Err(e);
                        },
                    };
                    ids.push(cid.0.bits);
                    proof {
                        Self::lemma_grows_trans(*old(self), prev, *self);
                        crate::identity::lemma_child_ids_push(cs@.take(i as int), cs@[i as int]);
                        lemma_seq_tree_leaves_push(cs@.take(i as int), cs@[i as int]);
                        lemma_seq_tree_nodes_push(cs@.take(i as int), cs@[i as int]);
                        assert(cs@.take(i as int).push(cs@[i as int]) =~= cs@.take(i as int + 1));
                    }
                    i = i + 1;
                }
                proof {
                    assert(cs@.take(cs@.len() as int) =~= cs@);
                    assert(tree_leaves(whole) == seq_tree_leaves(cs@));
                    assert(tree_nodes(whole) == seq_tree_nodes(cs@).insert(
                        (hash_expr_spec(whole), child_ids_spec(cs@)),
                    ));
                }
                let eid = hash_node(&ids);
                proof {
                    assert(eid@ == hash_expr_spec(whole));
                }
                let ghost atexit = *self;
                if !self.eid_to_children.contains_key(&eid.0.bits) {
                    self.eid_to_children.insert(eid.0.bits, ids);
                    self.inner_eids.push(eid.0.bits);
                    proof {
                        assert(self.children_map() =~= atexit.children_map().insert(
                            eid@,
                            child_ids_spec(cs@),
                        ));
                        assert forall|e2: u64| #[trigger]
                            self.eid_to_children@.contains_key(e2) implies self.inner_eids@.contains(
                            e2,
                        ) by {
                            if e2 == eid@ {
                                assert(self.inner_eids@.last() == eid@);
                            } else {
                                assert(atexit.eid_to_children@.contains_key(e2));
                                let j = choose|j: int|
                                    0 <= j < atexit.inner_eids@.len() && atexit.inner_eids@[j]
                                        == e2;
                                assert(self.inner_eids@[j] == e2);
                            }
                        }
                    }
                }
                proof {
                    let top = (hash_expr_spec(whole), child_ids_spec(cs@));
                    assert(tree_nodes(whole).contains(top));
                    assert(self.children_map().contains_key(eid@));
                    assert forall|p: (u64, Seq<u64>)| #[trigger]
                        tree_nodes(whole).contains(p) implies self.children_map().contains_key(
                        p.0,
                    ) by {
                        if p != top {
                            assert(seq_tree_nodes(cs@).contains(p));
                        }
                    }
                    assert(nodes_ok(cm0, whole) ==> forall|p: (u64, Seq<u64>)| #[trigger]
                        tree_nodes(whole).contains(p) ==> self.children_map().contains_key(p.0)
                            && self.children_map()[p.0] == p.1) by {
                        if nodes_ok(cm0, whole) {
                            assert forall|p: (u64, Seq<u64>)| #[trigger]
                                tree_nodes(whole).contains(p) implies self.children_map().contains_key(
                                p.0,
                            ) && self.children_map()[p.0] == p.1 by {
                                if self.children_map()[eid@] != child_ids_spec(cs@) {
                                    // the top id was already bound when the loop finished:
                                    // by the frame it came from the store or from a child,
                                    // and either way consistency fixes its value
                                    let v = atexit.children_map()[eid@];
                                    assert(atexit.children_map().contains_key(eid@));
                                    if cm0.contains_key(eid@) {
                                        assert(cm0[eid@] == v);
                                        assert(v == child_ids_spec(cs@));
                                    } else {
                                        assert(seq_tree_nodes(cs@).contains((eid@, v)));
                                        assert(tree_nodes(whole).contains((eid@, v)));
                                        assert(v == child_ids_spec(cs@));
                                    }
                                    assert(false);
                                }
                                if p != top {
                                    assert(seq_tree_nodes(cs@).contains(p));
                                    if p.0 == eid@ {
                                        assert(p.1 == top.1);
                                    } else {
                                        assert(atexit.children_map()[p.0] == p.1);
                                    }
                                }
                            }
                        }
                    }
                    assert forall|p: (u64, u64)| #[trigger]
                        tree_leaves(whole).contains(p) implies self.resolution().contains_key(p.0)
                        && self.resolution()[p.0] == p.1 by {
                        assert(seq_tree_leaves(cs@).contains(p));
                    }
                }
                Ok(eid)
            },
        }
    }

    /// Install an expression tree at this site and broadcast a `Compute`
    /// carrying it to every peer, so the fleet learns the tree — once: a
    /// repeat of a tree this site already announced re-broadcasts nothing.
    /// Returns the top-level id, the same at every site that installs this
    /// tree.
    #[verifier::loop_isolation(false)]
    pub fn add_expr(&mut self, expr: Expr) -> (r: Result<ExprId, SiteError>)
        requires
            old(self).wf(),
        ensures
            final(self).wf(),
            Self::grows_to(*old(self), *final(self)),
            final(self).reasoner == old(self).reasoner,
            final(self).compute == old(self).compute,
            final(self).data_map() == old(self).data_map(),
            final(self).announced_dids == old(self).announced_dids,
            r is Ok ==> r->Ok_0@ == hash_expr_spec(expr),
            tree_ok(old(self).resolution(), expr) ==> r != Err::<ExprId, SiteError>(
                SiteError::ResolutionConflict,
            ),
            forall|x: u64| #[trigger]
                final(self).resolution().contains_key(x) ==> old(self).resolution().contains_key(x)
                    || tree_leaves(expr).contains((x, final(self).resolution()[x])),
            forall|x: u64| #[trigger]
                final(self).children_map().contains_key(x)
                    ==> old(self).children_map().contains_key(x) || tree_nodes(expr).contains(
                    (x, final(self).children_map()[x]),
                ),
            r is Ok ==> forall|p: (u64, u64)| #[trigger]
                tree_leaves(expr).contains(p) ==> final(self).resolution().contains_key(p.0)
                    && final(self).resolution()[p.0] == p.1,
            r is Ok ==> forall|p: (u64, Seq<u64>)| #[trigger]
                tree_nodes(expr).contains(p) ==> final(self).children_map().contains_key(p.0),
            r is Ok && nodes_ok(old(self).children_map(), expr) ==> forall|p: (u64, Seq<u64>)|
                #[trigger] tree_nodes(expr).contains(p) ==> final(self).children_map().contains_key(
                    p.0,
                ) && final(self).children_map()[p.0] == p.1,
            r is Ok ==> final(self).announced_eids@ == old(self).announced_eids@.insert(
                hash_expr_spec(expr),
            ),
            r is Ok ==> final(self).network.sent_spec() == old(self).network.sent_spec() + (if old(self).announced_eids@.contains(hash_expr_spec(expr)) {
                Seq::empty()
            } else {
                bcast_sends(
                    old(self).network.peers_spec(),
                    old(self).my_sid@,
                    MsgV::Compute { eid: hash_expr_spec(expr) },
                )
            }),
            r == Err::<ExprId, SiteError>(SiteError::ResolutionConflict) ==> final(self).network.sent_spec() == old(self).network.sent_spec() && final(self).announced_eids
                == old(self).announced_eids,
            r == Err::<ExprId, SiteError>(SiteError::Transport) ==> !old(self).announced_eids@.contains(hash_expr_spec(expr)) && final(self).announced_eids@ == old(self).announced_eids@.insert(hash_expr_spec(expr)) && exists|k: int|
                0 <= k < old(self).network.peers_spec().len() && old(self).network.peers_spec()[k]@
                    != old(self).my_sid@ && final(self).network.sent_spec() == old(self).network.sent_spec() + bcast_sends(
                    #[trigger] old(self).network.peers_spec().take(k),
                    old(self).my_sid@,
                    MsgV::Compute { eid: hash_expr_spec(expr) },
                ),
    {
        let eid = match self.add_replicated_expr(&expr) {
            Ok(eid) => eid,
            Err(e) => {
                self.logger.log_line("add_expr: install failed on a conflict");
                return Err(e);
            },
        };
        if self.announced_eids.contains(&eid.0.bits) {
            self.logger.log_line("add_expr: already announced; no re-broadcast");
            return Ok(eid);
        }
        self.announced_eids.insert(eid.0.bits);
        let msg = Msg::Compute { expr };
        let ghost mid = *self;
        let ghost sent0 = self.network.sent_spec();
        let ghost mv = msg_view(msg);
        let peers = self.network.peers();
        let mut i: usize = 0;
        while i < peers.len()
            invariant
                i <= peers@.len(),
                self.did_to_data == mid.did_to_data,
                self.eid_to_children == mid.eid_to_children,
                self.inner_eids == mid.inner_eids,
                self.did_to_eids == mid.did_to_eids,
                self.announced_dids == mid.announced_dids,
                self.announced_eids == mid.announced_eids,
                self.reasoner == mid.reasoner,
                self.compute == mid.compute,
                self.my_sid == mid.my_sid,
                self.network.peers_spec() == mid.network.peers_spec(),
                peers@ == mid.network.peers_spec(),
                self.network.sent_spec() == sent0 + bcast_sends(
                    peers@.take(i as int),
                    mid.my_sid@,
                    mv,
                ),
            decreases peers@.len() - i,
        {
            let p = peers[i];
            if p.0.bits != self.my_sid.0.bits {
                self.logger.log_line("add_expr: replicating expression to peer");
                match self.network.send_to(&msg, p) {
                    Ok(_) => {},
                    Err(_) => {
                        proof {
                            let k = i as int;
                            assert(mid.network.peers_spec()[k]@ != mid.my_sid@);
                            assert(self.network.sent_spec() == sent0 + bcast_sends(
                                mid.network.peers_spec().take(k),
                                mid.my_sid@,
                                mv,
                            ));
                        }
                        return Err(SiteError::Transport);
                    },
                }
            }
            proof {
                lemma_bcast_sends_push(
                    peers@.take(i as int),
                    peers@[i as int],
                    mid.my_sid@,
                    mv,
                );
                assert(peers@.take(i as int).push(peers@[i as int]) =~= peers@.take(i as int + 1));
            }
            i = i + 1;
        }
        proof {
            assert(peers@.take(peers@.len() as int) =~= peers@);
        }
        Ok(eid)
    }

    /// Apply one received message.  A `Copy` stores the blob if its id is
    /// the hash of its bytes and it is not yet held; a `DidToEid` asserts
    /// the resolution, fatally refusing a contradiction; a `Compute`
    /// installs the tree by the same procedure as a local `add_expr`, but
    /// with no re-broadcast.  A `Ref` to an unknown expression is kept
    /// as-is and is never an error.
    pub fn apply_msg(&mut self, msg: Msg) -> (r: Result<(), SiteError>)
        requires
            old(self).wf(),
        ensures
            final(self).wf(),
            Self::grows_to(*old(self), *final(self)),
            final(self).reasoner == old(self).reasoner,
            final(self).compute == old(self).compute,
            final(self).network == old(self).network,
            final(self).announced_dids == old(self).announced_dids,
            final(self).announced_eids == old(self).announced_eids,
            ({
                let pre = *old(self);
                let post = *final(self);
                match msg {
                    Msg::Copy { did, data } => {
                        &&& r is Ok
                        &&& post.resolution() == pre.resolution()
                        &&& post.children_map() == pre.children_map()
                        &&& post.data_map() == (if did@ == hash_data_spec(data@)
                            && !pre.data_map().contains_key(did@) {
                            pre.data_map().insert(did@, data@)
                        } else {
                            pre.data_map()
                        })
                    },
                    Msg::DidToEid { did, eid } => {
                        &&& post.data_map() == pre.data_map()
                        &&& post.children_map() == pre.children_map()
                        &&& (r is Ok) == (!pre.resolution().contains_key(eid@)
                            || pre.resolution()[eid@] == did@)
                        &&& (r is Ok ==> post.resolution() == pre.resolution().insert(eid@, did@))
                        &&& (r is Err ==> r == Err::<(), SiteError>(SiteError::ResolutionConflict)
                            && post.resolution() == pre.resolution())
                    },
                    Msg::Compute { expr } => {
                        &&& post.data_map() == pre.data_map()
                        &&& (tree_ok(pre.resolution(), expr) ==> r is Ok)
                        &&& (r is Err ==> r == Err::<(), SiteError>(SiteError::ResolutionConflict))
                        &&& forall|x: u64| #[trigger]
                            post.resolution().contains_key(x) ==> pre.resolution().contains_key(x)
                                || tree_leaves(expr).contains((x, post.resolution()[x]))
                        &&& forall|x: u64| #[trigger]
                            post.children_map().contains_key(x)
                                ==> pre.children_map().contains_key(x) || tree_nodes(
                                expr,
                            ).contains((x, post.children_map()[x]))
                        &&& (r is Ok ==> forall|p: (u64, u64)| #[trigger]
                            tree_leaves(expr).contains(p) ==> post.resolution().contains_key(p.0)
                                && post.resolution()[p.0] == p.1)
                        &&& (r is Ok ==> forall|p: (u64, Seq<u64>)| #[trigger]
                            tree_nodes(expr).contains(p) ==> post.children_map().contains_key(p.0))
                        &&& (r is Ok && nodes_ok(pre.children_map(), expr) ==> forall|
                            p: (u64, Seq<u64>),
                        |
                            #[trigger] tree_nodes(expr).contains(p)
                                ==> post.children_map().contains_key(p.0)
                                && post.children_map()[p.0] == p.1)
                    },
                }
            }),
    {
        match msg {
            Msg::Copy { did, data } => {
                let ghost dv = data@;
                let check = hash_data(&data);
                if check.0.bits == did.0.bits && !self.did_to_data.contains_key(&did.0.bits) {
                    self.logger.log_line("recv copy: storing blob");
                    self.did_to_data.insert(did.0.bits, data);
                    proof {
                        assert(self.data_map() =~= old(self).data_map().insert(did@, dv));
                    }
                } else {
                    self.logger.log_line("recv copy: already held or id mismatch; ignored");
                }
                Ok(())
            },
            Msg::DidToEid { did, eid } => {
                match self.did_to_eids.insert(did, eid) {
                    Ok(_) => {
                        self.logger.log_line("recv resolution: recorded");
                        Ok(())
                    },
                    Err(_) => {
                        self.logger.log_line("recv resolution: conflict");
                        Err(SiteError::ResolutionConflict)
                    },
                }
            },
            Msg::Compute { expr } => {
                self.logger.log_line("recv compute: installing expression");
                match self.add_replicated_expr(&expr) {
                    Ok(_) => Ok(()),
                    Err(e) => Err(e),
                }
            },
        }
    }

    /// One progress tick.  First the readiness search: scan the known inner
    /// expressions in traversal order for the first one that is unresolved,
    /// has every child's blob at hand, and is permitted here; compute it,
    /// publish the result through the full `add_data` procedure, record and
    /// broadcast the resolution, and stop.  If none qualifies, apply
    /// pending inbound messages — a bounded batch per tick, so that a tick
    /// always terminates; anything left waits for the next tick.  If the
    /// inbox was empty, report idleness: the caller should pause briefly
    /// before the next tick to avoid a busy loop.
    #[verifier::loop_isolation(false)]
    #[verifier::rlimit(50)]
    pub fn step(&mut self) -> (r: Result<StepOutcome, SiteError>)
        requires
            old(self).wf(),
        ensures
            final(self).wf(),
            Self::grows_to(*old(self), *final(self)),
            final(self).reasoner == old(self).reasoner,
            final(self).compute == old(self).compute,
            old(self).no_ready_before(old(self).inner_eids@.len() as int) ==> final(self).network.sent_spec() == old(self).network.sent_spec(),
            ({
                let pre = *old(self);
                let post = *final(self);
                match r {
                    Ok(StepOutcome::Computed { eid, did }) => {
                        let rb = pre.compute.compute_spec(pre.child_blobs(eid@));
                        let fresh = !pre.data_map().contains_key(did@)
                            && !pre.announced_dids@.contains(did@);
                        let res1 = if fresh {
                            Self::res_after_leaf(pre.resolution(), did@)
                        } else {
                            pre.resolution()
                        };
                        let assoc = assoc_of(res1, did@);
                        &&& exists|i: int|
                            0 <= i < pre.inner_eids@.len() && #[trigger] pre.inner_eids@[i] == eid@
                                && pre.no_ready_before(i)
                        &&& pre.ready_and_permitted(eid@)
                        &&& did@ == hash_data_spec(rb)
                        &&& post.resolution() == res1.insert(eid@, did@)
                        &&& post.children_map() == pre.children_map()
                        &&& post.announced_dids@ == (if fresh {
                            pre.announced_dids@.insert(did@)
                        } else {
                            pre.announced_dids@
                        })
                        &&& post.announced_eids@ == pre.announced_eids@
                        &&& post.data_map() == (if fresh && pre.reasoner.may_access_spec(
                            did@,
                            assoc,
                            pre.my_sid@,
                        ) {
                            pre.data_map().insert(did@, rb)
                        } else {
                            pre.data_map()
                        })
                        &&& post.network.sent_spec() == pre.network.sent_spec() + (if fresh {
                            copy_sends(
                                pre.reasoner,
                                pre.network.peers_spec(),
                                pre.my_sid@,
                                did@,
                                rb,
                                assoc,
                            )
                        } else {
                            Seq::empty()
                        }) + bcast_sends(
                            pre.network.peers_spec(),
                            pre.my_sid@,
                            MsgV::DidToEid { did: did@, eid: eid@ },
                        )
                    },
                    Ok(StepOutcome::Drained) => {
                        &&& pre.no_ready_before(pre.inner_eids@.len() as int)
                        &&& post.network.sent_spec() == pre.network.sent_spec()
                    },
                    Ok(StepOutcome::Idle) => {
                        &&& pre.no_ready_before(pre.inner_eids@.len() as int)
                        &&& post.data_map() == pre.data_map()
                        &&& post.children_map() == pre.children_map()
                        &&& post.resolution() == pre.resolution()
                        &&& post.announced_dids == pre.announced_dids
                        &&& post.announced_eids == pre.announced_eids
                        &&& post.network.sent_spec() == pre.network.sent_spec()
                    },
                    Err(e) => {
                        // either the drain hit a contradicting message with
                        // nothing computable, or publishing the first ready
                        // computation failed; each case says exactly where
                        ||| {
                            &&& pre.no_ready_before(pre.inner_eids@.len() as int)
                            &&& e == SiteError::ResolutionConflict
                            &&& post.network.sent_spec() == pre.network.sent_spec()
                        }
                        ||| exists|i: int|
                            {
                                let eid = #[trigger] pre.inner_eids@[i];
                                let rb = pre.compute.compute_spec(pre.child_blobs(eid));
                                let did = hash_data_spec(rb);
                                let fresh = !pre.data_map().contains_key(did)
                                    && !pre.announced_dids@.contains(did);
                                let res1 = if fresh {
                                    Self::res_after_leaf(pre.resolution(), did)
                                } else {
                                    pre.resolution()
                                };
                                let assoc = assoc_of(res1, did);
                                let peers = pre.network.peers_spec();
                                let my = pre.my_sid@;
                                &&& 0 <= i < pre.inner_eids@.len()
                                &&& pre.no_ready_before(i)
                                &&& pre.ready_and_permitted(eid)
                                &&& post.children_map() == pre.children_map()
                                &&& post.announced_eids@ == pre.announced_eids@
                                &&& if e == SiteError::ResolutionConflict {
                                    &&& fresh
                                    &&& Self::leaf_conflicts(pre.resolution(), did)
                                    &&& post.data_map() == pre.data_map()
                                    &&& post.resolution() == pre.resolution()
                                    &&& post.announced_dids@ == pre.announced_dids@
                                    &&& post.network.sent_spec() == pre.network.sent_spec()
                                } else {
                                    &&& e == SiteError::Transport
                                    &&& post.resolution() == res1
                                    &&& post.announced_dids@ == (if fresh {
                                        pre.announced_dids@.insert(did)
                                    } else {
                                        pre.announced_dids@
                                    })
                                    &&& post.data_map() == (if fresh
                                        && pre.reasoner.may_access_spec(did, assoc, my) {
                                        pre.data_map().insert(did, rb)
                                    } else {
                                        pre.data_map()
                                    })
                                    &&& ({
                                        ||| (fresh && exists|k: int|
                                            0 <= k < peers.len() && peers[k]@ != my
                                                && pre.reasoner.may_access_spec(
                                                did,
                                                assoc,
                                                peers[k]@,
                                            ) && post.network.sent_spec()
                                                == pre.network.sent_spec() + copy_sends(
                                                pre.reasoner,
                                                #[trigger] peers.take(k),
                                                my,
                                                did,
                                                rb,
                                                assoc,
                                            ))
                                        ||| (exists|k: int|
                                            0 <= k < peers.len() && peers[k]@ != my
                                                && post.network.sent_spec()
                                                == pre.network.sent_spec() + (if fresh {
                                                copy_sends(pre.reasoner, peers, my, did, rb, assoc)
                                            } else {
                                                Seq::empty()
                                            }) + bcast_sends(
                                                #[trigger] peers.take(k),
                                                my,
                                                MsgV::DidToEid { did, eid },
                                            ))
                                    })
                                }
                            }
                    },
                }
            }),
    {
        let ghost pre = *old(self);
        let mut i: usize = 0;
        while i < self.inner_eids.len()
            invariant
                i <= self.inner_eids@.len(),
                *self == pre,
                pre.no_ready_before(i as int),
            decreases self.inner_eids@.len() - i,
        {
            let e_bits = self.inner_eids[i];
            let eid = ExprId(crate::Id { bits: e_bits });
            if self.eid_to_did(&eid).is_some() {
                i = i + 1;
                continue ;
            }
            let kids: Vec<u64> = match self.eid_to_children.get(&e_bits) {
                Some(v) => clone_ids(v),
                None => {
                    proof {
                        assert(false);
                    }
                    Vec::new()
                },
            };
            let mut args: Vec<Vec<u8>> = Vec::new();
            let mut all = true;
            let mut k: usize = 0;
            let ghost mut badj: int = 0;
            while k < kids.len() && all
                invariant
                    k <= kids@.len(),
                    *self == pre,
                    kids@ == pre.children_map()[e_bits],
                    all ==> args@.len() == k,
                    all ==> forall|j: int|
                        0 <= j < k ==> pre.resolution().contains_key(#[trigger] kids@[j])
                            && pre.data_map().contains_key(pre.resolution()[kids@[j]]),
                    all ==> forall|j: int|
                        0 <= j < k ==> (#[trigger] args@[j])@ == pre.data_map()[pre.resolution()[kids@[j]]],
                    !all ==> 0 <= badj < kids@.len() && !(pre.resolution().contains_key(
                        kids@[badj],
                    ) && pre.data_map().contains_key(pre.resolution()[kids@[badj]])),
                decreases kids@.len() - k,
            {
                let cid = ExprId(crate::Id { bits: kids[k] });
                match self.did_to_eids.get_one(&cid) {
                    None => {
                        proof {
                            badj = k as int;
                        }
                        all = false;
                    },
                    Some(d) => {
                        match self.did_to_data.get(&d.0.bits) {
                            None => {
                                proof {
                                    badj = k as int;
                                }
                                all = false;
                            },
                            Some(b) => {
                                args.push(crate::clone_bytes(b));
                            },
                        }
                    },
                }
                k = k + 1;
            }
            if !all {
                proof {
                    assert(!pre.ready(e_bits));
                }
                i = i + 1;
                continue ;
            }
            if !self.reasoner.may_compute(eid, self.my_sid) {
                i = i + 1;
                continue ;
            }
            self.logger.log_line("step: computing ready expression");
            proof {
                assert(crate::blobs_view(args@) =~= pre.child_blobs(e_bits));
            }
            let rb = self.compute.compute(&args);
            let ghost witness_i = i as int;
            let did = match self.add_data(rb) {
                Ok(d) => d,
                Err(e) => {
                    return Err(e);
                },
            };
            let msg = Msg::DidToEid { did, eid };
            let ghost mid = *self;
            let ghost sent1 = self.network.sent_spec();
            let ghost mv = msg_view(msg);
            let peers = self.network.peers();
            let mut b: usize = 0;
            while b < peers.len()
                invariant
                    b <= peers@.len(),
                    self.did_to_data == mid.did_to_data,
                    self.eid_to_children == mid.eid_to_children,
                    self.inner_eids == mid.inner_eids,
                    self.did_to_eids == mid.did_to_eids,
                    self.announced_dids == mid.announced_dids,
                    self.announced_eids == mid.announced_eids,
                    self.reasoner == mid.reasoner,
                    self.compute == mid.compute,
                    self.my_sid == mid.my_sid,
                    self.network.peers_spec() == mid.network.peers_spec(),
                    peers@ == mid.network.peers_spec(),
                    self.network.sent_spec() == sent1 + bcast_sends(
                        peers@.take(b as int),
                        mid.my_sid@,
                        mv,
                    ),
                decreases peers@.len() - b,
            {
                let p = peers[b];
                if p.0.bits != self.my_sid.0.bits {
                    self.logger.log_line("step: announcing resolution to peer");
                    match self.network.send_to(&msg, p) {
                        Ok(_) => {},
                        Err(_) => {
                            proof {
                                let kk = b as int;
                                assert(mid.network.peers_spec()[kk]@ != mid.my_sid@);
                                assert(self.network.sent_spec() == sent1 + bcast_sends(
                                    mid.network.peers_spec().take(kk),
                                    mid.my_sid@,
                                    mv,
                                ));
                                lemma_prefix_concat(
                                    sent1,
                                    bcast_sends(peers@.take(kk), mid.my_sid@, mv),
                                );
                                lemma_prefix_trans(
                                    pre.network.sent_spec(),
                                    sent1,
                                    self.network.sent_spec(),
                                );
                            }
                            return Err(SiteError::Transport);
                        },
                    }
                }
                proof {
                    lemma_bcast_sends_push(
                        peers@.take(b as int),
                        peers@[b as int],
                        mid.my_sid@,
                        mv,
                    );
                    assert(peers@.take(b as int).push(peers@[b as int]) =~= peers@.take(
                        b as int + 1,
                    ));
                }
                b = b + 1;
            }
            proof {
                assert(peers@.take(peers@.len() as int) =~= peers@);
                lemma_prefix_concat(sent1, bcast_sends(peers@, mid.my_sid@, mv));
                lemma_prefix_trans(pre.network.sent_spec(), sent1, self.network.sent_spec());
            }
            match self.did_to_eids.insert(did, eid) {
                Ok(_) => {},
                Err(_) => {
                    proof {
                        assert(false);
                    }
                    return Err(SiteError::ResolutionConflict);
                },
            }
            self.logger.log_line("step: result published");
            return Ok(StepOutcome::Computed { eid, did });
        }
        let mut budget: usize = 64;
        let mut got = false;
        let mut empty = false;
        while budget > 0 && !empty
            invariant
                self.wf(),
                Self::grows_to(pre, *self),
                self.reasoner == pre.reasoner,
                self.compute == pre.compute,
                self.network.sent_spec() == pre.network.sent_spec(),
                !got ==> self.did_to_data == pre.did_to_data && self.eid_to_children
                    == pre.eid_to_children && self.inner_eids == pre.inner_eids
                    && self.did_to_eids == pre.did_to_eids && self.announced_dids
                    == pre.announced_dids && self.announced_eids == pre.announced_eids,
            decreases budget,
        {
            match self.network.try_recv() {
                Some(m) => {
                    got = true;
                    let ghost before = *self;
                    match self.apply_msg(m) {
                        Ok(_) => {},
                        Err(e) => {
                            proof {
                                Self::lemma_grows_trans(pre, before, *self);
                            }
                            return Err(e);
                        },
                    }
                    proof {
                        Self::lemma_grows_trans(pre, before, *self);
                    }
                },
                None => {
                    empty = true;
                },
            }
            budget = budget - 1;
        }
        if got {
            Ok(StepOutcome::Drained)
        } else {
            self.logger.log_line("step: nothing to do");
            Ok(StepOutcome::Idle)
        }
    }
}

/// Copy a list of ids, value for value.
fn clone_ids(v: &Vec<u64>) -> (r: Vec<u64>)
    ensures
        r@ == v@,
{
    let mut r: Vec<u64> = Vec::new();
    let mut i: usize = 0;
    while i < v.len()
        invariant
            i <= v.len(),
            r@ == v@.take(i as int),
        decreases v.len() - i,
    {
        r.push(v[i]);
        proof {
            assert(v@.take(i as int).push(v@[i as int]) =~= v@.take(i as int + 1));
        }
        i = i + 1;
    }
    proof {
        assert(v@.take(v@.len() as int) =~= v@);
    }
    r
}

} // verus!
