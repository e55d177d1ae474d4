//! The identity scheme: pure functions mapping byte blobs to `DataId`s and
//! expression trees to `ExprId`s.
//!
//! The hash is a 64-bit FNV-1a fold with a stable byte-for-byte definition,
//! so any two sites independently hashing the same value agree bit-for-bit,
//! across sites and across runs.  A leading or trailing tag byte keeps the
//! three id kinds from colliding with each other by construction of their
//! input streams.  Collision resistance is not a goal, only reproducibility.
use crate::DataId;
use crate::Expr;
use crate::ExprId;
use vstd::prelude::*;

verus! {

pub const FNV_OFFSET: u64 = 0xcbf2_9ce4_8422_2325;

pub const FNV_PRIME: u64 = 0x100_0000_01b3;

/// Tag byte fed before a blob's bytes when hashing data.
pub const DATA_TAG: u8 = 0x44;

/// Tag byte fed after the child ids when hashing an inner node.
pub const NODE_TAG: u8 = 0x49;

/// Tag byte fed after the data id when hashing a leaf expression.
pub const LEAF_TAG: u8 = 0x4C;

/// One FNV-1a round: xor the byte in, then multiply by the prime mod 2^64.
pub open spec fn fnv_step(h: u64, b: u8) -> u64 {
    vstd::wrapping::u64_specs::wrapping_mul(h ^ (b as u64), FNV_PRIME)
}

/// FNV-1a folded over `bytes`, starting from state `h`.
pub open spec fn fnv_from(h: u64, bytes: Seq<u8>) -> u64
    decreases bytes.len(),
{
    if bytes.len() == 0 {
        h
    } else {
        fnv_from(fnv_step(h, bytes[0]), bytes.drop_first())
    }
}

/// The hash of a byte stream: FNV-1a from the standard offset basis.
pub open spec fn fnv(bytes: Seq<u8>) -> u64 {
    fnv_from(FNV_OFFSET, bytes)
}

/// `hash_data(bytes)` is the hash of the data tag followed by the bytes.
pub open spec fn hash_data_spec(bytes: Seq<u8>) -> u64 {
    fnv(seq![DATA_TAG] + bytes)
}

/// `hash_leaf(did)` is the hash of the id's eight little-endian bytes
/// followed by the leaf tag.
pub open spec fn hash_leaf_spec(did: u64) -> u64 {
    fnv(vstd::bytes::spec_u64_to_le_bytes(did) + seq![LEAF_TAG])
}

/// The byte stream of an inner node: each child id in order, little-endian.
pub open spec fn node_bytes(eids: Seq<u64>) -> Seq<u8>
    decreases eids.len(),
{
    if eids.len() == 0 {
        Seq::empty()
    } else {
        vstd::bytes::spec_u64_to_le_bytes(eids[0]) + node_bytes(eids.drop_first())
    }
}

/// `hash_node(child_eids)` is the hash of the children's id bytes in order
/// followed by the node tag.
pub open spec fn hash_node_spec(eids: Seq<u64>) -> u64 {
    fnv(node_bytes(eids) + seq![NODE_TAG])
}

/// The id of a whole expression tree: a `Ref` is already an id, a `Leaf`
/// hashes its data id, a `Node` hashes its children's ids in order.
pub open spec fn hash_expr_spec(e: Expr) -> u64
    decreases e, 1int,
{
    match e {
        Expr::Ref(eid) => eid@,
        Expr::Leaf(did) => hash_leaf_spec(did@),
        Expr::Node(cs) => hash_node_spec(child_ids_spec(cs@)),
    }
}

/// The ids of a sequence of subtrees, in order.
pub open spec fn child_ids_spec(cs: Seq<Expr>) -> Seq<u64>
    decreases cs, 0int,
{
    if cs.len() == 0 {
        Seq::empty()
    } else {
        seq![hash_expr_spec(cs[0])] + child_ids_spec(cs.drop_first())
    }
}

/// Folding one more byte onto the end of the stream is one more round.
pub proof fn lemma_fnv_from_push(h: u64, s: Seq<u8>, b: u8)
    ensures
        fnv_from(h, s.push(b)) == fnv_step(fnv_from(h, s), b),
    decreases s.len(),
{
    if s.len() == 0 {
        assert(s.push(b)[0] == b);
        assert(s.push(b).drop_first() =~= Seq::<u8>::empty());
        assert(fnv_from(h, s.push(b)) == fnv_from(fnv_step(h, b), s.push(b).drop_first()));
        assert(fnv_from(fnv_step(h, b), Seq::<u8>::empty()) == fnv_step(h, b));
        assert(fnv_from(h, s) == h);
    } else {
        assert(s.push(b)[0] == s[0]);
        assert(s.push(b).drop_first() =~= s.drop_first().push(b));
        lemma_fnv_from_push(fnv_step(h, s[0]), s.drop_first(), b);
    }
}

/// The raw FNV-1a fold over a byte buffer.
fn fnv_bytes(bytes: &Vec<u8>) -> (h: u64)
    ensures
        h == fnv(bytes@),
{
    let mut h: u64 = FNV_OFFSET;
    let mut i: usize = 0;
    while i < bytes.len()
        invariant
            i <= bytes.len(),
            h == fnv_from(FNV_OFFSET, bytes@.take(i as int)),
        decreases bytes.len() - i,
    {
        proof {
            lemma_fnv_from_push(FNV_OFFSET, bytes@.take(i as int), bytes@[i as int]);
            assert(bytes@.take(i as int).push(bytes@[i as int]) =~= bytes@.take(i as int + 1));
        }
        h = (h ^ (bytes[i] as u64)).wrapping_mul(FNV_PRIME);
        i = i + 1;
    }
    proof {
        assert(bytes@.take(bytes@.len() as int) =~= bytes@);
    }
    h
}

/// The content hash of a blob.  Deterministic: equal bytes give the equal
/// `DataId` at every site and in every run.
pub fn hash_data(bytes: &Vec<u8>) -> (r: DataId)
    ensures
        r@ == hash_data_spec(bytes@),
{
    let mut buf: Vec<u8> = Vec::new();
    buf.push(DATA_TAG);
    let mut i: usize = 0;
    while i < bytes.len()
        invariant
            i <= bytes.len(),
            buf@ == seq![DATA_TAG] + bytes@.take(i as int),
        decreases bytes.len() - i,
    {
        buf.push(bytes[i]);
        proof {
            assert(seq![DATA_TAG] + bytes@.take(i as int + 1) =~= (seq![DATA_TAG] + bytes@.take(
                i as int,
            )).push(bytes@[i as int]));
        }
        i = i + 1;
    }
    proof {
        assert(bytes@.take(bytes@.len() as int) =~= bytes@);
    }
    let bits = fnv_bytes(&buf);
    DataId(crate::Id { bits })
}

/// The id of the `Leaf` expression for a blob already identified by `did`.
pub fn hash_leaf(did: DataId) -> (r: ExprId)
    ensures
        r@ == hash_leaf_spec(did@),
{
    let mut buf = vstd::bytes::u64_to_le_bytes(did.0.bits);
    buf.push(LEAF_TAG);
    proof {
        assert(buf@ =~= vstd::bytes::spec_u64_to_le_bytes(did@) + seq![LEAF_TAG]);
    }
    let bits = fnv_bytes(&buf);
    ExprId(crate::Id { bits })
}

/// The id of an inner node with the given child expression ids, in order.
pub fn hash_node(child_eids: &Vec<u64>) -> (r: ExprId)
    ensures
        r@ == hash_node_spec(child_eids@),
{
    let mut buf: Vec<u8> = Vec::new();
    let mut i: usize = 0;
    while i < child_eids.len()
        invariant
            i <= child_eids.len(),
            buf@ == node_bytes(child_eids@.take(i as int)),
        decreases child_eids.len() - i,
    {
        let le = vstd::bytes::u64_to_le_bytes(child_eids[i]);
        let mut j: usize = 0;
        while j < le.len()
            invariant
                j <= le.len(),
                buf@ == node_bytes(child_eids@.take(i as int)) + le@.take(j as int),
                le@ == vstd::bytes::spec_u64_to_le_bytes(child_eids@[i as int]),
                i < child_eids.len(),
            decreases le.len() - j,
        {
            buf.push(le[j]);
            proof {
                assert(node_bytes(child_eids@.take(i as int)) + le@.take(j as int + 1)
                    =~= (node_bytes(child_eids@.take(i as int)) + le@.take(j as int)).push(
                    le@[j as int],
                ));
            }
            j = j + 1;
        }
        proof {
            assert(le@.take(le@.len() as int) =~= le@);
            lemma_node_bytes_push(child_eids@.take(i as int), child_eids@[i as int]);
            assert(child_eids@.take(i as int).push(child_eids@[i as int]) =~= child_eids@.take(
                i as int + 1,
            ));
        }
        i = i + 1;
    }
    proof {
        assert(child_eids@.take(child_eids@.len() as int) =~= child_eids@);
    }
    buf.push(NODE_TAG);
    proof {
        assert(buf@ =~= node_bytes(child_eids@) + seq![NODE_TAG]);
    }
    let bits = fnv_bytes(&buf);
    ExprId(crate::Id { bits })
}

/// Appending one id to a node's child list appends its eight bytes.
pub proof fn lemma_node_bytes_push(eids: Seq<u64>, e: u64)
    ensures
        node_bytes(eids.push(e)) == node_bytes(eids) + vstd::bytes::spec_u64_to_le_bytes(e),
    decreases eids.len(),
{
    if eids.len() == 0 {
        let p = eids.push(e);
        assert(p[0] == e);
        assert(p.drop_first() =~= Seq::<u64>::empty());
        assert(node_bytes(p.drop_first()) =~= Seq::<u8>::empty());
        assert(node_bytes(p) =~= vstd::bytes::spec_u64_to_le_bytes(e));
        assert(node_bytes(eids) =~= Seq::<u8>::empty());
        assert(node_bytes(eids) + vstd::bytes::spec_u64_to_le_bytes(e)
            =~= vstd::bytes::spec_u64_to_le_bytes(e));
    } else {
        assert(eids.push(e)[0] == eids[0]);
        assert(eids.push(e).drop_first() =~= eids.drop_first().push(e));
        lemma_node_bytes_push(eids.drop_first(), e);
        assert(node_bytes(eids.push(e)) =~= node_bytes(eids) + vstd::bytes::spec_u64_to_le_bytes(
            e,
        ));
    }
}

/// The id of a whole expression tree, by the same recursive scheme every
/// site uses: equal trees give equal ids everywhere.
pub fn hash_expr(e: &Expr) -> (r: ExprId)
    ensures
        r@ == hash_expr_spec(*e),
    decreases *e,
{
    match e {
        Expr::Ref(eid) => *eid,
        Expr::Leaf(did) => hash_leaf(*did),
        Expr::Node(cs) => {
            let mut ids: Vec<u64> = Vec::new();
            let mut i: usize = 0;
            while i < cs.len()
                invariant
                    i <= cs.len(),
                    ids@ == child_ids_spec(cs@.take(i as int)),
                    *e == Expr::Node(*cs),
                decreases cs.len() - i,
            {
                proof {
                    assert(e->Node_0 == *cs);
                    assert(decreases_to!(*e => e->Node_0));
                    assert(decreases_to!(*cs => cs@));
                    assert(decreases_to!(cs@ => cs@[i as int]));
                }
                let cid = hash_expr(&cs[i]);
                ids.push(cid.0.bits);
                proof {
                    lemma_child_ids_push(cs@.take(i as int), cs@[i as int]);
                    assert(cs@.take(i as int).push(cs@[i as int]) =~= cs@.take(i as int + 1));
                }
                i = i + 1;
            }
            proof {
                assert(cs@.take(cs@.len() as int) =~= cs@);
            }
            hash_node(&ids)
        },
    }
}

/// Structural sharing: any two sites that install the same expression tree
/// derive the same top-level id, because the id is a function of the tree
/// alone and of nothing at either site.
pub proof fn lemma_structural_sharing(e1: ExprId, e2: ExprId, t: Expr)
    requires
        e1@ == hash_expr_spec(t),
        e2@ == hash_expr_spec(t),
    ensures
        e1 == e2,
{
    assert(e1.0 == e2.0);
}

/// A child list's id sequence has one id per subtree, in order.
pub proof fn lemma_child_ids_index(cs: Seq<Expr>)
    ensures
        child_ids_spec(cs).len() == cs.len(),
        forall|i: int|
            0 <= i < cs.len() ==> #[trigger] child_ids_spec(cs)[i] == hash_expr_spec(cs[i]),
    decreases cs.len(),
{
    if cs.len() > 0 {
        lemma_child_ids_index(cs.drop_first());
        assert forall|i: int| 0 <= i < cs.len() implies #[trigger] child_ids_spec(cs)[i]
            == hash_expr_spec(cs[i]) by {
            if i > 0 {
                assert(child_ids_spec(cs)[i] == child_ids_spec(cs.drop_first())[i - 1]);
                assert(cs.drop_first()[i - 1] == cs[i]);
            }
        }
    }
}

/// Appending one subtree to a child list appends its id.
pub proof fn lemma_child_ids_push(cs: Seq<Expr>, c: Expr)
    ensures
        child_ids_spec(cs.push(c)) == child_ids_spec(cs).push(hash_expr_spec(c)),
    decreases cs.len(),
{
    if cs.len() == 0 {
        let p = cs.push(c);
        assert(p[0] == c);
        assert(p.drop_first() =~= Seq::<Expr>::empty());
        assert(child_ids_spec(p.drop_first()) =~= Seq::<u64>::empty());
        assert(child_ids_spec(p) =~= seq![hash_expr_spec(c)]);
        assert(child_ids_spec(cs) =~= Seq::<u64>::empty());
        assert(child_ids_spec(cs).push(hash_expr_spec(c)) =~= seq![hash_expr_spec(c)]);
    } else {
        assert(cs.push(c)[0] == cs[0]);
        assert(cs.push(c).drop_first() =~= cs.drop_first().push(c));
        lemma_child_ids_push(cs.drop_first(), c);
        assert(child_ids_spec(cs.push(c)) =~= child_ids_spec(cs).push(hash_expr_spec(c)));
    }
}

} // verus!
