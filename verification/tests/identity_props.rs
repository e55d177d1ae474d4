use sitegraph::identity::hash_data;
use sitegraph::identity::hash_expr;
use sitegraph::identity::hash_leaf;
use sitegraph::identity::hash_node;
use sitegraph::compute_fn;
use sitegraph::logger::LoggerImpl;
use sitegraph::policy_reasoner::PolicyReasonerImpl;
use sitegraph::DataId;
use sitegraph::Expr;
use sitegraph::ExprId;
use sitegraph::Id;
use sitegraph::Logger;
use sitegraph::PolicyReasoner;
use sitegraph::SiteId;

fn sid(bits: u64) -> SiteId {
    SiteId(Id { bits })
}

#[test]
fn hash_data_is_deterministic() {
    let a = hash_data(&b"compute f".to_vec());
    let b = hash_data(&b"compute f".to_vec());
    assert_eq!(a, b);
    let c = hash_data(&b"arg a".to_vec());
    assert_ne!(a, c);
}

#[test]
fn hash_data_exact_values() {
    // FNV-1a over the tag byte alone, and over tag plus three bytes.
    assert_eq!(hash_data(&Vec::new()).0.bits, 0xaf63f94c86021dd3);
    assert_eq!(hash_data(&b"aaa".to_vec()).0.bits, 0xacca72732f6cc71c);
}

#[test]
fn hash_expr_matches_variants() {
    let did = hash_data(&b"aaa".to_vec());
    // A Ref is already an id.
    let some_eid = ExprId(Id { bits: 7 });
    assert_eq!(hash_expr(&Expr::Ref(some_eid)), some_eid);
    // A Leaf hashes its data id.
    assert_eq!(hash_expr(&Expr::Leaf(did)), hash_leaf(did));
    // A Node hashes its children's ids in order.
    let t = Expr::Node(vec![Expr::Leaf(did), Expr::Ref(some_eid)]);
    let kids = vec![hash_leaf(did).0.bits, some_eid.0.bits];
    assert_eq!(hash_expr(&t), hash_node(&kids));
    // Order matters.
    let t_rev = Expr::Node(vec![Expr::Ref(some_eid), Expr::Leaf(did)]);
    assert_ne!(hash_expr(&t), hash_expr(&t_rev));
}

#[test]
fn hash_expr_same_tree_same_id() {
    let did = hash_data(&b"arg a".to_vec());
    let make = || Expr::Node(vec![Expr::Leaf(did), Expr::Node(vec![Expr::Leaf(did)])]);
    assert_eq!(hash_expr(&make()), hash_expr(&make()));
    // Clones keep the id too.
    let t = make();
    assert_eq!(hash_expr(&t.clone()), hash_expr(&t));
}

#[test]
fn compute_fn_maps_lengths() {
    let args = vec![b"compute f".to_vec(), b"arg a".to_vec(), Vec::new()];
    assert_eq!(compute_fn(&args), vec![9u8, 5u8, 0u8]);
    let empty: Vec<Vec<u8>> = Vec::new();
    assert_eq!(compute_fn(&empty), Vec::<u8>::new());
}

#[test]
fn permissive_reasoner_allows_everything() {
    let r = PolicyReasonerImpl::permissive();
    let did = DataId(Id { bits: 1 });
    let eid = ExprId(Id { bits: 2 });
    assert!(r.may_access(did, &Vec::new(), sid(0)));
    assert!(r.may_compute(eid, sid(9)));
}

#[test]
fn rule_table_reasoner_gates_access_and_compute() {
    let did_a = DataId(Id { bits: 10 });
    let did_b = DataId(Id { bits: 11 });
    let eid_x = ExprId(Id { bits: 20 });
    let r = PolicyReasonerImpl::new(
        false,
        vec![sid(1)],                  // site 1 may hold anything
        vec![(sid(0), did_a)],         // site 0 may hold did_a
        vec![(sid(2), eid_x)],         // site 2 may hold what eid_x resolves to
        false,
        vec![(sid(1), eid_x)],         // only site 1 computes eid_x
    );
    assert!(r.may_access(did_a, &Vec::new(), sid(0)));
    assert!(!r.may_access(did_b, &Vec::new(), sid(0)));
    assert!(r.may_access(did_b, &Vec::new(), sid(1)));
    assert!(!r.may_access(did_b, &Vec::new(), sid(2)));
    assert!(r.may_access(did_b, &vec![eid_x], sid(2)));
    assert!(r.may_compute(eid_x, sid(1)));
    assert!(!r.may_compute(eid_x, sid(0)));
    assert!(!r.may_compute(ExprId(Id { bits: 21 }), sid(1)));
}

#[test]
fn logger_appends_lines() {
    let mut l = LoggerImpl::new();
    assert_eq!(l.len(), 0);
    l.log_line("one");
    l.log_line("two");
    assert_eq!(l.len(), 2);
}
