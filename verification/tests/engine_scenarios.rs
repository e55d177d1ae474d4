use crossbeam_channel::Receiver;
use crossbeam_channel::Sender;
use sitegraph::compute_fn;
use sitegraph::identity::hash_data;
use sitegraph::identity::hash_expr;
use sitegraph::identity::hash_leaf;
use sitegraph::logger::LoggerImpl;
use sitegraph::network::NetworkImpl;
use sitegraph::policy_reasoner::PolicyReasonerImpl;
use sitegraph::site::Site;
use sitegraph::ComputeFnImpl;
use sitegraph::Expr;
use sitegraph::Id;
use sitegraph::Msg;
use sitegraph::SiteError;
use sitegraph::SiteId;
use sitegraph::StepOutcome;

type Engine = Site<PolicyReasonerImpl, LoggerImpl, NetworkImpl, ComputeFnImpl>;

fn sid(bits: u64) -> SiteId {
    SiteId(Id { bits })
}

/// Three fully connected sites (0, 1, 2), each with its own reasoner.
fn fleet(mk_reasoner: impl Fn() -> PolicyReasonerImpl) -> Vec<Engine> {
    let sids: Vec<SiteId> = (0..3).map(sid).collect();
    let mut senders: Vec<Sender<Msg>> = Vec::new();
    let mut receivers: Vec<Receiver<Msg>> = Vec::new();
    for _ in 0..3 {
        let (s, r) = crossbeam_channel::unbounded();
        senders.push(s);
        receivers.push(r);
    }
    let mut sites = Vec::new();
    for (i, r) in receivers.into_iter().enumerate() {
        let outboxes: Vec<(SiteId, Sender<Msg>)> =
            sids.iter().cloned().zip(senders.iter().cloned()).collect();
        let net = NetworkImpl::new(outboxes, r);
        sites.push(Site::new(mk_reasoner(), LoggerImpl::new(), net, ComputeFnImpl, sids[i]));
    }
    sites
}

fn run(sites: &mut Vec<Engine>, rounds: usize) {
    for _ in 0..rounds {
        for s in sites.iter_mut() {
            s.step().unwrap();
        }
    }
}

#[test]
fn s1_permissive_fan_in() {
    let mut sites = fleet(PolicyReasonerImpl::permissive);
    let f = b"compute f".to_vec();
    let a = b"arg a".to_vec();
    let did_f = hash_data(&f);
    let did_a = hash_data(&a);
    let expr = Expr::Node(vec![Expr::Leaf(did_f), Expr::Leaf(did_a)]);
    let eid_fa = hash_expr(&expr);
    sites[0].add_data(a.clone()).unwrap();
    sites[1].add_data(f.clone()).unwrap();
    sites[2].add_expr(expr).unwrap();
    run(&mut sites, 10);
    let result = hash_data(&compute_fn(&vec![f, a]));
    for s in sites.iter() {
        assert!(s.has_blob(&did_f));
        assert!(s.has_blob(&did_a));
        assert_eq!(s.eid_to_did(&eid_fa), Some(result));
        assert!(s.has_blob(&result));
    }
}

#[test]
fn s2_placement_restriction() {
    let f = b"compute f".to_vec();
    let a = b"arg a".to_vec();
    let did_f = hash_data(&f);
    let did_a = hash_data(&a);
    let expr = Expr::Node(vec![Expr::Leaf(did_f), Expr::Leaf(did_a)]);
    let eid_fa = hash_expr(&expr);
    let mk = move || {
        PolicyReasonerImpl::new(true, vec![], vec![], vec![], false, vec![(sid(1), eid_fa)])
    };
    let mut sites = fleet(mk);
    sites[0].add_data(a.clone()).unwrap();
    sites[1].add_data(f.clone()).unwrap();
    sites[2].add_expr(expr).unwrap();
    for _ in 0..10 {
        for (i, s) in sites.iter_mut().enumerate() {
            let o = s.step().unwrap();
            if let StepOutcome::Computed { .. } = o {
                // only the permitted site ever computes
                assert_eq!(i, 1);
            }
        }
    }
    let result = hash_data(&compute_fn(&vec![f, a]));
    for s in sites.iter() {
        assert_eq!(s.eid_to_did(&eid_fa), Some(result));
        assert!(s.has_blob(&result));
    }
}

#[test]
fn s3_access_restriction() {
    let f = b"compute f".to_vec();
    let a = b"arg a".to_vec();
    let did_f = hash_data(&f);
    let did_a = hash_data(&a);
    let expr = Expr::Node(vec![Expr::Leaf(did_f), Expr::Leaf(did_a)]);
    let eid_fa = hash_expr(&expr);
    let mk = move || {
        PolicyReasonerImpl::new(
            false,
            vec![sid(1)],                              // site 1 may hold anything
            vec![(sid(0), did_a), (sid(2), did_a)],    // sites 0 and 2 only the argument
            vec![],
            false,
            vec![(sid(1), eid_fa)],                    // only site 1 computes
        )
    };
    let mut sites = fleet(mk);
    sites[0].add_data(a.clone()).unwrap();
    sites[1].add_data(f.clone()).unwrap();
    sites[2].add_expr(expr).unwrap();
    run(&mut sites, 10);
    let result = hash_data(&compute_fn(&vec![f, a]));
    for s in sites.iter() {
        assert_eq!(s.eid_to_did(&eid_fa), Some(result));
    }
    assert!(!sites[0].has_blob(&result));
    assert!(sites[1].has_blob(&result));
    assert!(!sites[2].has_blob(&result));
}

#[test]
fn s4_late_arriving_data() {
    let mut sites = fleet(PolicyReasonerImpl::permissive);
    let a = b"arg a".to_vec();
    let did_a = hash_data(&a);
    let expr = Expr::Node(vec![Expr::Leaf(did_a)]);
    let eid = hash_expr(&expr);
    sites[2].add_expr(expr).unwrap();
    run(&mut sites, 3);
    // the expression sits unresolvable until the data arrives
    assert_eq!(sites[2].eid_to_did(&eid), None);
    sites[0].add_data(a.clone()).unwrap();
    run(&mut sites, 10);
    let result = hash_data(&compute_fn(&vec![a]));
    for s in sites.iter() {
        assert_eq!(s.eid_to_did(&eid), Some(result));
    }
}

#[test]
fn s5_idempotent_re_add() {
    // One site, one real peer, and one observer tap on the fabric.
    let (s0, r0) = crossbeam_channel::unbounded::<Msg>();
    let (s1, r1) = crossbeam_channel::unbounded::<Msg>();
    let (s9, r9) = crossbeam_channel::unbounded::<Msg>();
    let _keep = s0;
    let outboxes = vec![(sid(1), s1), (sid(9), s9)];
    let net = NetworkImpl::new(outboxes, r0);
    let mut amy = Site::new(
        PolicyReasonerImpl::permissive(),
        LoggerImpl::new(),
        net,
        ComputeFnImpl,
        sid(0),
    );
    let b = b"aaa".to_vec();
    let d1 = amy.add_data(b.clone()).unwrap();
    let d2 = amy.add_data(b.clone()).unwrap();
    assert_eq!(d1, d2);
    // exactly one Copy per admitted peer in total: the second add sent nothing
    for r in [r1, r9] {
        match r.try_recv() {
            Ok(Msg::Copy { did, data }) => {
                assert_eq!(did, d1);
                assert_eq!(data, b);
            },
            other => panic!("expected one copy, got {:?}", other),
        }
        assert!(r.try_recv().is_err());
    }
}

#[test]
fn s6_duplicate_structural_expressions() {
    let mut sites = fleet(PolicyReasonerImpl::permissive);
    let f = b"compute f".to_vec();
    let a = b"arg a".to_vec();
    let did_f = hash_data(&f);
    let did_a = hash_data(&a);
    sites[0].add_data(f.clone()).unwrap();
    sites[0].add_data(a.clone()).unwrap();
    let make = || Expr::Node(vec![Expr::Leaf(did_f), Expr::Leaf(did_a)]);
    let e1 = sites[0].add_expr(make()).unwrap();
    let e2 = sites[1].add_expr(make()).unwrap();
    assert_eq!(e1, e2);
    run(&mut sites, 10);
    let result = hash_data(&compute_fn(&vec![f, a]));
    for s in sites.iter() {
        assert_eq!(s.eid_to_did(&e1), Some(result));
    }
}

#[test]
fn r1_leaf_resolves_immediately() {
    let mut sites = fleet(PolicyReasonerImpl::permissive);
    let a = b"arg a".to_vec();
    let did_a = hash_data(&a);
    sites[0].add_data(a.clone()).unwrap();
    // the leaf expression is resolved at the inserting site at once
    assert_eq!(sites[0].eid_to_did(&hash_leaf(did_a)), Some(did_a));
    // a site that already holds the blob resolves the leaf as soon as it
    // installs the expression
    run(&mut sites, 1);
    assert!(sites[1].has_blob(&did_a));
    sites[1].add_expr(Expr::Leaf(did_a)).unwrap();
    assert_eq!(sites[1].eid_to_did(&hash_leaf(did_a)), Some(did_a));
}

#[test]
fn r2_unknown_ref_is_not_an_error() {
    let mut sites = fleet(PolicyReasonerImpl::permissive);
    let a = b"arg a".to_vec();
    let did_a = hash_data(&a);
    let leaf_eid = hash_leaf(did_a);
    let parent = Expr::Node(vec![Expr::Ref(leaf_eid)]);
    let parent_eid = hash_expr(&parent);
    // a received Compute naming an unknown eid is applied without error
    sites[0].apply_msg(Msg::Compute { expr: parent }).unwrap();
    assert_eq!(sites[0].eid_to_did(&parent_eid), None);
    run(&mut sites, 2);
    assert_eq!(sites[0].eid_to_did(&parent_eid), None);
    // once the eid becomes known locally, the stalled parent completes
    sites[0].add_data(a.clone()).unwrap();
    run(&mut sites, 5);
    let result = hash_data(&compute_fn(&vec![a]));
    assert_eq!(sites[0].eid_to_did(&parent_eid), Some(result));
    assert!(sites[0].has_blob(&result));
}

#[test]
fn conflicting_resolution_is_fatal() {
    let mut sites = fleet(PolicyReasonerImpl::permissive);
    let e = sitegraph::ExprId(Id { bits: 42 });
    let d1 = sitegraph::DataId(Id { bits: 1 });
    let d2 = sitegraph::DataId(Id { bits: 2 });
    assert_eq!(sites[0].apply_msg(Msg::DidToEid { did: d1, eid: e }), Ok(()));
    // re-asserting the same resolution is fine
    assert_eq!(sites[0].apply_msg(Msg::DidToEid { did: d1, eid: e }), Ok(()));
    // contradicting it is fatal
    assert_eq!(
        sites[0].apply_msg(Msg::DidToEid { did: d2, eid: e }),
        Err(SiteError::ResolutionConflict)
    );
    // and the store is unchanged
    assert_eq!(sites[0].eid_to_did(&e), Some(d1));
}

#[test]
fn dead_transport_is_fatal() {
    let (s0, r0) = crossbeam_channel::unbounded::<Msg>();
    let (s1, r1) = crossbeam_channel::unbounded::<Msg>();
    let _keep = s0;
    drop(r1);
    let net = NetworkImpl::new(vec![(sid(1), s1)], r0);
    let mut amy = Site::new(
        PolicyReasonerImpl::permissive(),
        LoggerImpl::new(),
        net,
        ComputeFnImpl,
        sid(0),
    );
    assert_eq!(amy.add_data(b"x".to_vec()), Err(SiteError::Transport));
}

#[test]
fn idle_step_reports_idleness() {
    let mut sites = fleet(PolicyReasonerImpl::permissive);
    let r = sites[0].step().unwrap();
    assert!(matches!(r, StepOutcome::Idle));
}

#[test]
fn add_expr_repeated_gives_same_id() {
    let mut sites = fleet(PolicyReasonerImpl::permissive);
    let a = b"arg a".to_vec();
    let did_a = hash_data(&a);
    sites[0].add_data(a.clone()).unwrap();
    let make = || Expr::Node(vec![Expr::Leaf(did_a), Expr::Leaf(did_a)]);
    let e1 = sites[0].add_expr(make()).unwrap();
    let e2 = sites[0].add_expr(make()).unwrap();
    assert_eq!(e1, e2);
    run(&mut sites, 10);
    let result = hash_data(&compute_fn(&vec![a.clone(), a]));
    for s in sites.iter() {
        assert_eq!(s.eid_to_did(&e1), Some(result));
    }
}

#[test]
fn re_add_after_local_denial_sends_nothing() {
    // The site itself may not hold the blob, but a peer may: the first add
    // broadcasts one copy; a repeat of the same bytes broadcasts nothing.
    let (s0, r0) = crossbeam_channel::unbounded::<Msg>();
    let (s1, r1) = crossbeam_channel::unbounded::<Msg>();
    let _keep = s0;
    let b = b"aaa".to_vec();
    let did = hash_data(&b);
    let mk = PolicyReasonerImpl::new(
        false,
        vec![sid(1)],   // only the peer may hold anything
        vec![],
        vec![],
        false,
        vec![],
    );
    let net = NetworkImpl::new(vec![(sid(1), s1)], r0);
    let mut amy = Site::new(mk, LoggerImpl::new(), net, ComputeFnImpl, sid(0));
    let d1 = amy.add_data(b.clone()).unwrap();
    assert_eq!(d1, did);
    assert!(!amy.has_blob(&did));
    let d2 = amy.add_data(b.clone()).unwrap();
    assert_eq!(d2, did);
    // exactly one Copy in total, from the first call
    assert!(matches!(r1.try_recv(), Ok(Msg::Copy { .. })));
    assert!(r1.try_recv().is_err());
}

#[test]
fn re_add_expr_broadcasts_once() {
    let (s0, r0) = crossbeam_channel::unbounded::<Msg>();
    let (s1, r1) = crossbeam_channel::unbounded::<Msg>();
    let _keep = s0;
    let net = NetworkImpl::new(vec![(sid(1), s1)], r0);
    let mut amy = Site::new(
        PolicyReasonerImpl::permissive(),
        LoggerImpl::new(),
        net,
        ComputeFnImpl,
        sid(0),
    );
    let did = hash_data(&b"aaa".to_vec());
    let make = || Expr::Node(vec![Expr::Leaf(did)]);
    let e1 = amy.add_expr(make()).unwrap();
    let e2 = amy.add_expr(make()).unwrap();
    assert_eq!(e1, e2);
    // exactly one Compute in total, from the first call
    assert!(matches!(r1.try_recv(), Ok(Msg::Compute { .. })));
    assert!(r1.try_recv().is_err());
}
