use lockbud::callgraph::CallEdge;
use lockbud::callgraph::CallGraph;
use lockbud::detect::DeadlockDetector;
use lockbud::detect::Possibility;
use lockbud::detect::Report;
use lockbud::model::alias_tier;
use lockbud::model::AliasTier;
use lockbud::model::GuardKind;
use lockbud::model::Instance;
use lockbud::model::LockGuardOp;
use lockbud::model::LockId;
use lockbud::model::OpKind;
use lockbud::model::SourceLoc;
use lockbud::model::Stmt;
use lockbud::paths::AnalysisError;
use lockbud::report_stats;
use lockbud::CrateNameList;
use lockbud::DetectorKind;
use lockbud::LockBudCallbacks;
use lockbud::Options;

fn loc(line: u64) -> SourceLoc {
    SourceLoc { file: 1, line, column: 1 }
}

fn acquire(site: u64, kind: GuardKind, line: u64) -> Stmt {
    Stmt::Guard {
        op: LockGuardOp {
            op: OpKind::Acquire,
            guard: kind,
            lock: LockId::StaticSite { site },
            loc: loc(line),
        },
    }
}

fn acquire_id(lock: LockId, kind: GuardKind, line: u64) -> Stmt {
    Stmt::Guard {
        op: LockGuardOp { op: OpKind::Acquire, guard: kind, lock, loc: loc(line) },
    }
}

fn release(line: u64) -> Stmt {
    Stmt::Guard {
        op: LockGuardOp {
            op: OpKind::Release,
            guard: GuardKind::Exclusive,
            lock: LockId::StaticSite { site: 0 },
            loc: loc(line),
        },
    }
}

fn inst(def: u64, sig: u64, body: Vec<Stmt>) -> Instance {
    Instance { def, substs: 0, sig, body }
}

fn run(instances: &Vec<Instance>) -> Vec<Report> {
    let graph = CallGraph::build(instances);
    let roots: Vec<usize> = (0..instances.len()).collect();
    let detector = DeadlockDetector::new(4);
    detector.detect(&graph, instances, &roots).unwrap()
}

#[test]
fn double_lock_across_call_probably() {
    let instances = vec![
        inst(
            1,
            10,
            vec![
                acquire(7, GuardKind::Exclusive, 1),
                Stmt::CallDirect { def: 2, substs: 0 },
                release(3),
            ],
        ),
        inst(2, 11, vec![acquire(7, GuardKind::Exclusive, 4), release(5)]),
    ];
    let reports = run(&instances);
    assert_eq!(reports.len(), 1);
    match &reports[0] {
        Report::DoubleLock(d) => {
            assert_eq!(d.possibility, Possibility::Probably);
            assert_eq!(d.first.line, 1);
            assert_eq!(d.second.line, 4);
            assert_eq!(d.root, 0);
        }
        _ => panic!("expected a double-lock report"),
    }
}

#[test]
fn reentrant_double_acquire_reported_possibly() {
    let instances = vec![inst(
        1,
        10,
        vec![
            acquire(5, GuardKind::Reentrant, 1),
            acquire(5, GuardKind::Reentrant, 2),
        ],
    )];
    let reports = run(&instances);
    assert_eq!(reports.len(), 1);
    match &reports[0] {
        Report::DoubleLock(d) => {
            assert_eq!(d.possibility, Possibility::Possibly);
        }
        _ => panic!("expected a double-lock report"),
    }
}

#[test]
fn shared_read_double_acquire_possibly() {
    let instances = vec![inst(
        1,
        10,
        vec![
            acquire(5, GuardKind::SharedRead, 1),
            acquire(5, GuardKind::SharedRead, 2),
        ],
    )];
    let reports = run(&instances);
    assert_eq!(reports.len(), 1);
    match &reports[0] {
        Report::DoubleLock(d) => assert_eq!(d.possibility, Possibility::Possibly),
        _ => panic!("expected a double-lock report"),
    }
}

#[test]
fn heap_indirect_double_acquire_possibly() {
    let instances = vec![inst(
        1,
        10,
        vec![
            acquire_id(LockId::HeapIndirect { token: 1 }, GuardKind::Exclusive, 1),
            acquire_id(LockId::HeapIndirect { token: 2 }, GuardKind::Exclusive, 2),
        ],
    )];
    let reports = run(&instances);
    assert_eq!(reports.len(), 1);
    match &reports[0] {
        Report::DoubleLock(d) => assert_eq!(d.possibility, Possibility::Possibly),
        _ => panic!("expected a double-lock report"),
    }
}

#[test]
fn field_projection_likely_possibly() {
    let a = LockId::FieldProjection { receiver: 1, base_ty: 5, path: 2 };
    let b = LockId::FieldProjection { receiver: 2, base_ty: 5, path: 2 };
    let instances = vec![inst(
        1,
        10,
        vec![
            acquire_id(a, GuardKind::Exclusive, 1),
            acquire_id(b, GuardKind::Exclusive, 2),
        ],
    )];
    let reports = run(&instances);
    assert_eq!(reports.len(), 1);
    match &reports[0] {
        Report::DoubleLock(d) => assert_eq!(d.possibility, Possibility::Possibly),
        _ => panic!("expected a double-lock report"),
    }
}

#[test]
fn release_clears_held_guard() {
    let instances = vec![inst(
        1,
        10,
        vec![
            acquire(5, GuardKind::Exclusive, 1),
            release(2),
            acquire(5, GuardKind::Exclusive, 3),
        ],
    )];
    let reports = run(&instances);
    assert!(reports.is_empty());
}

#[test]
fn conflict_with_likely_alias_possibly() {
    let a1 = LockId::FieldProjection { receiver: 1, base_ty: 5, path: 2 };
    let a2 = LockId::FieldProjection { receiver: 9, base_ty: 5, path: 2 };
    let instances = vec![
        inst(
            1,
            10,
            vec![
                acquire_id(a1, GuardKind::Exclusive, 1),
                acquire(2, GuardKind::Exclusive, 2),
                release(3),
                release(4),
            ],
        ),
        inst(
            2,
            11,
            vec![
                acquire(2, GuardKind::Exclusive, 5),
                acquire_id(a2, GuardKind::Exclusive, 6),
                release(7),
                release(8),
            ],
        ),
    ];
    let reports = run(&instances);
    assert_eq!(reports.len(), 1);
    match &reports[0] {
        Report::ConflictLock(c) => assert_eq!(c.possibility, Possibility::Possibly),
        _ => panic!("expected a conflict-lock report"),
    }
}

#[test]
fn conflict_lock_probably() {
    let instances = vec![
        inst(
            1,
            10,
            vec![
                acquire(1, GuardKind::Exclusive, 1),
                acquire(2, GuardKind::Exclusive, 2),
                release(3),
                release(4),
            ],
        ),
        inst(
            2,
            11,
            vec![
                acquire(2, GuardKind::Exclusive, 5),
                acquire(1, GuardKind::Exclusive, 6),
                release(7),
                release(8),
            ],
        ),
    ];
    let reports = run(&instances);
    assert_eq!(reports.len(), 1);
    match &reports[0] {
        Report::ConflictLock(c) => {
            assert_eq!(c.possibility, Possibility::Probably);
            assert_eq!(c.first_root, 0);
            assert_eq!(c.first_former.line, 1);
            assert_eq!(c.first_latter.line, 2);
            assert_eq!(c.second_root, 1);
            assert_eq!(c.second_former.line, 5);
            assert_eq!(c.second_latter.line, 6);
        }
        _ => panic!("expected a conflict-lock report"),
    }
}

#[test]
fn detector_is_deterministic() {
    let instances = vec![
        inst(
            1,
            10,
            vec![
                acquire(1, GuardKind::Exclusive, 1),
                acquire(2, GuardKind::Exclusive, 2),
                release(3),
                release(4),
            ],
        ),
        inst(
            2,
            11,
            vec![
                acquire(2, GuardKind::Exclusive, 5),
                acquire(1, GuardKind::Exclusive, 6),
                release(7),
                release(8),
            ],
        ),
        inst(3, 12, vec![acquire(9, GuardKind::Reentrant, 9), acquire(9, GuardKind::Reentrant, 10)]),
    ];
    let first = run(&instances);
    let second = run(&instances);
    assert_eq!(first, second);
    assert!(!first.is_empty());
}

#[test]
fn recursive_cycle_terminates() {
    let instances = vec![
        inst(
            1,
            10,
            vec![
                acquire(3, GuardKind::Exclusive, 1),
                Stmt::CallDirect { def: 2, substs: 0 },
                release(3),
            ],
        ),
        inst(2, 11, vec![Stmt::CallDirect { def: 1, substs: 0 }]),
    ];
    let reports = run(&instances);
    assert!(!reports.is_empty());
    for r in &reports {
        assert!(matches!(r, Report::DoubleLock(_)));
    }
}

#[test]
fn same_root_divergent_branches_conflict() {
    let instances = vec![
        inst(1, 10, vec![Stmt::CallIndirect { sig: 9 }]),
        inst(
            2,
            9,
            vec![
                acquire(1, GuardKind::Exclusive, 1),
                acquire(2, GuardKind::Exclusive, 2),
                release(3),
                release(4),
            ],
        ),
        inst(
            3,
            9,
            vec![
                acquire(2, GuardKind::Exclusive, 5),
                acquire(1, GuardKind::Exclusive, 6),
                release(7),
                release(8),
            ],
        ),
    ];
    let graph = CallGraph::build(&instances);
    let detector = DeadlockDetector::new(4);
    let reports = detector.detect(&graph, &instances, &vec![0]).unwrap();
    assert_eq!(reports.len(), 1);
    match &reports[0] {
        Report::ConflictLock(c) => {
            assert_eq!(c.possibility, Possibility::Probably);
            assert_eq!(c.first_root, 0);
            assert_eq!(c.second_root, 0);
        }
        _ => panic!("expected a conflict-lock report"),
    }
}

#[test]
fn missing_root_is_fatal() {
    let instances = vec![inst(1, 10, vec![])];
    let graph = CallGraph::build(&instances);
    let detector = DeadlockDetector::new(4);
    let r = detector.detect(&graph, &instances, &vec![3]);
    assert_eq!(r, Err(AnalysisError::RootMissing));
}

#[test]
fn unmatched_release_is_ignored() {
    let instances = vec![inst(
        1,
        10,
        vec![release(1), acquire(2, GuardKind::Exclusive, 2)],
    )];
    let reports = run(&instances);
    assert!(reports.is_empty());
}

#[test]
fn depth_zero_keeps_calls_opaque() {
    let instances = vec![
        inst(
            1,
            10,
            vec![
                acquire(7, GuardKind::Exclusive, 1),
                Stmt::CallDirect { def: 2, substs: 0 },
                release(3),
            ],
        ),
        inst(2, 11, vec![acquire(7, GuardKind::Exclusive, 4), release(5)]),
    ];
    let graph = CallGraph::build(&instances);
    let detector = DeadlockDetector::new(0);
    let reports = detector.detect(&graph, &instances, &vec![0]).unwrap();
    assert!(reports.is_empty());
}

#[test]
fn call_graph_edges_direct_and_indirect() {
    let instances = vec![
        inst(1, 10, vec![Stmt::CallDirect { def: 2, substs: 0 }, Stmt::CallIndirect { sig: 77 }]),
        inst(2, 77, vec![]),
        inst(3, 77, vec![]),
    ];
    let graph = CallGraph::build(&instances);
    assert_eq!(graph.n_nodes, 3);
    assert_eq!(
        graph.edges,
        vec![
            CallEdge { caller: 0, callee: 1, site: 0 },
            CallEdge { caller: 0, callee: 1, site: 1 },
            CallEdge { caller: 0, callee: 2, site: 1 },
        ]
    );
}

#[test]
fn dropped_direct_call_is_a_leaf() {
    let instances = vec![inst(
        1,
        10,
        vec![
            acquire(7, GuardKind::Exclusive, 1),
            Stmt::CallDirect { def: 99, substs: 0 },
            release(3),
        ],
    )];
    let graph = CallGraph::build(&instances);
    assert!(graph.edges.is_empty());
    let reports = run(&instances);
    assert!(reports.is_empty());
}

#[test]
fn collect_paths_branches_per_target() {
    let instances = vec![
        inst(1, 10, vec![Stmt::CallIndirect { sig: 9 }]),
        inst(2, 9, vec![acquire(1, GuardKind::Exclusive, 1)]),
        inst(3, 9, vec![acquire(2, GuardKind::Exclusive, 2)]),
    ];
    let graph = CallGraph::build(&instances);
    let paths = graph.collect_lock_paths(&instances, &vec![0], 4).unwrap();
    assert_eq!(paths.len(), 2);
    assert_eq!(paths[0].root, 0);
    assert_eq!(paths[1].root, 0);
    assert_eq!(paths[0].ops.len(), 1);
    assert_eq!(paths[1].ops.len(), 1);
    assert_eq!(paths[0].ops[0].lock, LockId::StaticSite { site: 1 });
    assert_eq!(paths[1].ops[0].lock, LockId::StaticSite { site: 2 });
}

#[test]
fn alias_tiers() {
    let s1 = LockId::StaticSite { site: 1 };
    let s2 = LockId::StaticSite { site: 2 };
    let f1 = LockId::FieldProjection { receiver: 1, base_ty: 5, path: 2 };
    let f2 = LockId::FieldProjection { receiver: 2, base_ty: 5, path: 2 };
    let f3 = LockId::FieldProjection { receiver: 1, base_ty: 5, path: 3 };
    let h = LockId::HeapIndirect { token: 4 };
    assert_eq!(alias_tier(s1, s1), Some(AliasTier::Exact));
    assert_eq!(alias_tier(s1, s2), None);
    assert_eq!(alias_tier(f1, f1), Some(AliasTier::Exact));
    assert_eq!(alias_tier(f1, f2), Some(AliasTier::Likely));
    assert_eq!(alias_tier(f1, f3), None);
    assert_eq!(alias_tier(s1, f1), None);
    assert_eq!(alias_tier(h, s1), Some(AliasTier::Unknown));
    assert_eq!(alias_tier(f1, h), Some(AliasTier::Unknown));
}

#[test]
fn possibility_labels() {
    assert_eq!(Possibility::Probably.as_str(), "Probably");
    assert_eq!(Possibility::Possibly.as_str(), "Possibly");
}

#[test]
fn callbacks_new_defaults() {
    let cb = LockBudCallbacks::new(Options {
        detector_kind: DetectorKind::Deadlock,
        crate_name_list: CrateNameList::Black(Vec::new()),
    });
    assert_eq!(cb.file_name, String::new());
    assert_eq!(cb.output_directory, String::new());
    assert!(!cb.test_run);
}

fn doublelock_unit() -> Vec<Instance> {
    vec![inst(
        1,
        10,
        vec![
            acquire(5, GuardKind::Exclusive, 1),
            acquire(5, GuardKind::Exclusive, 2),
        ],
    )]
}

#[test]
fn allow_list_excluding_unit_skips() {
    let cb = LockBudCallbacks::new(Options {
        detector_kind: DetectorKind::Deadlock,
        crate_name_list: CrateNameList::White(vec![String::from("other")]),
    });
    let instances = doublelock_unit();
    let r = cb.analyze_with_lockbud(&String::from("this_unit"), true, &instances);
    assert!(r.is_none());
}

#[test]
fn allow_list_including_unit_analyzes() {
    let cb = LockBudCallbacks::new(Options {
        detector_kind: DetectorKind::Deadlock,
        crate_name_list: CrateNameList::White(vec![String::from("this_unit")]),
    });
    let instances = doublelock_unit();
    let r = cb.analyze_with_lockbud(&String::from("this_unit"), true, &instances);
    let reports = r.expect("findings expected");
    assert_eq!(reports.len(), 1);
}

#[test]
fn empty_allow_list_analyzes() {
    let cb = LockBudCallbacks::new(Options {
        detector_kind: DetectorKind::Deadlock,
        crate_name_list: CrateNameList::White(Vec::new()),
    });
    let instances = doublelock_unit();
    assert!(cb.analyze_with_lockbud(&String::from("u"), true, &instances).is_some());
}

#[test]
fn deny_list_including_unit_skips() {
    let cb = LockBudCallbacks::new(Options {
        detector_kind: DetectorKind::Deadlock,
        crate_name_list: CrateNameList::Black(vec![String::from("u")]),
    });
    let instances = doublelock_unit();
    assert!(cb.analyze_with_lockbud(&String::from("u"), true, &instances).is_none());
}

#[test]
fn no_codegen_skips() {
    let cb = LockBudCallbacks::new(Options {
        detector_kind: DetectorKind::Deadlock,
        crate_name_list: CrateNameList::Black(Vec::new()),
    });
    let instances = doublelock_unit();
    assert!(cb.analyze_with_lockbud(&String::from("u"), false, &instances).is_none());
}

#[test]
fn no_findings_gives_none() {
    let cb = LockBudCallbacks::new(Options {
        detector_kind: DetectorKind::Deadlock,
        crate_name_list: CrateNameList::Black(Vec::new()),
    });
    let instances = vec![inst(1, 10, vec![acquire(5, GuardKind::Exclusive, 1), release(2)])];
    assert!(cb.analyze_with_lockbud(&String::from("u"), true, &instances).is_none());
}

#[test]
fn config_records_toolchain_choices() {
    let mut cb = LockBudCallbacks::new(Options {
        detector_kind: DetectorKind::Deadlock,
        crate_name_list: CrateNameList::Black(Vec::new()),
    });
    cb.config(String::from("main.rs"), String::from("/tmp/out"));
    assert_eq!(cb.file_name, String::from("main.rs"));
    assert_eq!(cb.output_directory, String::from("/tmp/out"));
    assert!(!cb.test_run);
}

#[test]
fn build_script_units_are_recognized() {
    let mut cb = LockBudCallbacks::new(Options {
        detector_kind: DetectorKind::Deadlock,
        crate_name_list: CrateNameList::Black(Vec::new()),
    });
    cb.config(String::from("main.rs"), String::from("/target/debug/build/foo-1c2d"));
    assert!(cb.is_build_script_unit());
    cb.config(String::from("main.rs"), String::from("/target/debug/deps"));
    assert!(!cb.is_build_script_unit());
    assert!(cb.continue_compilation());
}

#[test]
fn report_stats_counts() {
    let dl = |p: Possibility| {
        Report::DoubleLock(lockbud::detect::DoubleLockReport {
            possibility: p,
            first: loc(1),
            second: loc(2),
            root: 0,
        })
    };
    let cl = |p: Possibility| {
        Report::ConflictLock(lockbud::detect::ConflictLockReport {
            possibility: p,
            first_root: 0,
            first_former: loc(1),
            first_latter: loc(2),
            second_root: 1,
            second_former: loc(3),
            second_latter: loc(4),
        })
    };
    let reports = vec![
        dl(Possibility::Probably),
        dl(Possibility::Probably),
        dl(Possibility::Possibly),
        cl(Possibility::Probably),
        cl(Possibility::Possibly),
        cl(Possibility::Possibly),
        cl(Possibility::Possibly),
    ];
    let stats = report_stats(&String::from("unit_a"), &reports);
    assert_eq!(stats.unit, String::from("unit_a"));
    assert_eq!(stats.doublelock_probably, 2);
    assert_eq!(stats.doublelock_possibly, 1);
    assert_eq!(stats.conflictlock_probably, 1);
    assert_eq!(stats.conflictlock_possibly, 3);
}
