use psybeam::assembly::{parse_interface, AssemblyEvent, Interface, PsybeamResources, SurfacePhase};
use psybeam::config::{Anchor, SurfaceConfig};
use psybeam::session::Psybeam;

fn test_config() -> SurfaceConfig {
    SurfaceConfig { height: 24, exclusive_height: None, bottom: false }
}

fn prerequisite_events() -> Vec<AssemblyEvent> {
    vec![
        AssemblyEvent::Global { interface: Interface::Compositor, handle: 1 },
        AssemblyEvent::Global { interface: Interface::Output, handle: 2 },
        AssemblyEvent::Global { interface: Interface::Shm, handle: 3 },
        AssemblyEvent::Global { interface: Interface::LayerShell, handle: 4 },
        AssemblyEvent::Mode { width: 800 },
    ]
}

fn permutations(n: usize) -> Vec<Vec<usize>> {
    if n == 0 {
        return vec![vec![]];
    }
    let mut out = Vec::new();
    for rest in permutations(n - 1) {
        for pos in 0..=rest.len() {
            let mut p = rest.clone();
            p.insert(pos, n - 1);
            out.push(p);
        }
    }
    out
}

#[test]
fn parse_interface_recognizes_the_four_globals() {
    assert_eq!(parse_interface("wl_compositor"), Some(Interface::Compositor));
    assert_eq!(parse_interface("wl_output"), Some(Interface::Output));
    assert_eq!(parse_interface("wl_shm"), Some(Interface::Shm));
    assert_eq!(parse_interface("zwlr_layer_shell_v1"), Some(Interface::LayerShell));
}

#[test]
fn parse_interface_ignores_other_globals() {
    assert_eq!(parse_interface("wl_seat"), None);
    assert_eq!(parse_interface("wl_compositor2"), None);
    assert_eq!(parse_interface(""), None);
}

#[test]
fn finalization_under_every_arrival_order() {
    let events = prerequisite_events();
    let orders = permutations(events.len());
    assert_eq!(orders.len(), 120);
    for order in orders {
        let mut bar = Psybeam::new(test_config(), Vec::new());
        let mut plans = 0;
        for (step, &idx) in order.iter().enumerate() {
            assert!(!matches!(bar.resources, PsybeamResources::Final(_)));
            bar.apply_update(events[idx]);
            let ready = bar.ready_to_finalize();
            let plan = bar.try_finalize(99);
            assert_eq!(plan.is_some(), ready);
            if plan.is_some() {
                plans += 1;
            }
            if step + 1 < order.len() {
                // Some prerequisite is still missing.
                assert!(plan.is_none());
                assert!(!matches!(bar.resources, PsybeamResources::Final(_)));
            } else {
                // The last prerequisite arrived: finalization fired.
                let plan = plan.expect("all five prerequisites were supplied");
                assert_eq!(plan.width, 800);
                assert_eq!(plan.height, 24);
                assert_eq!(plan.pool_size, 800 * 24 * 4);
                assert_eq!(plan.anchor, Anchor::Top);
                assert_eq!(plan.exclusive_zone, 24);
            }
        }
        assert_eq!(plans, 1);
        match bar.resources {
            PsybeamResources::Final(f) => {
                assert_eq!(f.base_surface, 1);
                assert_eq!(f.wl_output, 2);
                assert_eq!(f.wl_shm, 3);
                assert_eq!(f.layer_shell, 4);
                assert_eq!(f.width, 800);
                assert_eq!(f.layer_surface, 99);
                assert_eq!(f.phase, SurfacePhase::AwaitingConfigure);
            },
            PsybeamResources::Partial(_) => panic!("must be final after all five events"),
        }
    }
}

#[test]
fn no_finalization_while_a_prerequisite_is_missing() {
    let events = prerequisite_events();
    // Leave each one of the five events out in turn.
    for skip in 0..events.len() {
        let mut bar = Psybeam::new(test_config(), Vec::new());
        for (idx, ev) in events.iter().enumerate() {
            if idx != skip {
                bar.apply_update(*ev);
            }
            assert!(bar.try_finalize(99).is_none());
        }
        assert!(!bar.ready_to_finalize() || matches!(bar.resources, PsybeamResources::Final(_)));
        assert!(matches!(bar.resources, PsybeamResources::Partial(_)));
    }
}

#[test]
fn duplicate_events_after_finalization_do_nothing_once() {
    let mut bar = Psybeam::new(test_config(), Vec::new());
    for ev in prerequisite_events() {
        bar.apply_update(ev);
        bar.try_finalize(99);
    }
    assert!(matches!(bar.resources, PsybeamResources::Final(_)));

    // Duplicate globals arrive again: nothing is rebound, nothing fires.
    for ev in prerequisite_events() {
        bar.apply_update(ev);
        assert!(bar.try_finalize(77).is_none());
    }
    match bar.resources {
        PsybeamResources::Final(f) => {
            assert_eq!(f.base_surface, 1);
            assert_eq!(f.wl_output, 2);
            assert_eq!(f.wl_shm, 3);
            assert_eq!(f.layer_shell, 4);
            assert_eq!(f.layer_surface, 99);
            assert_eq!(f.width, 800);
        },
        PsybeamResources::Partial(_) => panic!("stays final"),
    }
}

#[test]
fn late_mode_event_overwrites_width_without_refiring() {
    let mut bar = Psybeam::new(test_config(), Vec::new());
    for ev in prerequisite_events() {
        bar.apply_update(ev);
        bar.try_finalize(99);
    }
    bar.apply_update(AssemblyEvent::Mode { width: 1024 });
    assert!(bar.try_finalize(77).is_none());
    match bar.resources {
        PsybeamResources::Final(f) => {
            assert_eq!(f.width, 1024);
            assert_eq!(f.layer_surface, 99);
        },
        PsybeamResources::Partial(_) => panic!("stays final"),
    }
}

#[test]
fn bound_globals_are_never_rebound() {
    let mut bar = Psybeam::new(test_config(), Vec::new());
    assert!(bar.wants_global(Interface::Output));
    bar.apply_update(AssemblyEvent::Global { interface: Interface::Output, handle: 2 });
    assert!(!bar.wants_global(Interface::Output));
    assert!(bar.wants_global(Interface::Shm));

    // A second announcement of the same interface is ignored.
    bar.apply_update(AssemblyEvent::Global { interface: Interface::Output, handle: 55 });
    match bar.resources {
        PsybeamResources::Partial(p) => assert_eq!(p.wl_output, Some(2)),
        PsybeamResources::Final(_) => panic!("still partial"),
    }
}

#[test]
fn bottom_anchor_and_explicit_exclusive_zone_reach_the_plan() {
    let config = SurfaceConfig { height: 24, exclusive_height: Some(-1), bottom: true };
    let mut bar = Psybeam::new(config, Vec::new());
    let mut plan = None;
    for ev in prerequisite_events() {
        bar.apply_update(ev);
        if let Some(p) = bar.try_finalize(5) {
            plan = Some(p);
        }
    }
    let plan = plan.expect("finalized");
    assert_eq!(plan.anchor, Anchor::Bottom);
    assert_eq!(plan.exclusive_zone, -1);
}
