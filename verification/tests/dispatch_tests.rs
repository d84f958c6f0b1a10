//! A small host world that drives full dispatch passes through the library:
//! it scans objects, collects pressed ones, performs the planned actions
//! (counting setups and runs per callable), and writes queues back.
use ui_extras::dispatch::{collect_pass, collect_row, run_queue, should_collect, ScanRow, SlotAction};
use ui_extras::onclick::{ClickBehaviorKind, Interaction, OnClick};

/// Callable handles understood by this test host.
const INCREMENT: u64 = 1;
const LOG_TARGET: u64 = 2;
const APPEND_TO_SELF: u64 = 3;
const DELETE_TARGET: u64 = 4;

struct TestObject {
    id: u64,
    alive: bool,
    interaction: Interaction,
    fresh_change: bool,
    suppressed: bool,
    queue: OnClick,
}

struct TestWorld {
    objects: Vec<TestObject>,
    counter: i64,
    entity_log: Vec<u64>,
    cli_log: Vec<String>,
    setup_counts: [u64; 8],
    run_counts: [u64; 8],
}

fn new_world() -> TestWorld {
    TestWorld {
        objects: Vec::new(),
        counter: 0,
        entity_log: Vec::new(),
        cli_log: Vec::new(),
        setup_counts: [0; 8],
        run_counts: [0; 8],
    }
}

fn add_object(w: &mut TestWorld, id: u64, suppressed: bool, queue: OnClick) {
    w.objects.push(TestObject {
        id,
        alive: true,
        interaction: Interaction::Idle,
        fresh_change: false,
        suppressed,
        queue,
    });
}

fn press(w: &mut TestWorld, id: u64) {
    for obj in w.objects.iter_mut() {
        if obj.id == id {
            obj.interaction = Interaction::Pressed;
            obj.fresh_change = true;
        }
    }
}

fn hover(w: &mut TestWorld, id: u64) {
    for obj in w.objects.iter_mut() {
        if obj.id == id {
            obj.interaction = Interaction::Hovered;
            obj.fresh_change = true;
        }
    }
}

fn run_callable(w: &mut TestWorld, callable: u64, target: Option<u64>) {
    match callable {
        INCREMENT => w.counter += 1,
        LOG_TARGET => {
            if let Some(t) = target {
                w.entity_log.push(t);
            }
        }
        APPEND_TO_SELF => {
            if let Some(t) = target {
                for obj in w.objects.iter_mut() {
                    if obj.alive && obj.id == t {
                        let queue = std::mem::take(&mut obj.queue);
                        obj.queue = queue.system(INCREMENT);
                    }
                }
            }
        }
        DELETE_TARGET => {
            if let Some(t) = target {
                for obj in w.objects.iter_mut() {
                    if obj.id == t {
                        obj.alive = false;
                    }
                }
            }
        }
        _ => {}
    }
}

fn perform(w: &mut TestWorld, action: SlotAction) {
    match action {
        SlotAction::RunSystem { callable, initialize } => {
            if initialize {
                w.setup_counts[callable as usize] += 1;
            }
            w.run_counts[callable as usize] += 1;
            run_callable(w, callable, None);
        }
        SlotAction::RunEntitySystem { callable, target, initialize } => {
            if initialize {
                w.setup_counts[callable as usize] += 1;
            }
            w.run_counts[callable as usize] += 1;
            run_callable(w, callable, Some(target));
        }
        SlotAction::RunCli { command } => {
            w.cli_log.push(command);
        }
    }
}

/// One full dispatch pass: Scan, Collect, Execute, Writeback.
fn run_tick(w: &mut TestWorld) {
    let mut buffer: Vec<(u64, Vec<ClickBehaviorKind>)> = Vec::new();
    for obj in w.objects.iter_mut() {
        if !obj.alive {
            continue;
        }
        collect_row(
            &mut buffer,
            obj.id,
            obj.interaction,
            obj.fresh_change,
            obj.suppressed,
            &mut obj.queue,
        );
        obj.fresh_change = false;
    }
    for (id, mut slots) in buffer {
        let plan = run_queue(id, &mut slots);
        for action in plan {
            perform(w, action);
        }
        match w.objects.iter_mut().find(|o| o.alive && o.id == id) {
            Some(obj) => obj.queue.write_back(slots),
            None => {} // deleted during execution: skip silently
        }
    }
}

fn slot_is_initialized(slot: &ClickBehaviorKind) -> bool {
    match slot {
        ClickBehaviorKind::System { initialized, .. } => *initialized,
        ClickBehaviorKind::EntitySystem { initialized, .. } => *initialized,
        ClickBehaviorKind::Cli { .. } => true,
    }
}

#[test]
fn scan_decision_matches_spec() {
    assert!(should_collect(Interaction::Pressed, true, false));
    assert!(!should_collect(Interaction::Pressed, false, false));
    assert!(!should_collect(Interaction::Pressed, true, true));
    assert!(!should_collect(Interaction::Hovered, true, false));
    assert!(!should_collect(Interaction::Idle, true, false));
}

#[test]
fn builder_appends_in_order() {
    let q = OnClick::new().system(5).entity_system(6).cli("toggle fullscreen");
    assert_eq!(q.len(), 3);
    assert!(matches!(
        q.action_at(0),
        ClickBehaviorKind::System { initialized: false, callable: 5 }
    ));
    assert!(matches!(
        q.action_at(1),
        ClickBehaviorKind::EntitySystem { initialized: false, callable: 6 }
    ));
    match q.action_at(2) {
        ClickBehaviorKind::Cli { command } => assert_eq!(command, "toggle fullscreen"),
        _ => panic!("expected a command slot"),
    }
}

#[test]
fn at_most_once_fire() {
    let mut w = new_world();
    add_object(&mut w, 1, false, OnClick::new().system(INCREMENT));
    press(&mut w, 1);
    run_tick(&mut w);
    assert_eq!(w.run_counts[INCREMENT as usize], 1);
    // no new press: the next tick must not fire again
    run_tick(&mut w);
    assert_eq!(w.run_counts[INCREMENT as usize], 1);
    assert_eq!(w.counter, 1);
}

#[test]
fn order_preservation() {
    let mut w = new_world();
    let q = OnClick::new().cli("b1").cli("b2").cli("b3");
    add_object(&mut w, 1, false, q);
    press(&mut w, 1);
    run_tick(&mut w);
    assert_eq!(w.cli_log, vec!["b1".to_string(), "b2".to_string(), "b3".to_string()]);
}

#[test]
fn objects_do_not_interleave() {
    let mut w = new_world();
    add_object(&mut w, 1, false, OnClick::new().cli("a1").cli("a2"));
    add_object(&mut w, 2, false, OnClick::new().cli("b1"));
    press(&mut w, 1);
    press(&mut w, 2);
    run_tick(&mut w);
    assert_eq!(
        w.cli_log,
        vec!["a1".to_string(), "a2".to_string(), "b1".to_string()]
    );
}

#[test]
fn init_once_across_ticks() {
    let mut w = new_world();
    add_object(&mut w, 1, false, OnClick::new().system(INCREMENT));
    for _ in 0..3 {
        press(&mut w, 1);
        run_tick(&mut w);
    }
    assert_eq!(w.setup_counts[INCREMENT as usize], 1);
    assert_eq!(w.run_counts[INCREMENT as usize], 3);
    assert_eq!(w.counter, 3);
}

#[test]
fn suppression_blocks_dispatch() {
    let mut w = new_world();
    add_object(&mut w, 1, true, OnClick::new().system(INCREMENT));
    press(&mut w, 1);
    run_tick(&mut w);
    assert_eq!(w.counter, 0);
    assert_eq!(w.run_counts[INCREMENT as usize], 0);
}

#[test]
fn suppressed_queue_stays_intact_and_retriggerable() {
    let mut w = new_world();
    add_object(&mut w, 1, true, OnClick::new().system(INCREMENT));
    press(&mut w, 1);
    run_tick(&mut w);
    // never taken: the queue is unchanged and still uninitialized
    assert_eq!(w.counter, 0);
    assert_eq!(w.objects[0].queue.len(), 1);
    assert!(!slot_is_initialized(w.objects[0].queue.action_at(0)));
    // once the marker is removed, a fresh press fires it
    w.objects[0].suppressed = false;
    press(&mut w, 1);
    run_tick(&mut w);
    assert_eq!(w.counter, 1);
}

#[test]
fn press_runs_both_increments() {
    let mut w = new_world();
    add_object(
        &mut w,
        1,
        false,
        OnClick::new().system(INCREMENT).system(INCREMENT),
    );
    press(&mut w, 1);
    run_tick(&mut w);
    // both slots ran once: the shared value went up by 2
    assert_eq!(w.counter, 2);
    // the executed slots are written back, initialized, ready for a re-press
    assert_eq!(w.objects[0].queue.len(), 2);
    assert!(slot_is_initialized(w.objects[0].queue.action_at(0)));
    assert!(slot_is_initialized(w.objects[0].queue.action_at(1)));
}

#[test]
fn take_leaves_queue_empty_during_execution() {
    let mut w = new_world();
    add_object(&mut w, 1, false, OnClick::new().system(INCREMENT));
    press(&mut w, 1);
    let mut buffer: Vec<(u64, Vec<ClickBehaviorKind>)> = Vec::new();
    let obj = &mut w.objects[0];
    let took = collect_row(
        &mut buffer,
        obj.id,
        obj.interaction,
        obj.fresh_change,
        obj.suppressed,
        &mut obj.queue,
    );
    assert!(took);
    // a retrigger while the taken queue runs would find nothing to collect
    assert_eq!(obj.queue.len(), 0);
    assert_eq!(buffer.len(), 1);
    assert_eq!(buffer[0].0, 1);
    assert_eq!(buffer[0].1.len(), 1);
}

#[test]
fn self_append_runs_only_on_next_trigger() {
    let mut w = new_world();
    add_object(&mut w, 1, false, OnClick::new().entity_system(APPEND_TO_SELF));
    press(&mut w, 1);
    run_tick(&mut w);
    // the appended increment slot did not run this tick
    assert_eq!(w.counter, 0);
    // it sits behind the executed slot, waiting for the next press
    assert_eq!(w.objects[0].queue.len(), 2);
    assert!(matches!(
        w.objects[0].queue.action_at(1),
        ClickBehaviorKind::System { initialized: false, callable: INCREMENT }
    ));
    press(&mut w, 1);
    run_tick(&mut w);
    assert_eq!(w.counter, 1);
}

#[test]
fn deleting_own_object_skips_writeback_silently() {
    let mut w = new_world();
    add_object(
        &mut w,
        1,
        false,
        OnClick::new().entity_system(DELETE_TARGET).cli("after delete"),
    );
    press(&mut w, 1);
    run_tick(&mut w);
    // the object is gone, writeback was skipped, later slots still ran
    assert!(!w.objects[0].alive);
    assert_eq!(w.cli_log, vec!["after delete".to_string()]);
}

#[test]
fn entity_slot_receives_triggering_id() {
    let mut w = new_world();
    add_object(&mut w, 7, false, OnClick::new().entity_system(LOG_TARGET));
    add_object(&mut w, 9, false, OnClick::new().entity_system(LOG_TARGET));
    press(&mut w, 7);
    press(&mut w, 9);
    run_tick(&mut w);
    assert_eq!(w.entity_log, vec![7, 9]);
}

#[test]
fn collect_pass_filters_and_keeps_scan_order() {
    let mut rows = vec![
        ScanRow {
            id: 1,
            interaction: Interaction::Pressed,
            fresh_change: true,
            suppressed: false,
            queue: OnClick::new().system(INCREMENT),
        },
        ScanRow {
            id: 2,
            interaction: Interaction::Hovered,
            fresh_change: true,
            suppressed: false,
            queue: OnClick::new().system(INCREMENT),
        },
        ScanRow {
            id: 3,
            interaction: Interaction::Pressed,
            fresh_change: true,
            suppressed: true,
            queue: OnClick::new().system(INCREMENT),
        },
        ScanRow {
            id: 4,
            interaction: Interaction::Pressed,
            fresh_change: true,
            suppressed: false,
            queue: OnClick::new().cli("say hi"),
        },
    ];
    let buffer = collect_pass(&mut rows);
    // only the fresh, pressed, unsuppressed objects, in scan order
    assert_eq!(buffer.len(), 2);
    assert_eq!(buffer[0].0, 1);
    assert_eq!(buffer[1].0, 4);
    // collected queues were taken whole; the others were left untouched
    assert_eq!(rows[0].queue.len(), 0);
    assert_eq!(rows[1].queue.len(), 1);
    assert_eq!(rows[2].queue.len(), 1);
    assert_eq!(rows[3].queue.len(), 0);
    assert_eq!(buffer[0].1.len(), 1);
    assert_eq!(buffer[1].1.len(), 1);
}

#[test]
fn hover_change_is_not_collected() {
    let mut w = new_world();
    add_object(&mut w, 1, false, OnClick::new().system(INCREMENT));
    hover(&mut w, 1);
    run_tick(&mut w);
    assert_eq!(w.counter, 0);
    assert_eq!(w.objects[0].queue.len(), 1);
}

#[test]
fn stale_pressed_state_is_not_collected() {
    let mut w = new_world();
    add_object(&mut w, 1, false, OnClick::new().system(INCREMENT));
    // pressed, but not freshly changed this tick: edge-triggered, not level
    w.objects[0].interaction = Interaction::Pressed;
    w.objects[0].fresh_change = false;
    run_tick(&mut w);
    assert_eq!(w.counter, 0);
}
