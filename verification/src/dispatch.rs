//! The dispatch pass: which objects are collected on a tick, what running a
//! queue does to its slots, and which host actions it produces, in what order.
//!
//! The host drives one pass as Scan, Collect, Execute, Writeback:
//! * Scan/Collect: for every object with a queue, decide with [`should_collect`]
//!   (or take the queue in one step with [`collect_row`]); taken queues are
//!   buffered in scan order.
//! * Execute: for each buffered object, in order, [`run_queue`] flips the
//!   `initialized` flags and hands back one [`SlotAction`] per slot; the host
//!   performs each action against its world, applying deferred effects after
//!   each one, before the next.
//! * Writeback: if the object still exists, `OnClick::write_back` restores the
//!   executed slots in front of anything appended to the live queue meanwhile;
//!   if it was deleted, the host skips it silently.
use vstd::prelude::*;

use crate::onclick::{ClickBehaviorKind, Interaction, OnClick, SlotModel, slots_view};

verus! {

/// Whether an object is collected by the dispatch pass this tick: its
/// interaction state freshly changed, to Pressed, and it is not suppressed
/// by a disabled marker.
pub open spec fn collects(interaction: Interaction, fresh_change: bool, suppressed: bool) -> bool {
    fresh_change && !suppressed && interaction is Pressed
}

/// The Scan decision for one object.
pub fn should_collect(interaction: Interaction, fresh_change: bool, suppressed: bool) -> (r: bool)
    ensures
        r == collects(interaction, fresh_change, suppressed),
{
    fresh_change && !suppressed && interaction == Interaction::Pressed
}

/// What the host must do to run one slot: run the named callable against its
/// world (initializing it first when `initialize` is set), or hand a command
/// line to the external interpreter.
pub enum SlotAction {
    /// Run a zero-argument callable; set it up first iff `initialize`.
    RunSystem { callable: u64, initialize: bool },
    /// Run an id-taking callable on `target`; set it up first iff `initialize`.
    RunEntitySystem { callable: u64, target: u64, initialize: bool },
    /// Forward a command line to the external interpreter.
    RunCli { command: String },
}

/// Mathematical model of one host action.
pub enum ActionModel {
    RunSystem { callable: u64, initialize: bool },
    RunEntitySystem { callable: u64, target: u64, initialize: bool },
    RunCli { command: Seq<char> },
}

impl View for SlotAction {
    type V = ActionModel;

    open spec fn view(&self) -> ActionModel {
        match self {
            SlotAction::RunSystem { callable, initialize } => ActionModel::RunSystem {
                callable: *callable,
                initialize: *initialize,
            },
            SlotAction::RunEntitySystem { callable, target, initialize } => ActionModel::RunEntitySystem {
                callable: *callable,
                target: *target,
                initialize: *initialize,
            },
            SlotAction::RunCli { command } => ActionModel::RunCli { command: command@ },
        }
    }
}

/// The models of a sequence of actions.
pub open spec fn actions_view(v: Seq<SlotAction>) -> Seq<ActionModel> {
    v.map_values(|a: SlotAction| a@)
}

/// Whether a slot has been initialized. A command slot needs no setup and
/// counts as initialized from the start.
pub open spec fn slot_initialized(s: SlotModel) -> bool {
    match s {
        SlotModel::System { initialized, .. } => initialized,
        SlotModel::EntitySystem { initialized, .. } => initialized,
        SlotModel::Cli { .. } => true,
    }
}

/// The action one invocation of a slot produces, for the triggering object
/// `target`: setup happens exactly when the slot is not yet initialized.
pub open spec fn slot_action(s: SlotModel, target: u64) -> ActionModel {
    match s {
        SlotModel::System { initialized, callable } => ActionModel::RunSystem {
            callable,
            initialize: !initialized,
        },
        SlotModel::EntitySystem { initialized, callable } => ActionModel::RunEntitySystem {
            callable,
            target,
            initialize: !initialized,
        },
        SlotModel::Cli { command } => ActionModel::RunCli { command },
    }
}

/// The slot after one invocation: the same behavior, now initialized.
pub open spec fn slot_after_run(s: SlotModel) -> SlotModel {
    match s {
        SlotModel::System { callable, .. } => SlotModel::System { initialized: true, callable },
        SlotModel::EntitySystem { callable, .. } => SlotModel::EntitySystem {
            initialized: true,
            callable,
        },
        SlotModel::Cli { command } => SlotModel::Cli { command },
    }
}

/// The actions a whole queue produces on one tick, in append order.
pub open spec fn queue_plan(slots: Seq<SlotModel>, target: u64) -> Seq<ActionModel> {
    slots.map_values(|s: SlotModel| slot_action(s, target))
}

/// A whole queue after one tick has run it.
pub open spec fn queue_after_run(slots: Seq<SlotModel>) -> Seq<SlotModel> {
    slots.map_values(|s: SlotModel| slot_after_run(s))
}

/// Invoke one slot for the triggering object `target`: decide whether it must
/// be set up first (exactly when it has not been initialized before), mark it
/// initialized, and hand the host the action to perform. The flag flips
/// before the host runs anything, so a setup that fails in the host is not
/// retried on a later tick.
pub fn invoke_slot(slot: &mut ClickBehaviorKind, target: u64) -> (a: SlotAction)
    ensures
        a@ == slot_action(old(slot)@, target),
        final(slot)@ == slot_after_run(old(slot)@),
{
    match slot {
        ClickBehaviorKind::System { initialized, callable } => {
            let first = !*initialized;
            *initialized = true;
            SlotAction::RunSystem { callable: *callable, initialize: first }
        },
        ClickBehaviorKind::EntitySystem { initialized, callable } => {
            let first = !*initialized;
            *initialized = true;
            SlotAction::RunEntitySystem { callable: *callable, target, initialize: first }
        },
        ClickBehaviorKind::Cli { command } => {
            SlotAction::RunCli { command: command.clone() }
        },
    }
}

/// Run one taken queue for the Execute phase: every slot is invoked exactly
/// once, in append order, and the plan lists the host actions in that same
/// order. The slots keep their callables and come out initialized.
pub fn run_queue(target: u64, slots: &mut Vec<ClickBehaviorKind>) -> (plan: Vec<SlotAction>)
    ensures
        actions_view(plan@) == queue_plan(slots_view(old(slots)@), target),
        slots_view(final(slots)@) == queue_after_run(slots_view(old(slots)@)),
{
    let ghost slots0 = slots@;
    let mut plan: Vec<SlotAction> = Vec::new();
    let mut i: usize = 0;
    while i < slots.len()
        invariant
            i <= slots0.len(),
            slots@.len() == slots0.len(),
            forall|j: int| i <= j < slots0.len() ==> slots@[j] == slots0[j],
            forall|j: int| 0 <= j < i ==> slots@[j]@ == slot_after_run(slots0[j]@),
            plan@.len() == i,
            forall|j: int| 0 <= j < i ==> plan@[j]@ == slot_action(slots0[j]@, target),
        decreases slots0.len() - i,
    {
        let a = invoke_slot(&mut slots[i], target);
        plan.push(a);
        i += 1;
    }
    proof {
        assert(actions_view(plan@) =~= queue_plan(slots_view(slots0), target));
        assert(slots_view(slots@) =~= queue_after_run(slots_view(slots0)));
    }
    plan
}

/// The Collect step for one scanned object: when the object qualifies, its
/// queue is taken whole (left empty, under the host's change-suppressed
/// write) and buffered behind the objects collected before it; otherwise
/// nothing changes. Returns whether the object was collected.
pub fn collect_row(
    buffer: &mut Vec<(u64, Vec<ClickBehaviorKind>)>,
    id: u64,
    interaction: Interaction,
    fresh_change: bool,
    suppressed: bool,
    queue: &mut OnClick,
) -> (took: bool)
    ensures
        took == collects(interaction, fresh_change, suppressed),
        buffer_model(final(buffer)@) == if took {
            buffer_model(old(buffer)@).push((id, old(queue)@))
        } else {
            buffer_model(old(buffer)@)
        },
        final(queue)@ == if took { Seq::<SlotModel>::empty() } else { old(queue)@ },
{
    if should_collect(interaction, fresh_change, suppressed) {
        let taken = queue.take_actions();
        buffer.push((id, taken));
        proof {
            assert(buffer_model(buffer@) =~= buffer_model(old(buffer)@).push((id, old(queue)@)));
        }
        true
    } else {
        proof {
            assert(buffer_model(buffer@) =~= buffer_model(old(buffer)@));
        }
        false
    }
}

/// The model of the per-tick buffer: each collected object's id with the
/// models of its taken slots, in collection order.
pub open spec fn buffer_model(b: Seq<(u64, Vec<ClickBehaviorKind>)>) -> Seq<(u64, Seq<SlotModel>)> {
    b.map_values(|e: (u64, Vec<ClickBehaviorKind>)| (e.0, slots_view(e.1@)))
}

/// One object as the Scan phase sees it: its id, what the host reports about
/// its interaction this tick, and the model of its attached queue.
pub struct RowModel {
    pub id: u64,
    pub interaction: Interaction,
    pub fresh_change: bool,
    pub suppressed: bool,
    pub queue: Seq<SlotModel>,
}

/// Whether Scan collects this object.
pub open spec fn row_collects(r: RowModel) -> bool {
    collects(r.interaction, r.fresh_change, r.suppressed)
}

/// The objects one pass collects, in scan order.
pub open spec fn collected(rows: Seq<RowModel>) -> Seq<RowModel> {
    rows.filter(|r: RowModel| row_collects(r))
}

/// What Collect buffers for a scanned world: each collected object's id and
/// taken queue, in scan order.
pub open spec fn taken_entries(rows: Seq<RowModel>) -> Seq<(u64, Seq<SlotModel>)> {
    collected(rows).map_values(|r: RowModel| (r.id, r.queue))
}

/// One object as the host hands it to the Scan phase.
pub struct ScanRow {
    pub id: u64,
    pub interaction: Interaction,
    pub fresh_change: bool,
    pub suppressed: bool,
    pub queue: OnClick,
}

impl View for ScanRow {
    type V = RowModel;

    open spec fn view(&self) -> RowModel {
        RowModel {
            id: self.id,
            interaction: self.interaction,
            fresh_change: self.fresh_change,
            suppressed: self.suppressed,
            queue: self.queue@,
        }
    }
}

/// The models of a sequence of scanned objects.
pub open spec fn rows_view(v: Seq<ScanRow>) -> Seq<RowModel> {
    v.map_values(|r: ScanRow| r@)
}

/// Appending one more scanned object extends the collection by exactly that
/// object when it qualifies, and not at all otherwise.
proof fn lemma_collected_take_step(rows: Seq<RowModel>, i: int)
    requires
        0 <= i < rows.len(),
    ensures
        collected(rows.take(i + 1)) == if row_collects(rows[i]) {
            collected(rows.take(i)).push(rows[i])
        } else {
            collected(rows.take(i))
        },
{
    reveal(Seq::filter);
    assert(rows.take(i + 1).drop_last() =~= rows.take(i));
    assert(rows.take(i + 1).last() == rows[i]);
}

/// The whole Scan and Collect phase over a scanned world: walk the objects in
/// order, take the queue of every one that qualifies, leaving it empty, and
/// buffer the taken queues, keyed by object id, in scan order. Everything
/// else about every object is left untouched.
pub fn collect_pass(rows: &mut Vec<ScanRow>) -> (buffer: Vec<(u64, Vec<ClickBehaviorKind>)>)
    ensures
        buffer_model(buffer@) == taken_entries(rows_view(old(rows)@)),
        final(rows)@.len() == old(rows)@.len(),
        forall|i: int|
            0 <= i < old(rows)@.len() ==> #[trigger] final(rows)@[i]@ == (RowModel {
                id: old(rows)@[i]@.id,
                interaction: old(rows)@[i]@.interaction,
                fresh_change: old(rows)@[i]@.fresh_change,
                suppressed: old(rows)@[i]@.suppressed,
                queue: if row_collects(old(rows)@[i]@) {
                    Seq::<SlotModel>::empty()
                } else {
                    old(rows)@[i]@.queue
                },
            }),
{
    let ghost rows0 = rows@;
    let mut buffer: Vec<(u64, Vec<ClickBehaviorKind>)> = Vec::new();
    let mut i: usize = 0;
    proof {
        assert(buffer_model(buffer@) =~= taken_entries(rows_view(rows0.take(0))));
    }
    while i < rows.len()
        invariant
            i <= rows0.len(),
            rows@.len() == rows0.len(),
            forall|j: int| i <= j < rows0.len() ==> rows@[j] == rows0[j],
            forall|j: int|
                0 <= j < i ==> #[trigger] rows@[j]@ == (RowModel {
                    id: rows0[j]@.id,
                    interaction: rows0[j]@.interaction,
                    fresh_change: rows0[j]@.fresh_change,
                    suppressed: rows0[j]@.suppressed,
                    queue: if row_collects(rows0[j]@) {
                        Seq::<SlotModel>::empty()
                    } else {
                        rows0[j]@.queue
                    },
                }),
            buffer_model(buffer@) == taken_entries(rows_view(rows0.take(i as int))),
        decreases rows0.len() - i,
    {
        let id = rows[i].id;
        let interaction = rows[i].interaction;
        let fresh_change = rows[i].fresh_change;
        let suppressed = rows[i].suppressed;
        collect_row(&mut buffer, id, interaction, fresh_change, suppressed, &mut rows[i].queue);
        proof {
            lemma_collected_take_step(rows_view(rows0), i as int);
            assert(rows_view(rows0).take(i as int) =~= rows_view(rows0.take(i as int)));
            assert(rows_view(rows0).take(i + 1) =~= rows_view(rows0.take(i + 1)));
            assert(rows_view(rows0)[i as int] == rows0[i as int]@);
            if row_collects(rows0[i as int]@) {
                assert(taken_entries(rows_view(rows0.take(i + 1))) =~= taken_entries(
                    rows_view(rows0.take(i as int)),
                ).push((id, rows0[i as int]@.queue)));
            } else {
                assert(taken_entries(rows_view(rows0.take(i + 1))) =~= taken_entries(
                    rows_view(rows0.take(i as int)),
                ));
            }
        }
        i += 1;
    }
    proof {
        assert(rows0.take(rows0.len() as int) =~= rows0);
    }
    buffer
}

/// All actions that running the given objects back to back produces: each
/// object's queue plan in full, one object after the other, in order.
pub open spec fn tick_plan_of(qs: Seq<RowModel>) -> Seq<ActionModel>
    decreases qs.len(),
{
    if qs.len() == 0 {
        Seq::<ActionModel>::empty()
    } else {
        queue_plan(qs.first().queue, qs.first().id) + tick_plan_of(qs.drop_first())
    }
}

/// Everything one dispatch pass does, given the scanned objects: the actions
/// of the collected objects, in scan order, nothing else.
pub open spec fn tick_plan(rows: Seq<RowModel>) -> Seq<ActionModel> {
    tick_plan_of(collected(rows))
}

/// The actions that running a sequence of buffered entries produces, one
/// entry's queue in full after the other, as the Execute phase does.
pub open spec fn entries_plan(es: Seq<(u64, Seq<SlotModel>)>) -> Seq<ActionModel>
    decreases es.len(),
{
    if es.len() == 0 {
        Seq::<ActionModel>::empty()
    } else {
        queue_plan(es.first().1, es.first().0) + entries_plan(es.drop_first())
    }
}

proof fn lemma_entries_plan_of_map(qs: Seq<RowModel>)
    ensures
        entries_plan(qs.map_values(|r: RowModel| (r.id, r.queue))) == tick_plan_of(qs),
    decreases qs.len(),
{
    let es = qs.map_values(|r: RowModel| (r.id, r.queue));
    if qs.len() > 0 {
        lemma_entries_plan_of_map(qs.drop_first());
        assert(es.drop_first() =~= qs.drop_first().map_values(|r: RowModel| (r.id, r.queue)));
    }
}

/// Running the queues that Collect buffered, one object after the other in
/// buffer order, yields exactly the tick's plan for the scanned world.
pub proof fn lemma_buffer_runs_tick_plan(rows: Seq<RowModel>)
    ensures
        entries_plan(taken_entries(rows)) == tick_plan(rows),
{
    lemma_entries_plan_of_map(collected(rows));
    assert(taken_entries(rows) =~= collected(rows).map_values(|r: RowModel| (r.id, r.queue)));
}

/// Where object `k`'s actions start inside `tick_plan_of(qs)`: the total
/// length of the queues before it.
pub open spec fn plan_offset(qs: Seq<RowModel>, k: int) -> int
    decreases k,
{
    if k <= 0 {
        0
    } else {
        qs.first().queue.len() + plan_offset(qs.drop_first(), k - 1)
    }
}

/// The plan of a tick is exactly as long as the queues it collected.
pub proof fn lemma_plan_total_len(qs: Seq<RowModel>)
    ensures
        tick_plan_of(qs).len() == plan_offset(qs, qs.len() as int),
        0 <= plan_offset(qs, qs.len() as int),
    decreases qs.len(),
{
    if qs.len() > 0 {
        lemma_plan_total_len(qs.drop_first());
    }
}

/// The actions of the `k`-th collected object form one contiguous block of
/// the tick's plan, starting where the previous object's block ended; inside
/// the block, the `j`-th action is the one invocation of the `j`-th slot that
/// was taken from its queue. So every taken slot runs exactly once, never
/// twice, in append order, and no two objects' slots interleave.
pub proof fn lemma_fire_once_in_order(qs: Seq<RowModel>, k: int)
    requires
        0 <= k < qs.len(),
    ensures
        0 <= plan_offset(qs, k),
        plan_offset(qs, k + 1) == plan_offset(qs, k) + qs[k].queue.len(),
        plan_offset(qs, k + 1) <= tick_plan_of(qs).len(),
        forall|j: int|
            0 <= j < qs[k].queue.len() ==> tick_plan_of(qs)[plan_offset(qs, k) + j]
                == slot_action(qs[k].queue[j], qs[k].id),
    decreases k,
{
    lemma_plan_total_len(qs);
    let head = queue_plan(qs.first().queue, qs.first().id);
    let rest = tick_plan_of(qs.drop_first());
    assert(tick_plan_of(qs) == head + rest);
    if k == 0 {
        assert(plan_offset(qs, 1) == qs.first().queue.len() + plan_offset(qs.drop_first(), 0));
        assert(rest.len() >= 0);
        assert forall|j: int| 0 <= j < qs[0].queue.len() implies tick_plan_of(qs)[plan_offset(
            qs,
            0,
        ) + j] == slot_action(qs[0].queue[j], qs[0].id) by {
            assert(tick_plan_of(qs)[j] == head[j]);
        }
    } else {
        lemma_fire_once_in_order(qs.drop_first(), k - 1);
        lemma_plan_total_len(qs.drop_first());
        assert(qs.drop_first()[k - 1] == qs[k]);
        assert(plan_offset(qs, k) == qs.first().queue.len() + plan_offset(qs.drop_first(), k - 1));
        assert(plan_offset(qs, k + 1) == qs.first().queue.len() + plan_offset(qs.drop_first(), k));
        assert forall|j: int| 0 <= j < qs[k].queue.len() implies tick_plan_of(qs)[plan_offset(
            qs,
            k,
        ) + j] == slot_action(qs[k].queue[j], qs[k].id) by {
            assert(tick_plan_of(qs)[head.len() + plan_offset(qs.drop_first(), k - 1) + j]
                == rest[plan_offset(qs.drop_first(), k - 1) + j]);
        }
    }
}

/// An object that qualifies this tick is always collected, so a pressed
/// object's slots never silently stay unrun.
pub proof fn lemma_pressed_row_collected(rows: Seq<RowModel>, i: int)
    requires
        0 <= i < rows.len(),
        row_collects(rows[i]),
    ensures
        collected(rows).contains(rows[i]),
    decreases rows.len(),
{
    reveal(Seq::filter);
    if i == rows.len() - 1 {
        assert(collected(rows).last() == rows[i]);
    } else {
        lemma_pressed_row_collected(rows.drop_last(), i);
        let sub = collected(rows.drop_last());
        assert(rows.drop_last()[i] == rows[i]);
        let j = choose|j: int| 0 <= j < sub.len() && sub[j] == rows[i];
        assert(collected(rows)[j] == rows[i]);
    }
}

/// Every collected object qualifies: fresh change, pressed, not suppressed.
pub proof fn lemma_collected_collects(rows: Seq<RowModel>, m: int)
    requires
        0 <= m < collected(rows).len(),
    ensures
        row_collects(collected(rows)[m]),
    decreases rows.len(),
{
    reveal(Seq::filter);
    if rows.len() > 0 {
        let sub = collected(rows.drop_last());
        if m < sub.len() {
            lemma_collected_collects(rows.drop_last(), m);
            assert(collected(rows)[m] == sub[m]);
        }
    }
}

/// Every collected object comes from the scanned world.
pub proof fn lemma_collected_from_rows(rows: Seq<RowModel>, m: int)
    requires
        0 <= m < collected(rows).len(),
    ensures
        exists|n: int| 0 <= n < rows.len() && rows[n] == collected(rows)[m],
    decreases rows.len(),
{
    reveal(Seq::filter);
    if rows.len() > 0 {
        let sub = collected(rows.drop_last());
        if m < sub.len() {
            lemma_collected_from_rows(rows.drop_last(), m);
            let n = choose|n: int|
                0 <= n < rows.drop_last().len() && rows.drop_last()[n] == sub[m];
            assert(collected(rows)[m] == sub[m]);
            assert(rows[n] == collected(rows)[m]);
        } else {
            assert(rows[rows.len() - 1] == collected(rows)[m]);
        }
    }
}

/// An object carrying the disabled marker is never collected, whatever its
/// interaction state, so none of its slots is ever invoked this tick.
pub proof fn lemma_suppressed_never_collected(rows: Seq<RowModel>, i: int, m: int)
    requires
        0 <= i < rows.len(),
        rows[i].suppressed,
        0 <= m < collected(rows).len(),
        forall|a: int, b: int| 0 <= a < b < rows.len() ==> rows[a].id != rows[b].id,
    ensures
        collected(rows)[m].id != rows[i].id,
{
    lemma_collected_collects(rows, m);
    lemma_collected_from_rows(rows, m);
    let n = choose|n: int| 0 <= n < rows.len() && rows[n] == collected(rows)[m];
    if n == i {
        assert(row_collects(rows[i]));
        assert(false);
    }
}

/// A slot after `n` further invocations.
pub open spec fn slot_after_runs(s: SlotModel, n: nat) -> SlotModel
    decreases n,
{
    if n == 0 {
        s
    } else {
        slot_after_run(slot_after_runs(s, (n - 1) as nat))
    }
}

/// Whether an action asks the host to set the callable up before running it.
pub open spec fn action_initializes(a: ActionModel) -> bool {
    match a {
        ActionModel::RunSystem { initialize, .. } => initialize,
        ActionModel::RunEntitySystem { initialize, .. } => initialize,
        ActionModel::RunCli { .. } => false,
    }
}

/// Two slots are the same behavior when only their `initialized` flags may
/// differ.
pub open spec fn same_behavior(a: SlotModel, b: SlotModel) -> bool {
    match (a, b) {
        (SlotModel::System { callable: c1, .. }, SlotModel::System { callable: c2, .. }) => c1
            == c2,
        (
            SlotModel::EntitySystem { callable: c1, .. },
            SlotModel::EntitySystem { callable: c2, .. },
        ) => c1 == c2,
        (SlotModel::Cli { command: c1 }, SlotModel::Cli { command: c2 }) => c1 == c2,
        _ => false,
    }
}

/// One invocation asks for setup exactly when the slot has not been
/// initialized yet, and leaves it initialized.
pub proof fn lemma_invoke_initializes_iff(s: SlotModel, target: u64)
    ensures
        action_initializes(slot_action(s, target)) == !slot_initialized(s),
        slot_initialized(slot_after_run(s)),
        same_behavior(s, slot_after_run(s)),
{
}

/// Over any number `n` of successive invocations of one slot, each
/// invocation runs the same behavior — so `n` invocations run it `n` times —
/// and setup is asked for at most once: on the first invocation, and exactly
/// then when the slot starts uninitialized; never again after.
pub proof fn lemma_init_once(s: SlotModel, target: u64, n: nat)
    ensures
        action_initializes(slot_action(slot_after_runs(s, 0), target)) == !slot_initialized(s),
        forall|i: nat|
            1 <= i < n ==> !action_initializes(
                #[trigger] slot_action(slot_after_runs(s, i), target),
            ),
        forall|i: nat| i < n ==> same_behavior(s, #[trigger] slot_after_runs(s, i)),
    decreases n,
{
    if n > 0 {
        lemma_init_once(s, target, (n - 1) as nat);
        assert forall|i: nat|
            1 <= i < n implies !action_initializes(
            #[trigger] slot_action(slot_after_runs(s, i), target),
        ) by {
            assert(slot_after_runs(s, i) == slot_after_run(slot_after_runs(s, (i - 1) as nat)));
            lemma_invoke_initializes_iff(slot_after_runs(s, (i - 1) as nat), target);
            lemma_invoke_initializes_iff(slot_after_runs(s, i), target);
        }
        assert forall|i: nat| i < n implies same_behavior(s, #[trigger] slot_after_runs(s, i)) by {
            if i > 0 {
                assert(slot_after_runs(s, i) == slot_after_run(
                    slot_after_runs(s, (i - 1) as nat),
                ));
                lemma_invoke_initializes_iff(slot_after_runs(s, (i - 1) as nat), target);
            }
        }
    }
}

/// The tick runs exactly one action per taken slot, so a slot appended to
/// the live queue while the taken snapshot runs contributes no action this
/// tick; writeback places the appended slots behind the executed ones, where
/// a later trigger will take them.
pub proof fn lemma_appended_slots_run_later(
    taken: Seq<SlotModel>,
    appended: Seq<SlotModel>,
    target: u64,
)
    ensures
        queue_plan(taken, target).len() == taken.len(),
        (queue_after_run(taken) + appended).skip(taken.len() as int) == appended,
        (queue_after_run(taken) + appended).take(taken.len() as int) == queue_after_run(taken),
{
    assert((queue_after_run(taken) + appended).skip(taken.len() as int) =~= appended);
    assert((queue_after_run(taken) + appended).take(taken.len() as int) =~= queue_after_run(
        taken,
    ));
}

} // verus!

