//! The click-behavior queue: one `OnClick` per interactive object, holding an
//! ordered list of deferred behaviors that the dispatch pass runs on a press.
use vstd::prelude::*;

verus! {

/// Ordering label for the whole dispatch pass; the host scheduler uses it to
/// place this pass before or after other passes. Carries no runtime state.
#[derive(Clone, Copy, Debug, PartialEq, Eq, Hash)]
pub struct ClickHandlerSet;

/// Interaction state of an object, as the host reports it each tick.
#[derive(Clone, Copy, Debug, PartialEq, Eq, Structural)]
pub enum Interaction {
    /// The object is being pressed.
    Pressed,
    /// The pointer hovers over the object.
    Hovered,
    /// No interaction.
    Idle,
}

/// One deferred unit of work attached to an object. The host keeps the actual
/// callables and addresses them by handle; the engine only decides when each
/// handle is initialized and run.
pub enum ClickBehaviorKind {
    /// A zero-argument behavior. `initialized` is false until just before the
    /// first run, and true ever after.
    System { initialized: bool, callable: u64 },
    /// A behavior that receives the triggering object's id when run.
    EntitySystem { initialized: bool, callable: u64 },
    /// An opaque command line, forwarded verbatim to an external interpreter.
    Cli { command: String },
}

/// Mathematical model of one slot.
pub enum SlotModel {
    System { initialized: bool, callable: u64 },
    EntitySystem { initialized: bool, callable: u64 },
    Cli { command: Seq<char> },
}

impl View for ClickBehaviorKind {
    type V = SlotModel;

    open spec fn view(&self) -> SlotModel {
        match self {
            ClickBehaviorKind::System { initialized, callable } => SlotModel::System {
                initialized: *initialized,
                callable: *callable,
            },
            ClickBehaviorKind::EntitySystem { initialized, callable } => SlotModel::EntitySystem {
                initialized: *initialized,
                callable: *callable,
            },
            ClickBehaviorKind::Cli { command } => SlotModel::Cli { command: command@ },
        }
    }
}

/// The models of a sequence of slots.
pub open spec fn slots_view(v: Seq<ClickBehaviorKind>) -> Seq<SlotModel> {
    v.map_values(|s: ClickBehaviorKind| s@)
}

/// Ordered queue of click behaviors attached to one interactive object.
/// Builder methods only append; the dispatch pass takes the whole queue,
/// runs it in order, and writes it back.
pub struct OnClick {
    actions: Vec<ClickBehaviorKind>,
}

impl View for OnClick {
    type V = Seq<SlotModel>;

    closed spec fn view(&self) -> Seq<SlotModel> {
        slots_view(self.actions@)
    }
}

impl OnClick {
    /// An empty queue.
    pub fn new() -> (r: OnClick)
        ensures
            r@ == Seq::<SlotModel>::empty(),
    {
        let r = OnClick { actions: Vec::new() };
        proof {
            assert(r@ =~= Seq::<SlotModel>::empty());
        }
        r
    }

    /// Append a zero-argument behavior, given by its host-side handle.
    pub fn system(self, callable: u64) -> (r: OnClick)
        ensures
            r@ == self@.push(SlotModel::System { initialized: false, callable }),
    {
        let mut actions = self.actions;
        actions.push(ClickBehaviorKind::System { initialized: false, callable });
        let r = OnClick { actions };
        proof {
            assert(r@ =~= self@.push(SlotModel::System { initialized: false, callable }));
        }
        r
    }

    /// Append a behavior that will receive the triggering object's id.
    pub fn entity_system(self, callable: u64) -> (r: OnClick)
        ensures
            r@ == self@.push(SlotModel::EntitySystem { initialized: false, callable }),
    {
        let mut actions = self.actions;
        actions.push(ClickBehaviorKind::EntitySystem { initialized: false, callable });
        let r = OnClick { actions };
        proof {
            assert(r@ =~= self@.push(SlotModel::EntitySystem { initialized: false, callable }));
        }
        r
    }

    /// Append a command for the external command interpreter.
    pub fn cli(self, cli: &str) -> (r: OnClick)
        ensures
            r@ == self@.push(SlotModel::Cli { command: cli@ }),
    {
        let mut actions = self.actions;
        actions.push(ClickBehaviorKind::Cli { command: cli.to_owned() });
        let r = OnClick { actions };
        proof {
            assert(r@ =~= self@.push(SlotModel::Cli { command: cli@ }));
        }
        r
    }

    /// Number of queued slots.
    pub fn len(&self) -> (n: usize)
        ensures
            n == self@.len(),
    {
        self.actions.len()
    }

    /// The slot at position `i`.
    pub fn action_at(&self, i: usize) -> (s: &ClickBehaviorKind)
        requires
            i < self@.len(),
        ensures
            s@ == self@[i as int],
    {
        &self.actions[i]
    }

    /// Take the whole queue out, leaving the queue empty. The dispatch pass
    /// calls this during Collect, under the host's change-suppressed write,
    /// so that the take itself does not retrigger dispatch.
    pub fn take_actions(&mut self) -> (taken: Vec<ClickBehaviorKind>)
        ensures
            slots_view(taken@) == old(self)@,
            final(self)@ == Seq::<SlotModel>::empty(),
    {
        let mut taken: Vec<ClickBehaviorKind> = Vec::new();
        core::mem::swap(&mut taken, &mut self.actions);
        proof {
            assert(self@ =~= Seq::<SlotModel>::empty());
        }
        taken
    }

    /// Write an executed slot list back after its object's slots have run:
    /// the executed slots come first, and any slots that were appended to the
    /// live queue while they ran stay behind them, to run on a later trigger.
    /// The host performs this under the same change-suppressed write as the take.
    pub fn write_back(&mut self, run: Vec<ClickBehaviorKind>)
        ensures
            final(self)@ == slots_view(run@) + old(self)@,
    {
        let ghost rest0 = self.actions@;
        let mut actions = run;
        let ghost run0 = actions@;
        actions.append(&mut self.actions);
        self.actions = actions;
        proof {
            lemma_slots_view_concat(run0, rest0);
        }
    }
}

impl Default for OnClick {
    /// An empty queue.
    fn default() -> (r: OnClick)
        ensures
            r@ == Seq::<SlotModel>::empty(),
    {
        OnClick::new()
    }
}

/// The model of a concatenation is the concatenation of the models.
pub proof fn lemma_slots_view_concat(a: Seq<ClickBehaviorKind>, b: Seq<ClickBehaviorKind>)
    ensures
        slots_view(a + b) == slots_view(a) + slots_view(b),
{
    assert(slots_view(a + b) =~= slots_view(a) + slots_view(b));
}

} // verus!
