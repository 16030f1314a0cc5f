//! Deferred presentation commands and their safe application order.

use vstd::prelude::*;

verus! {

/// Logical kind of a view; the mapping to a concrete scene belongs to the engine side.
#[derive(Clone, Copy, Debug, PartialEq, Eq, Hash, Structural)]
pub enum ViewKind {
    Player,
    Enemy,
}

/// Data needed to create the view of an entity.
#[derive(Clone, Copy, Debug)]
pub struct SpawnView<T> {
    pub entity: u64,
    pub kind: ViewKind,
    pub transform: T,
}

/// Final transform that must reach an existing view.
#[derive(Clone, Copy, Debug)]
pub struct TransformUpdate<T> {
    pub entity: u64,
    pub transform: T,
}

/// One visual intent produced by the model.
#[derive(Clone, Copy, Debug)]
pub enum ViewCommand<T> {
    Spawn(SpawnView<T>),
    SetTransform(TransformUpdate<T>),
    Despawn(u64),
}

impl<T> ViewCommand<T> {
    /// Application priority: create, then update, then remove.
    pub open spec fn phase_of(self) -> u8 {
        match self {
            ViewCommand::Spawn(_) => 0,
            ViewCommand::SetTransform(_) => 1,
            ViewCommand::Despawn(_) => 2,
        }
    }

    /// Application priority of the command (spawn 0, transform 1, despawn 2).
    pub fn phase(&self) -> (phase: u8)
        ensures
            phase == self.phase_of(),
            *self is Spawn ==> phase == 0,
            *self is SetTransform ==> phase == 1,
            *self is Despawn ==> phase == 2,
    {
        match self {
            ViewCommand::Spawn(_) => 0,
            ViewCommand::SetTransform(_) => 1,
            ViewCommand::Despawn(_) => 2,
        }
    }
}

/// The commands of `queue` whose phase is `phase`, in queue order.
pub open spec fn commands_in_phase<T>(queue: Seq<ViewCommand<T>>, phase: u8) -> Seq<ViewCommand<T>> {
    queue.filter(|c: ViewCommand<T>| c.phase_of() == phase)
}

/// The queue reordered by phase, keeping the queue order inside each phase.
pub open spec fn ordered_by_phase<T>(queue: Seq<ViewCommand<T>>) -> Seq<ViewCommand<T>> {
    commands_in_phase(queue, 0) + commands_in_phase(queue, 1) + commands_in_phase(queue, 2)
}

/// Applying commands in `ordered_by_phase` order never applies a command of a
/// later phase before one of an earlier phase: spawns come first, despawns last.
pub proof fn lemma_ordered_by_phase_is_sorted<T>(queue: Seq<ViewCommand<T>>)
    ensures
        forall|i: int, j: int|
            0 <= i <= j < ordered_by_phase(queue).len() ==> #[trigger] ordered_by_phase(queue)[i].phase_of()
                <= #[trigger] ordered_by_phase(queue)[j].phase_of(),
{
    broadcast use vstd::seq_lib::group_filter_ensures;

    let a = commands_in_phase(queue, 0);
    let b = commands_in_phase(queue, 1);
    let c = commands_in_phase(queue, 2);
    let o = ordered_by_phase(queue);
    assert forall|k: int| 0 <= k < o.len() implies (#[trigger] o[k]).phase_of() == (if k < a.len() {
        0u8
    } else if k < a.len() + b.len() {
        1u8
    } else {
        2u8
    }) by {
        if k < a.len() {
            assert(o[k] == a[k]);
        } else if k < a.len() + b.len() {
            assert(o[k] == b[k - a.len()]);
        } else {
            assert(o[k] == c[k - a.len() - b.len()]);
        }
    }
}

/// Ordering by phase loses and duplicates nothing: the result holds exactly
/// the recorded commands, each as many times as it was recorded.
pub proof fn lemma_ordered_by_phase_is_permutation<T>(queue: Seq<ViewCommand<T>>)
    ensures
        ordered_by_phase(queue).to_multiset() == queue.to_multiset(),
    decreases queue.len(),
{
    broadcast use vstd::multiset::group_multiset_axioms;
    broadcast use vstd::seq_lib::group_to_multiset_ensures;
    broadcast use vstd::seq_lib::lemma_multiset_commutative;

    reveal(Seq::filter);
    if queue.len() == 0 {
        assert(ordered_by_phase(queue) =~= queue);
    } else {
        let rest = queue.drop_last();
        let x = queue.last();
        lemma_ordered_by_phase_is_permutation(rest);
        assert(rest.push(x) =~= queue);
        let a = commands_in_phase(rest, 0);
        let b = commands_in_phase(rest, 1);
        let c = commands_in_phase(rest, 2);
        assert(ordered_by_phase(rest).to_multiset() =~= a.to_multiset().add(b.to_multiset()).add(
            c.to_multiset(),
        ));
        assert(ordered_by_phase(queue).to_multiset() =~= ordered_by_phase(rest).to_multiset().insert(
            x,
        )) by {
            let a2 = commands_in_phase(queue, 0);
            let b2 = commands_in_phase(queue, 1);
            let c2 = commands_in_phase(queue, 2);
            assert(ordered_by_phase(queue).to_multiset() =~= a2.to_multiset().add(
                b2.to_multiset(),
            ).add(c2.to_multiset()));
        }
    }
}

/// The phase of a command depends only on its kind, whatever entity or
/// payload it carries: every spawn has phase 0, every transform update 1,
/// every despawn 2.
pub proof fn lemma_phase_depends_only_on_kind<T>(command: ViewCommand<T>)
    ensures
        command is Spawn ==> command.phase_of() == 0,
        command is SetTransform ==> command.phase_of() == 1,
        command is Despawn ==> command.phase_of() == 2,
{
}

/// Ordering by phase yields all spawns, then all transform updates, then
/// all despawns, each kind in recording order.
pub proof fn lemma_ordered_by_phase_groups_kinds<T>(queue: Seq<ViewCommand<T>>)
    ensures
        ordered_by_phase(queue) == queue.filter(|c: ViewCommand<T>| c is Spawn) + queue.filter(
            |c: ViewCommand<T>| c is SetTransform,
        ) + queue.filter(|c: ViewCommand<T>| c is Despawn),
{
    let p0 = |c: ViewCommand<T>| c.phase_of() == 0;
    let p1 = |c: ViewCommand<T>| c.phase_of() == 1;
    let p2 = |c: ViewCommand<T>| c.phase_of() == 2;
    let k0 = |c: ViewCommand<T>| c is Spawn;
    let k1 = |c: ViewCommand<T>| c is SetTransform;
    let k2 = |c: ViewCommand<T>| c is Despawn;
    assert(p0 =~= k0);
    assert(p1 =~= k1);
    assert(p2 =~= k2);
    assert(commands_in_phase(queue, 0) == queue.filter(k0));
    assert(commands_in_phase(queue, 1) == queue.filter(k1));
    assert(commands_in_phase(queue, 2) == queue.filter(k2));
}

/// In the ordered sequence no despawn comes before a transform update or a
/// spawn, and no transform update comes before a spawn.
pub proof fn lemma_ordered_by_phase_kind_order<T>(queue: Seq<ViewCommand<T>>)
    ensures
        forall|i: int, j: int|
            0 <= i < j < ordered_by_phase(queue).len() ==> {
                &&& (#[trigger] ordered_by_phase(queue)[j] is Spawn ==> ordered_by_phase(queue)[i] is Spawn)
                &&& (ordered_by_phase(queue)[j] is SetTransform ==> !(#[trigger] ordered_by_phase(queue)[i] is Despawn))
            },
{
    lemma_ordered_by_phase_is_sorted(queue);
    let o = ordered_by_phase(queue);
    assert forall|i: int, j: int| 0 <= i < j < o.len() implies {
        &&& (#[trigger] o[j] is Spawn ==> o[i] is Spawn)
        &&& (o[j] is SetTransform ==> !(#[trigger] o[i] is Despawn))
    } by {
        assert(o[i].phase_of() <= o[j].phase_of());
    }
}

/// Deferred presentation proxy: systems record intents, which are taken out
/// and applied after the schedule has run.
pub struct PresentationCommands<T> {
    queue: Vec<ViewCommand<T>>,
}

impl<T> View for PresentationCommands<T> {
    type V = Seq<ViewCommand<T>>;

    closed spec fn view(&self) -> Seq<ViewCommand<T>> {
        self.queue@
    }
}

impl<T> PresentationCommands<T> {
    /// An empty queue.
    pub fn new() -> (commands: Self)
        ensures
            commands@ == Seq::<ViewCommand<T>>::empty(),
    {
        PresentationCommands { queue: Vec::new() }
    }

    /// Records the intent to create a view for `entity`.
    pub fn spawn_view(&mut self, entity: u64, kind: ViewKind, transform: T)
        ensures
            final(self)@ == old(self)@.push(
                ViewCommand::Spawn(SpawnView { entity, kind, transform }),
            ),
    {
        self.queue.push(ViewCommand::Spawn(SpawnView { entity, kind, transform }));
    }

    /// Records the final transform that must reach the view of `entity`.
    pub fn set_transform(&mut self, entity: u64, transform: T)
        ensures
            final(self)@ == old(self)@.push(
                ViewCommand::SetTransform(TransformUpdate { entity, transform }),
            ),
    {
        self.queue.push(ViewCommand::SetTransform(TransformUpdate { entity, transform }));
    }

    /// Records the intent to remove the view of `entity`.
    pub fn despawn_view(&mut self, entity: u64)
        ensures
            final(self)@ == old(self)@.push(ViewCommand::Despawn(entity)),
    {
        self.queue.push(ViewCommand::Despawn(entity));
    }

    /// Number of recorded commands.
    pub fn len(&self) -> (n: usize)
        ensures
            n == self@.len(),
    {
        self.queue.len()
    }
}

impl<T: Copy> PresentationCommands<T> {
    /// Moves every command out, leaving the queue empty. The result is
    /// ordered Spawn, then SetTransform, then Despawn, and keeps the
    /// recording order inside each phase.
    pub fn take_ordered(&mut self) -> (ordered: Vec<ViewCommand<T>>)
        ensures
            final(self)@ == Seq::<ViewCommand<T>>::empty(),
            ordered@ == ordered_by_phase(old(self)@),
            ordered@ == old(self)@.filter(|c: ViewCommand<T>| c is Spawn) + old(self)@.filter(
                |c: ViewCommand<T>| c is SetTransform,
            ) + old(self)@.filter(|c: ViewCommand<T>| c is Despawn),
    {
        proof {
            lemma_ordered_by_phase_groups_kinds(self.queue@);
        }
        let mut queue: Vec<ViewCommand<T>> = Vec::new();
        std::mem::swap(&mut queue, &mut self.queue);
        let ghost original = queue@;
        let mut ordered: Vec<ViewCommand<T>> = Vec::new();
        let mut phase: u8 = 0;
        while phase < 3
            invariant
                queue@ == original,
                phase <= 3,
                phase == 0 ==> ordered@ == Seq::<ViewCommand<T>>::empty(),
                phase == 1 ==> ordered@ == commands_in_phase(original, 0),
                phase == 2 ==> ordered@ == commands_in_phase(original, 0) + commands_in_phase(
                    original,
                    1,
                ),
                phase == 3 ==> ordered@ == ordered_by_phase(original),
            decreases 3 - phase,
        {
            let ghost before = ordered@;
            let mut i: usize = 0;
            while i < queue.len()
                invariant
                    queue@ == original,
                    phase < 3,
                    i <= queue@.len(),
                    ordered@ == before + commands_in_phase(original.take(i as int), phase),
                decreases queue@.len() - i,
            {
                let command = queue[i];
                proof {
                    reveal(Seq::filter);
                    assert(original.take(i + 1).drop_last() =~= original.take(i as int));
                    assert(original.take(i + 1).last() == command);
                }
                if command.phase() == phase {
                    ordered.push(command);
                    proof {
                        assert(ordered@ =~= before + commands_in_phase(
                            original.take(i + 1),
                            phase,
                        ));
                    }
                }
                i = i + 1;
            }
            proof {
                assert(original.take(queue@.len() as int) =~= original);
            }
            phase = phase + 1;
        }
        ordered
    }
}

impl<T> Default for PresentationCommands<T> {
    fn default() -> (commands: Self)
        ensures
            commands@ == Seq::<ViewCommand<T>>::empty(),
    {
        PresentationCommands::new()
    }
}

} // verus!
