//! Bookkeeping of recurrent states by id.
//!
//! A runtime keeps one recurrent state on the device. Each request names the
//! state id it continues; when that id differs from the one on the device,
//! the device state is backed up to the host under the current id, and the
//! backup of the requested id (or a fresh state if there is none) is loaded.
//! [`StateStore`] holds the current id and the host-side backups; the device
//! transfers themselves are made by the caller.
use std::collections::HashMap;
use vstd::prelude::*;

verus! {

broadcast use vstd::std_specs::hash::group_hash_axioms;

/// An identifier of a conversation's recurrent state.
#[derive(Debug, Clone, Copy, PartialEq, Eq, Hash, Structural)]
pub struct StateId {
    id: usize,
}

/// Asks `uid::Id::new` for a fresh identifier and returns its integer value.
/// The crate documents the value as non-zero and distinct from every earlier
/// one; only the first is stated here, as uniqueness is a fact about the
/// process-wide counter rather than about one call.
#[verifier::external_body]
fn fresh_id() -> (id: usize)
    ensures
        id != 0,
{
    uid::Id::<StateId>::new().get()
}

impl StateId {
    /// The integer behind the id.
    pub closed spec fn value(self) -> usize {
        self.id
    }

    /// A new, unused state id.
    pub fn new() -> (r: Self)
        ensures
            r.value() != 0,
    {
        StateId { id: fresh_id() }
    }

    /// The integer behind the id.
    pub fn get(&self) -> (r: usize)
        ensures
            r == self.value(),
    {
        self.id
    }
}

impl Default for StateId {
    /// A new, unused state id, as [`StateId::new`].
    fn default() -> (r: Self)
        ensures
            r.value() != 0,
    {
        StateId::new()
    }
}

/// The id of the state on the device, and the host-side backups of states
/// by id.
pub struct StateStore<B> {
    current: StateId,
    backed: HashMap<usize, B>,
}

/// The abstract content of a [`StateStore`].
pub struct StoreView<B> {
    /// The id of the state now on the device.
    pub current: usize,
    /// The backups held on the host, by id.
    pub backed: Map<usize, B>,
}

/// The store after the device state has been backed up as `b`.
pub open spec fn backed_up<B>(s: StoreView<B>, b: B) -> StoreView<B> {
    StoreView { current: s.current, backed: s.backed.insert(s.current, b) }
}

/// The store after `id` has become the state on the device.
pub open spec fn selected<B>(s: StoreView<B>, id: usize) -> StoreView<B> {
    StoreView { current: id, backed: s.backed }
}

/// What a checkout of `id` loads onto the device: the backup held for `id`,
/// or `None` when a fresh state must be loaded.
pub open spec fn restored<B>(s: StoreView<B>, id: usize) -> Option<B> {
    if s.backed.contains_key(id) {
        Some(s.backed[id])
    } else {
        None
    }
}

/// The whole checkout of `id` from `s`, the device state being backed up as
/// `b` first; nothing changes when `id` is already on the device.
pub open spec fn checked_out<B>(s: StoreView<B>, id: usize, b: B) -> StoreView<B> {
    if s.current == id {
        s
    } else {
        selected(backed_up(s, b), id)
    }
}

impl<B> View for StateStore<B> {
    type V = StoreView<B>;

    /// The current id and the backups.
    closed spec fn view(&self) -> StoreView<B> {
        StoreView { current: self.current.id, backed: self.backed@ }
    }
}

impl<B> StateStore<B> {
    /// A store whose device state is `current`, with no backups.
    pub fn new(current: StateId) -> (r: Self)
        ensures
            r.view().current == current.value(),
            r.view().backed == Map::<usize, B>::empty(),
    {
        StateStore { current, backed: HashMap::new() }
    }

    /// The id of the state on the device.
    pub fn current(&self) -> (r: StateId)
        ensures
            r.value() == self.view().current,
    {
        self.current
    }

    /// Whether a request for `id` has to swap the device state.
    pub fn needs_checkout(&self, id: &StateId) -> (r: bool)
        ensures
            r == (self.view().current != id.value()),
    {
        self.current.id != id.id
    }

    /// Records `backed` as the backup of the state now on the device.
    pub fn back(&mut self, backed: B)
        ensures
            final(self).view() == backed_up(old(self).view(), backed),
    {
        let key = self.current.id;
        self.backed.insert(key, backed);
    }

    /// Makes `id` the state on the device.
    pub fn select(&mut self, id: StateId)
        ensures
            final(self).view() == selected(old(self).view(), id.value()),
    {
        self.current = id;
    }

    /// Checks out `id`, `device_backup` being the state now on the device:
    /// when `id` is not on the device, the backup is recorded for the current
    /// id and `id` becomes current; when it is, nothing changes.
    pub fn switch_to(&mut self, id: StateId, device_backup: B)
        ensures
            final(self).view() == checked_out(old(self).view(), id.value(), device_backup),
    {
        if self.current.id != id.id {
            self.back(device_backup);
            self.select(id);
        }
    }

    /// The backup held for `id`, if any.
    pub fn backed_state(&self, id: &StateId) -> (r: Option<&B>)
        ensures
            match r {
                Some(b) => restored(self.view(), id.value()) == Some(*b),
                None => restored(self.view(), id.value()) is None,
            },
    {
        self.backed.get(&id.id)
    }
}

/// A state left by a checkout is what a checkout of its id restores: after
/// switching from the current id to `c`, backing the device state up as `b`,
/// the backup held for the id that was left is `b`.
pub proof fn law_checkout_restores_backup<B>(s: StoreView<B>, c: usize, b: B)
    requires
        s.current != c,
    ensures
        restored(checked_out(s, c, b), s.current) == Some(b),
        checked_out(s, c, b).current == c,
{
}

/// A round trip: from `a`, checking out `c` and then `a` again brings back the
/// state that was on the device when `a` was left, and keeps the one that
/// `c` had as its backup.
pub proof fn law_round_trip<B>(s: StoreView<B>, c: usize, b_a: B, b_c: B)
    requires
        s.current != c,
    ensures
        ({
            let t = checked_out(s, c, b_a);
            &&& restored(t, s.current) == Some(b_a)
            &&& checked_out(t, s.current, b_c).current == s.current
            &&& restored(checked_out(t, s.current, b_c), c) == Some(b_c)
        }),
{
}

/// Checking out the id already on the device changes nothing.
pub proof fn law_checkout_same_id_is_identity<B>(s: StoreView<B>, b: B)
    ensures
        checked_out(s, s.current, b) == s,
{
}

/// A checkout only ever adds or replaces the backup of the id it leaves:
/// every other backup is kept.
pub proof fn law_checkout_keeps_other_backups<B>(s: StoreView<B>, id: usize, b: B, other: usize)
    requires
        other != s.current,
    ensures
        restored(checked_out(s, id, b), other) == restored(s, other),
{
}

/// The state conversation `id` is in: the device state when `id` is on the
/// device, else its backup, else the initial state `init`.
pub open spec fn state_of<B>(s: StoreView<B>, device: B, init: B, id: usize) -> B {
    if id == s.current {
        device
    } else if s.backed.contains_key(id) {
        s.backed[id]
    } else {
        init
    }
}

/// One request on `id`: a checkout of `id` (backing up the device state,
/// then loading the backup of `id`, or `init` when there is none), after
/// which the model turns the device state `d` into `step(d)`. Returns the
/// new store and device state.
pub open spec fn run_on<B>(
    s: StoreView<B>,
    device: B,
    init: B,
    id: usize,
    step: spec_fn(B) -> B,
) -> (StoreView<B>, B) {
    if s.current == id {
        (s, step(device))
    } else {
        let t = checked_out(s, id, device);
        let loaded = match restored(t, id) {
            Some(b) => b,
            None => init,
        };
        (t, step(loaded))
    }
}

/// A series of requests, each an id and what the model does to its state,
/// made in order.
pub open spec fn run_all<B>(
    s: StoreView<B>,
    device: B,
    init: B,
    runs: Seq<(usize, spec_fn(B) -> B)>,
) -> (StoreView<B>, B)
    decreases runs.len(),
{
    if runs.len() == 0 {
        (s, device)
    } else {
        let (t, d) = run_all(s, device, init, runs.drop_last());
        run_on(t, d, init, runs.last().0, runs.last().1)
    }
}

/// The state `x` after only the requests on `id`, in order.
pub open spec fn solo<B>(x: B, runs: Seq<(usize, spec_fn(B) -> B)>, id: usize) -> B
    decreases runs.len(),
{
    if runs.len() == 0 {
        x
    } else {
        let h = solo(x, runs.drop_last(), id);
        if runs.last().0 == id {
            (runs.last().1)(h)
        } else {
            h
        }
    }
}

/// A request changes the state of the conversation it names, by the model's
/// step, and no other conversation's state.
pub proof fn law_request_changes_only_its_state<B>(
    s: StoreView<B>,
    device: B,
    init: B,
    id: usize,
    step: spec_fn(B) -> B,
    other: usize,
)
    ensures
        ({
            let (t, d) = run_on(s, device, init, id, step);
            state_of(t, d, init, other) == if other == id {
                step(state_of(s, device, init, id))
            } else {
                state_of(s, device, init, other)
            }
        }),
{
}

/// Requests on other conversations never interfere: after any series of
/// requests, the state of conversation `id` is what the requests on `id`
/// alone, in order, make of the state it started in. From a fresh store
/// (no backups, the device holding the initial state) that is the state a
/// fresh runtime would reach running only those requests.
pub proof fn law_conversations_do_not_interfere<B>(
    s: StoreView<B>,
    device: B,
    init: B,
    runs: Seq<(usize, spec_fn(B) -> B)>,
    id: usize,
)
    ensures
        ({
            let (t, d) = run_all(s, device, init, runs);
            state_of(t, d, init, id) == solo(state_of(s, device, init, id), runs, id)
        }),
        s.backed == Map::<usize, B>::empty() && device == init ==> ({
            let (t, d) = run_all(s, device, init, runs);
            state_of(t, d, init, id) == solo(init, runs, id)
        }),
    decreases runs.len(),
{
    if runs.len() > 0 {
        law_conversations_do_not_interfere(s, device, init, runs.drop_last(), id);
        let (t, d) = run_all(s, device, init, runs.drop_last());
        law_request_changes_only_its_state(t, d, init, runs.last().0, runs.last().1, id);
    }
}

/// A conversation that has never been the current one and has no backup
/// starts from the initial state, whatever requests ran on other
/// conversations: after any series of requests none of which names it, its
/// state is `init`, and its first request acts on `init`.
pub proof fn law_unused_id_starts_from_initial_state<B>(
    s: StoreView<B>,
    device: B,
    init: B,
    runs: Seq<(usize, spec_fn(B) -> B)>,
    id: usize,
)
    requires
        id != s.current,
        !s.backed.contains_key(id),
        forall|i: int| 0 <= i < runs.len() ==> (#[trigger] runs[i]).0 != id,
    ensures
        ({
            let (t, d) = run_all(s, device, init, runs);
            state_of(t, d, init, id) == init
        }),
    decreases runs.len(),
{
    law_conversations_do_not_interfere(s, device, init, runs, id);
    lemma_solo_untouched(init, runs, id);
}

proof fn lemma_solo_untouched<B>(x: B, runs: Seq<(usize, spec_fn(B) -> B)>, id: usize)
    requires
        forall|i: int| 0 <= i < runs.len() ==> (#[trigger] runs[i]).0 != id,
    ensures
        solo(x, runs, id) == x,
    decreases runs.len(),
{
    if runs.len() > 0 {
        let init = runs.drop_last();
        assert forall|i: int| 0 <= i < init.len() implies (#[trigger] init[i]).0 != id by {
            assert(init[i] == runs[i]);
        }
        lemma_solo_untouched(x, init, id);
        assert(runs[runs.len() - 1].0 != id);
    }
}

} // verus!
