//! Resuming a session from the prompt cache.
//!
//! A cached item is the recurrent state and the output left by a prompt.
//! Resuming a new prompt copies the item of its longest cached prefix into
//! the caller's buffers and reports how many tokens are already covered;
//! with nothing cached, the buffers get the initial state and a blank
//! output, and no token is covered.
use vstd::prelude::*;

use crate::cache::{has_cached_prefix, longest_cached, resume, Cache, Checkout};

verus! {

/// The state and output a prompt left behind, element by element.
pub struct CachedState<E> {
    /// The recurrent state after the prompt.
    pub state: Vec<E>,
    /// The model output after the prompt's last token.
    pub output: Vec<E>,
}

/// Copies `src` into `dst`, which has the same length.
fn copy_into<E: Copy>(dst: &mut [E], src: &[E])
    requires
        old(dst).len() == src.len(),
    ensures
        final(dst)@ == src@,
{
    let mut i: usize = 0;
    while i < dst.len()
        invariant
            dst.len() == src.len(),
            i <= dst.len(),
            forall|j: int| 0 <= j < i ==> dst@[j] == src@[j],
        decreases dst.len() - i,
    {
        dst[i] = src[i];
        i = i + 1;
    }
    assert(dst@ =~= src@);
}

/// Sets every element of `dst` to `value`.
fn fill<E: Copy>(dst: &mut [E], value: E)
    ensures
        final(dst)@ == Seq::new(old(dst)@.len(), |_i: int| value),
{
    let mut i: usize = 0;
    while i < dst.len()
        invariant
            i <= dst.len(),
            dst.len() == old(dst).len(),
            forall|j: int| 0 <= j < i ==> dst@[j] == value,
        decreases dst.len() - i,
    {
        dst[i] = value;
        i = i + 1;
    }
    assert(dst@ =~= Seq::new(old(dst)@.len(), |_i: int| value));
}

impl<E: Copy> CachedState<E> {
    /// A cached item holding copies of `state` and `output`.
    pub fn new(state: &[E], output: &[E]) -> (r: Self)
        ensures
            r.state@ == state@,
            r.output@ == output@,
    {
        CachedState {
            state: vstd::slice::slice_to_vec(state),
            output: vstd::slice::slice_to_vec(output),
        }
    }
}

/// Fills `state` and `output` from the result of a cache checkout and returns
/// the number of prompt tokens already covered: the cached item's state,
/// output and prefix length when one was found, and otherwise
/// `init_state`, an output of `blank` values, and 0.
pub fn restore_checkout<E: Copy>(
    checkout: &Checkout<'_, CachedState<E>>,
    init_state: &[E],
    blank: E,
    state: &mut [E],
    output: &mut [E],
) -> (cutoff: usize)
    requires
        match checkout.item {
            Some(item) => item.state.len() == old(state).len() && item.output.len() == old(
                output,
            ).len(),
            None => init_state.len() == old(state).len(),
        },
    ensures
        match checkout.item {
            Some(item) => {
                &&& final(state)@ == item.state@
                &&& final(output)@ == item.output@
                &&& cutoff == checkout.prefix_len
            },
            None => {
                &&& final(state)@ == init_state@
                &&& final(output)@ == Seq::new(old(output)@.len(), |_i: int| blank)
                &&& cutoff == 0
            },
        },
{
    match checkout.item {
        Some(item) => {
            copy_into(state, item.state.as_slice());
            copy_into(output, item.output.as_slice());
            checkout.prefix_len
        },
        None => {
            copy_into(state, init_state);
            fill(output, blank);
            0
        },
    }
}

/// Why an item was not cached.
#[derive(Debug, Clone, Copy, PartialEq, Eq, Structural)]
pub enum CacheError {
    /// The state to cache does not have the model's state length.
    StateLength { expected: usize, found: usize },
}

/// The prompt cache of a session: every cached state has the length of the
/// model's recurrent state.
pub struct SessionCache<E> {
    items: Cache<CachedState<E>>,
    state_len: usize,
}

impl<E> View for SessionCache<E> {
    type V = Map<Seq<u16>, CachedState<E>>;

    closed spec fn view(&self) -> Map<Seq<u16>, CachedState<E>> {
        self.items@
    }
}

impl<E> SessionCache<E> {
    #[verifier::type_invariant]
    closed spec fn wf(self) -> bool {
        forall|k: Seq<u16>| #[trigger]
            self.items@.contains_key(k) ==> self.items@[k].state.len() == self.state_len
    }

    /// The length every cached state has.
    pub closed spec fn state_len_view(&self) -> usize {
        self.state_len
    }

    /// An empty cache for states of `state_len` elements.
    pub fn new(state_len: usize) -> (r: Self)
        ensures
            r@ == Map::<Seq<u16>, CachedState<E>>::empty(),
            r.state_len_view() == state_len,
    {
        SessionCache { items: Cache::new(), state_len }
    }

    /// The length every cached state has.
    pub fn state_len(&self) -> (r: usize)
        ensures
            r == self.state_len_view(),
    {
        self.state_len
    }

    /// The longest cached prefix of `tokens` and its item, whose state has
    /// the model's state length.
    pub fn lookup(&self, tokens: &[u16]) -> (r: Checkout<'_, CachedState<E>>)
        ensures
            match r.item {
                Some(item) => {
                    &&& longest_cached(self@, tokens@, r.prefix_len as int)
                    &&& *item == self@[tokens@.take(r.prefix_len as int)]
                    &&& resume(self@, tokens@) == Some(r.prefix_len as int)
                    &&& item.state.len() == self.state_len_view()
                },
                None => {
                    &&& r.prefix_len == 0
                    &&& !has_cached_prefix(self@, tokens@)
                    &&& resume(self@, tokens@) is None
                },
            },
    {
        proof {
            use_type_invariant(self);
        }
        self.items.checkout(tokens)
    }

    /// The output length of the item a lookup of `tokens` finds, if any.
    pub fn resume_output_len(&self, tokens: &[u16]) -> (r: Option<usize>)
        ensures
            match resume(self@, tokens@) {
                Some(n) => r == Some(self@[tokens@.take(n)].output.len()),
                None => r is None,
            },
    {
        let co = self.lookup(tokens);
        match co.item {
            Some(item) => Some(item.output.len()),
            None => None,
        }
    }

    /// Resumes `tokens`: fills `state` and `output` with the item of the
    /// longest cached prefix and returns that prefix's length; with nothing
    /// cached, fills them with `init_state` and `blank` values and returns 0.
    pub fn checkout(
        &self,
        tokens: &[u16],
        init_state: &[E],
        blank: E,
        state: &mut [E],
        output: &mut [E],
    ) -> (cutoff: usize) where E: Copy
        requires
            old(state).len() == self.state_len_view(),
            init_state.len() == self.state_len_view(),
            resume(self@, tokens@) matches Some(n) ==> self@[tokens@.take(n)].output.len() == old(
                output,
            ).len(),
        ensures
            cutoff <= tokens.len(),
            final(state)@.len() == old(state)@.len(),
            final(output)@.len() == old(output)@.len(),
            match resume(self@, tokens@) {
                Some(n) => {
                    &&& cutoff == n
                    &&& final(state)@ == self@[tokens@.take(n)].state@
                    &&& final(output)@ == self@[tokens@.take(n)].output@
                },
                None => {
                    &&& cutoff == 0
                    &&& final(state)@ == init_state@
                    &&& final(output)@ == Seq::new(old(output)@.len(), |_i: int| blank)
                },
            },
    {
        let co = self.lookup(tokens);
        restore_checkout(&co, init_state, blank, state, output)
    }

    /// Caches `state` and `output` under `tokens`, replacing what was cached
    /// under the same tokens; refused, leaving the cache as it was, when the
    /// state does not have the model's state length.
    pub fn cache(&mut self, tokens: &[u16], state: &[E], output: &[E]) -> (r: Result<(), CacheError>) where
        E: Copy,
        ensures
            final(self).state_len_view() == old(self).state_len_view(),
            match r {
                Ok(()) => {
                    &&& state.len() == old(self).state_len_view()
                    &&& final(self)@ == old(self)@.insert(tokens@, final(self)@[tokens@])
                    &&& final(self)@[tokens@].state@ == state@
                    &&& final(self)@[tokens@].output@ == output@
                },
                Err(e) => {
                    &&& state.len() != old(self).state_len_view()
                    &&& e == CacheError::StateLength {
                        expected: old(self).state_len_view(),
                        found: state.len(),
                    }
                    &&& final(self)@ == old(self)@
                },
            },
    {
        proof {
            use_type_invariant(&*self);
        }
        if state.len() != self.state_len {
            return Err(CacheError::StateLength { expected: self.state_len, found: state.len() });
        }
        let item = CachedState::new(state, output);
        let ghost stored = item;
        let mut items: Cache<CachedState<E>> = Cache::new();
        std::mem::swap(&mut items, &mut self.items);
        items.insert(tokens, item);
        assert(items@ == old(self)@.insert(tokens@, stored));
        self.items = items;
        Ok(())
    }

    /// Removes every cached item.
    pub fn clear(&mut self)
        ensures
            final(self)@ == Map::<Seq<u16>, CachedState<E>>::empty(),
            final(self).state_len_view() == old(self).state_len_view(),
    {
        self.items = Cache::new();
    }
}

} // verus!
