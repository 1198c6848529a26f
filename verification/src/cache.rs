//! A cache of inference results keyed by the token sequence that produced
//! them.
//!
//! After a prompt has been run, the recurrent state and the output are stored
//! under the prompt's tokens. A later prompt that starts with a stored token
//! sequence can resume from the stored state and only run the remaining
//! tokens; [`Cache::checkout`] finds the longest such stored sequence.
use vstd::prelude::*;

verus! {

/// Whether `key` is a prefix of `tokens`.
pub open spec fn is_prefix_of(key: Seq<u16>, tokens: Seq<u16>) -> bool {
    key.len() <= tokens.len() && tokens.take(key.len() as int) == key
}

/// Whether the first `n` tokens of `tokens` are stored in `m`.
pub open spec fn cached_at<T>(m: Map<Seq<u16>, T>, tokens: Seq<u16>, n: int) -> bool {
    0 <= n <= tokens.len() && m.contains_key(tokens.take(n))
}

/// Whether the first `n` tokens of `tokens` are the longest prefix of
/// `tokens` that `m` stores.
pub open spec fn longest_cached<T>(m: Map<Seq<u16>, T>, tokens: Seq<u16>, n: int) -> bool {
    &&& cached_at(m, tokens, n)
    &&& forall|j: int| n < j <= tokens.len() ==> !#[trigger] cached_at(m, tokens, j)
}

/// Whether `m` stores any prefix of `tokens`, the empty one included.
pub open spec fn has_cached_prefix<T>(m: Map<Seq<u16>, T>, tokens: Seq<u16>) -> bool {
    exists|n: int| #[trigger] cached_at(m, tokens, n)
}

/// The longest `n < j` for which the first `n` tokens are stored, if any.
pub open spec fn resume_below<T>(m: Map<Seq<u16>, T>, tokens: Seq<u16>, j: nat) -> Option<int>
    decreases j,
{
    if j == 0 {
        None
    } else if cached_at(m, tokens, j - 1) {
        Some(j - 1)
    } else {
        resume_below(m, tokens, (j - 1) as nat)
    }
}

/// How many leading tokens of `tokens` a lookup in `m` resumes from: the
/// length of the longest stored prefix, or `None` when no prefix is stored.
pub open spec fn resume<T>(m: Map<Seq<u16>, T>, tokens: Seq<u16>) -> Option<int> {
    resume_below(m, tokens, tokens.len() + 1)
}

proof fn lemma_resume_below<T>(m: Map<Seq<u16>, T>, tokens: Seq<u16>, j: nat)
    ensures
        match resume_below(m, tokens, j) {
            Some(n) => 0 <= n < j && cached_at(m, tokens, n) && forall|i: int|
                n < i < j ==> !#[trigger] cached_at(m, tokens, i),
            None => forall|i: int| 0 <= i < j ==> !#[trigger] cached_at(m, tokens, i),
        },
    decreases j,
{
    if j > 0 {
        lemma_resume_below(m, tokens, (j - 1) as nat);
    }
}

/// [`resume`] gives the longest stored prefix: it is `Some(n)` exactly when
/// `n` is the longest, and `None` exactly when no prefix is stored.
pub proof fn lemma_resume<T>(m: Map<Seq<u16>, T>, tokens: Seq<u16>)
    ensures
        match resume(m, tokens) {
            Some(n) => longest_cached(m, tokens, n),
            None => !has_cached_prefix(m, tokens),
        },
        forall|n: int| longest_cached(m, tokens, n) ==> resume(m, tokens) == Some(n),
{
    lemma_resume_below(m, tokens, (tokens.len() + 1) as nat);
    assert forall|n: int| longest_cached(m, tokens, n) implies resume(m, tokens) == Some(n) by {
        match resume(m, tokens) {
            Some(k) => {
                if k < n {
                } else if n < k {
                    assert(cached_at(m, tokens, k));
                }
            },
            None => {
                assert(cached_at(m, tokens, n));
            },
        }
    }
}

/// The map that a list of entries describes; a later entry for a key
/// replaces an earlier one.
pub open spec fn map_of<T>(entries: Seq<(Seq<u16>, T)>) -> Map<Seq<u16>, T>
    decreases entries.len(),
{
    if entries.len() == 0 {
        Map::empty()
    } else {
        map_of(entries.drop_last()).insert(entries.last().0, entries.last().1)
    }
}

/// Whether no key occurs twice among the entries.
pub open spec fn keys_distinct<T>(entries: Seq<(Seq<u16>, T)>) -> bool {
    forall|i: int, j: int|
        0 <= i < entries.len() && 0 <= j < entries.len() && i != j ==> #[trigger] entries[i].0
            != #[trigger] entries[j].0
}

proof fn lemma_map_of_dom<T>(entries: Seq<(Seq<u16>, T)>, k: Seq<u16>)
    ensures
        map_of(entries).contains_key(k) <==> exists|i: int|
            0 <= i < entries.len() && #[trigger] entries[i].0 == k,
    decreases entries.len(),
{
    if entries.len() > 0 {
        let init = entries.drop_last();
        lemma_map_of_dom(init, k);
        if map_of(init).contains_key(k) {
            let i = choose|i: int| 0 <= i < init.len() && #[trigger] init[i].0 == k;
            assert(entries[i].0 == k);
        }
        if exists|i: int| 0 <= i < entries.len() && #[trigger] entries[i].0 == k {
            let i = choose|i: int| 0 <= i < entries.len() && #[trigger] entries[i].0 == k;
            if i < entries.len() - 1 {
                assert(init[i].0 == k);
            }
        }
    }
}

proof fn lemma_map_of_value<T>(entries: Seq<(Seq<u16>, T)>, i: int)
    requires
        keys_distinct(entries),
        0 <= i < entries.len(),
    ensures
        map_of(entries).contains_key(entries[i].0),
        map_of(entries)[entries[i].0] == entries[i].1,
    decreases entries.len(),
{
    let init = entries.drop_last();
    if i < entries.len() - 1 {
        assert(keys_distinct(init)) by {
            assert forall|a: int, b: int|
                0 <= a < init.len() && 0 <= b < init.len() && a != b implies #[trigger] init[a].0
                != #[trigger] init[b].0 by {
                assert(init[a] == entries[a] && init[b] == entries[b]);
            }
        }
        lemma_map_of_value(init, i);
        assert(init[i] == entries[i]);
        assert(entries[i].0 != entries[entries.len() - 1].0);
    }
}

proof fn lemma_map_of_update<T>(entries: Seq<(Seq<u16>, T)>, i: int, v: T)
    requires
        keys_distinct(entries),
        0 <= i < entries.len(),
    ensures
        keys_distinct(entries.update(i, (entries[i].0, v))),
        map_of(entries.update(i, (entries[i].0, v))) == map_of(entries).insert(entries[i].0, v),
{
    let k = entries[i].0;
    let upd = entries.update(i, (k, v));
    assert(keys_distinct(upd)) by {
        assert forall|a: int, b: int|
            0 <= a < upd.len() && 0 <= b < upd.len() && a != b implies #[trigger] upd[a].0
            != #[trigger] upd[b].0 by {
            assert(upd[a].0 == entries[a].0 && upd[b].0 == entries[b].0);
        }
    }
    let lhs = map_of(upd);
    let rhs = map_of(entries).insert(k, v);
    assert forall|key: Seq<u16>| #[trigger] lhs.contains_key(key) <==> rhs.contains_key(key) by {
        lemma_map_of_dom(upd, key);
        lemma_map_of_dom(entries, key);
        if exists|j: int| 0 <= j < entries.len() && #[trigger] entries[j].0 == key {
            let j = choose|j: int| 0 <= j < entries.len() && #[trigger] entries[j].0 == key;
            assert(upd[j].0 == key);
        }
        if exists|j: int| 0 <= j < upd.len() && #[trigger] upd[j].0 == key {
            let j = choose|j: int| 0 <= j < upd.len() && #[trigger] upd[j].0 == key;
            assert(entries[j].0 == key);
        }
    }
    assert forall|key: Seq<u16>| #[trigger] lhs.contains_key(key) implies lhs[key] == rhs[key] by {
        lemma_map_of_dom(upd, key);
        let j = choose|j: int| 0 <= j < upd.len() && #[trigger] upd[j].0 == key;
        lemma_map_of_value(upd, j);
        if j != i {
            lemma_map_of_value(entries, j);
            assert(entries[j].0 == key);
        }
    }
    assert(lhs =~= rhs);
}

/// The result of looking up the longest cached prefix of a token sequence.
pub struct Checkout<'a, T> {
    /// How many leading tokens the cached item covers; 0 when nothing is
    /// cached for any prefix.
    pub prefix_len: usize,
    /// The cached item, if any prefix is cached.
    pub item: Option<&'a T>,
}

/// Items stored by token sequence.
pub struct Cache<T> {
    entries: Vec<(Vec<u16>, T)>,
}

impl<T> Cache<T> {
    /// The entries as (key, item) pairs.
    closed spec fn entry_seq(self) -> Seq<(Seq<u16>, T)> {
        self.entries@.map_values(|e: (Vec<u16>, T)| (e.0@, e.1))
    }

    #[verifier::type_invariant]
    closed spec fn wf(self) -> bool {
        keys_distinct(self.entry_seq())
    }
}

impl<T> View for Cache<T> {
    type V = Map<Seq<u16>, T>;

    closed spec fn view(&self) -> Map<Seq<u16>, T> {
        map_of(self.entry_seq())
    }
}

/// Whether `key` is a prefix of `tokens`.
fn starts_with(tokens: &[u16], key: &[u16]) -> (r: bool)
    ensures
        r == is_prefix_of(key@, tokens@),
{
    if key.len() > tokens.len() {
        return false;
    }
    let mut i: usize = 0;
    while i < key.len()
        invariant
            key.len() <= tokens.len(),
            i <= key.len(),
            forall|j: int| 0 <= j < i ==> key@[j] == tokens@[j],
        decreases key.len() - i,
    {
        if key[i] != tokens[i] {
            assert(tokens@.take(key@.len() as int)[i as int] != key@[i as int]);
            return false;
        }
        i = i + 1;
    }
    assert(tokens@.take(key@.len() as int) =~= key@);
    true
}

impl<T> Cache<T> {
    /// An empty cache.
    pub fn new() -> (r: Self)
        ensures
            r@ == Map::<Seq<u16>, T>::empty(),
    {
        let r = Cache { entries: Vec::new() };
        assert(r.entry_seq() =~= Seq::<(Seq<u16>, T)>::empty());
        r
    }

    /// The longest prefix of `tokens` that the cache holds an item for, and
    /// that item.
    pub fn checkout(&self, tokens: &[u16]) -> (r: Checkout<'_, T>)
        ensures
            match r.item {
                Some(item) => {
                    &&& longest_cached(self@, tokens@, r.prefix_len as int)
                    &&& *item == self@[tokens@.take(r.prefix_len as int)]
                },
                None => r.prefix_len == 0 && !has_cached_prefix(self@, tokens@),
            },
            match r.item {
                Some(_) => resume(self@, tokens@) == Some(r.prefix_len as int),
                None => resume(self@, tokens@) is None,
            },
    {
        proof {
            use_type_invariant(self);
            lemma_resume(self@, tokens@);
        }
        let ghost es = self.entry_seq();
        let mut best: Option<usize> = None;
        let mut i: usize = 0;
        while i < self.entries.len()
            invariant
                es == self.entry_seq(),
                keys_distinct(es),
                i <= self.entries.len(),
                es.len() == self.entries.len(),
                match best {
                    Some(b) => b < i && is_prefix_of(es[b as int].0, tokens@) && forall|j: int|
                        0 <= j < i && is_prefix_of(#[trigger] es[j].0, tokens@) ==> es[j].0.len()
                            <= es[b as int].0.len(),
                    None => forall|j: int| 0 <= j < i ==> !is_prefix_of(#[trigger] es[j].0, tokens@),
                },
            decreases self.entries.len() - i,
        {
            let key: &Vec<u16> = &self.entries[i].0;
            assert(es[i as int].0 == key@);
            if starts_with(tokens, key.as_slice()) {
                let better = match best {
                    Some(b) => self.entries[b].0.len() < key.len(),
                    None => true,
                };
                if better {
                    best = Some(i);
                }
            }
            i = i + 1;
        }
        let ghost m = self@;
        match best {
            Some(b) => {
                let n = self.entries[b].0.len();
                proof {
                    let k = es[b as int].0;
                    assert(tokens@.take(n as int) == k);
                    lemma_map_of_value(es, b as int);
                    assert forall|j: int| n < j <= tokens@.len() implies !#[trigger] cached_at(
                        m,
                        tokens@,
                        j,
                    ) by {
                        lemma_map_of_dom(es, tokens@.take(j));
                        if m.contains_key(tokens@.take(j)) {
                            let e = choose|e: int|
                                0 <= e < es.len() && #[trigger] es[e].0 == tokens@.take(j);
                            assert(is_prefix_of(es[e].0, tokens@));
                        }
                    }
                }
                proof {
                    assert(longest_cached(m, tokens@, n as int));
                    assert(resume(m, tokens@) == Some(n as int));
                }
                Checkout { prefix_len: n, item: Some(&self.entries[b].1) }
            },
            None => {
                proof {
                    assert forall|n: int| !#[trigger] cached_at(m, tokens@, n) by {
                        if 0 <= n <= tokens@.len() {
                            lemma_map_of_dom(es, tokens@.take(n));
                            if m.contains_key(tokens@.take(n)) {
                                let e = choose|e: int|
                                    0 <= e < es.len() && #[trigger] es[e].0 == tokens@.take(n);
                                assert(is_prefix_of(es[e].0, tokens@));
                            }
                        }
                    }
                }
                Checkout { prefix_len: 0, item: None }
            },
        }
    }

    /// Stores `item` under `tokens`, replacing what was stored under the same
    /// tokens before.
    pub fn insert(&mut self, tokens: &[u16], item: T)
        ensures
            final(self)@ == old(self)@.insert(tokens@, item),
    {
        proof {
            use_type_invariant(&*self);
        }
        let ghost es = old(self).entry_seq();
        let key = vstd::slice::slice_to_vec(tokens);
        let mut entries: Vec<(Vec<u16>, T)> = Vec::new();
        std::mem::swap(&mut entries, &mut self.entries);
        let mut i: usize = 0;
        while i < entries.len()
            invariant
                es == entries@.map_values(|e: (Vec<u16>, T)| (e.0@, e.1)),
                es == old(self).entry_seq(),
                keys_distinct(es),
                i <= entries.len(),
                es.len() == entries.len(),
                key@ == tokens@,
                forall|j: int| 0 <= j < i ==> #[trigger] es[j].0 != tokens@,
            decreases entries.len() - i,
        {
            let same = entries[i].0.len() == tokens.len() && starts_with(
                tokens,
                entries[i].0.as_slice(),
            );
            assert(es[i as int].0 == entries@[i as int].0@);
            assert(tokens@.take(tokens@.len() as int) =~= tokens@);
            if same {
                assert(es[i as int].0 =~= tokens@);
                proof {
                    lemma_map_of_update(es, i as int, item);
                }
                entries.set(i, (key, item));
                assert(entries@.map_values(|e: (Vec<u16>, T)| (e.0@, e.1)) =~= es.update(
                    i as int,
                    (es[i as int].0, item),
                ));
                self.entries = entries;
                return ;
            }
            i = i + 1;
        }
        entries.push((key, item));
        assert(entries@.map_values(|e: (Vec<u16>, T)| (e.0@, e.1)) =~= es.push((tokens@, item)));
        self.entries = entries;
        assert(es.push((tokens@, item)).drop_last() =~= es);
    }

    /// Removes every stored item.
    pub fn clear(&mut self)
        ensures
            final(self)@ == Map::<Seq<u16>, T>::empty(),
    {
        self.entries = Vec::new();
        assert(self.entry_seq() =~= Seq::<(Seq<u16>, T)>::empty());
    }
}

impl<T> Default for Cache<T> {
    /// An empty cache, as [`Cache::new`].
    fn default() -> (r: Self)
        ensures
            r@ == Map::<Seq<u16>, T>::empty(),
    {
        Cache::new()
    }
}

/// Reading back a write: once `item` is stored under `tokens`, the longest
/// cached prefix of `tokens` is the whole of `tokens`, and the item found is
/// `item`.
pub proof fn law_checkout_after_insert<T>(m: Map<Seq<u16>, T>, tokens: Seq<u16>, item: T)
    ensures
        longest_cached(m.insert(tokens, item), tokens, tokens.len() as int),
        m.insert(tokens, item)[tokens.take(tokens.len() as int)] == item,
{
    assert(tokens.take(tokens.len() as int) =~= tokens);
}

/// A change made to a cache's content.
pub enum CacheOp<T> {
    /// Storing an item under a token sequence.
    Insert(Seq<u16>, T),
    /// Removing every item.
    Clear,
}

/// The content after one change.
pub open spec fn apply_op<T>(m: Map<Seq<u16>, T>, op: CacheOp<T>) -> Map<Seq<u16>, T> {
    match op {
        CacheOp::Insert(key, item) => m.insert(key, item),
        CacheOp::Clear => Map::empty(),
    }
}

/// The content after a series of changes, made in order.
pub open spec fn apply_ops<T>(m: Map<Seq<u16>, T>, ops: Seq<CacheOp<T>>) -> Map<Seq<u16>, T>
    decreases ops.len(),
{
    if ops.len() == 0 {
        m
    } else {
        apply_op(apply_ops(m, ops.drop_last()), ops.last())
    }
}

/// Whether a change can affect what is stored under `tokens`.
pub open spec fn touches<T>(op: CacheOp<T>, tokens: Seq<u16>) -> bool {
    match op {
        CacheOp::Insert(key, _) => key == tokens,
        CacheOp::Clear => true,
    }
}

proof fn lemma_untouched_entry_kept<T>(m: Map<Seq<u16>, T>, tokens: Seq<u16>, ops: Seq<CacheOp<T>>)
    requires
        m.contains_key(tokens),
        forall|i: int| 0 <= i < ops.len() ==> !touches(#[trigger] ops[i], tokens),
    ensures
        apply_ops(m, ops).contains_key(tokens),
        apply_ops(m, ops)[tokens] == m[tokens],
    decreases ops.len(),
{
    if ops.len() > 0 {
        let init = ops.drop_last();
        assert forall|i: int| 0 <= i < init.len() implies !touches(#[trigger] init[i], tokens) by {
            assert(init[i] == ops[i]);
        }
        lemma_untouched_entry_kept(m, tokens, init);
        assert(!touches(ops[ops.len() - 1], tokens));
    }
}

/// A stored prompt reads back until it is replaced or the cache is cleared:
/// after `item` is stored under `tokens`, and then any series of changes
/// none of which clears the cache or stores under `tokens` again, a lookup
/// of `tokens` resumes from all of `tokens`, with `item`. Storing under
/// `tokens` twice is the case where the earlier content holds the first
/// item: the lookup gives the second.
pub proof fn law_cached_prompt_reads_back<T>(
    m: Map<Seq<u16>, T>,
    tokens: Seq<u16>,
    item: T,
    ops: Seq<CacheOp<T>>,
)
    requires
        forall|i: int| 0 <= i < ops.len() ==> !touches(#[trigger] ops[i], tokens),
    ensures
        ({
            let after = apply_ops(m.insert(tokens, item), ops);
            &&& resume(after, tokens) == Some(tokens.len() as int)
            &&& after[tokens.take(tokens.len() as int)] == item
        }),
{
    let after = apply_ops(m.insert(tokens, item), ops);
    lemma_untouched_entry_kept(m.insert(tokens, item), tokens, ops);
    assert(tokens.take(tokens.len() as int) =~= tokens);
    assert(longest_cached(after, tokens, tokens.len() as int));
    lemma_resume(after, tokens);
}

/// A prompt that extends a stored one resumes at least where the stored one
/// ends: once `item` is stored under `key`, any `tokens` starting with `key`
/// have a cached prefix, and its longest cached prefix is no shorter than
/// `key`.
pub proof fn law_extension_resumes_after_stored_prompt<T>(
    m: Map<Seq<u16>, T>,
    key: Seq<u16>,
    item: T,
    tokens: Seq<u16>,
    n: int,
)
    requires
        is_prefix_of(key, tokens),
    ensures
        has_cached_prefix(m.insert(key, item), tokens),
        longest_cached(m.insert(key, item), tokens, n) ==> key.len() <= n,
{
    assert(cached_at(m.insert(key, item), tokens, key.len() as int));
}

/// After the cache is cleared, no prefix of any token sequence is cached.
pub proof fn law_nothing_cached_after_clear<T>(tokens: Seq<u16>)
    ensures
        !has_cached_prefix(Map::<Seq<u16>, T>::empty(), tokens),
{
}

/// Storing an item never shortens the prefix a token sequence can resume
/// from.
pub proof fn law_insert_never_shortens_resume<T>(
    m: Map<Seq<u16>, T>,
    key: Seq<u16>,
    item: T,
    tokens: Seq<u16>,
    n: int,
    n2: int,
)
    requires
        longest_cached(m, tokens, n),
        longest_cached(m.insert(key, item), tokens, n2),
    ensures
        n <= n2,
{
    assert(cached_at(m.insert(key, item), tokens, n));
}

/// Storing an item under a key that is not a prefix of `tokens` leaves what
/// `tokens` resumes from unchanged.
pub proof fn law_unrelated_insert_keeps_checkout<T>(
    m: Map<Seq<u16>, T>,
    key: Seq<u16>,
    item: T,
    tokens: Seq<u16>,
    n: int,
)
    requires
        !is_prefix_of(key, tokens),
    ensures
        cached_at(m.insert(key, item), tokens, n) == cached_at(m, tokens, n),
        cached_at(m, tokens, n) ==> m.insert(key, item)[tokens.take(n)] == m[tokens.take(n)],
        longest_cached(m.insert(key, item), tokens, n) == longest_cached(m, tokens, n),
{
    if 0 <= n <= tokens.len() && tokens.take(n) == key {
        assert(key.len() == n);
    }
    assert forall|j: int|
        #![trigger cached_at(m.insert(key, item), tokens, j)]
        #![trigger cached_at(m, tokens, j)]
        cached_at(m.insert(key, item), tokens, j) == cached_at(m, tokens, j) by {
        if 0 <= j <= tokens.len() && tokens.take(j) == key {
            assert(key.len() == j);
        }
    }
}

} // verus!
