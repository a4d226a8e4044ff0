//! A log-backed index of entities: replaying a log rebuilds it, and each
//! change is decided against it so that only real changes reach the log.

use std::collections::{HashMap, HashSet};
use vstd::prelude::*;

verus! {

broadcast use vstd::std_specs::hash::group_hash_axioms;

/// A record that can be replayed from a log: it names the entity it is about
/// and whether it erases that entity.
pub trait Replayable: Sized + View {
    /// The entity a record is about.
    spec fn key_of(v: Self::V) -> u64;

    /// Whether a record is a tombstone.
    spec fn erases(v: Self::V) -> bool;

    fn id(&self) -> (r: u64)
        ensures
            r == Self::key_of(self@),
    ;

    fn is_delete(&self) -> (r: bool)
        ensures
            r == Self::erases(self@),
    ;

    /// Structural equality of two records.
    fn same_as(&self, other: &Self) -> (r: bool)
        ensures
            r == (self@ == other@),
    ;

    /// A copy of a record.
    fn copied(&self) -> (r: Self)
        ensures
            r@ == self@,
    ;
}

/// The views of a sequence of records.
pub open spec fn views<T: View>(s: Seq<T>) -> Seq<T::V> {
    s.map_values(|x: T| x@)
}

/// One record applied to an index: a tombstone erases its entity, any other
/// record replaces it.
pub open spec fn apply<T: Replayable>(m: Map<u64, T::V>, v: T::V) -> Map<u64, T::V> {
    if T::erases(v) {
        m.remove(T::key_of(v))
    } else {
        m.insert(T::key_of(v), v)
    }
}

/// The index that a log describes: its records applied in order to an empty
/// index, so that the last record about an entity wins.
pub open spec fn replay<T: Replayable>(log: Seq<T::V>) -> Map<u64, T::V>
    decreases log.len(),
{
    if log.len() == 0 {
        Map::empty()
    } else {
        apply::<T>(replay::<T>(log.drop_last()), log.last())
    }
}

/// One update decided against an index: a record equal to the one held
/// for `id` changes nothing; any other replaces it and goes to the log.
pub open spec fn update_changes<T: View>(m: Map<u64, T::V>, id: u64, v: T::V) -> bool {
    !(m.contains_key(id) && m[id] == v)
}

/// The index after a sequence of updates, each keyed by its record's entity.
pub open spec fn updated<T: Replayable>(m: Map<u64, T::V>, xs: Seq<T::V>) -> Map<u64, T::V>
    decreases xs.len(),
{
    if xs.len() == 0 {
        m
    } else {
        updated::<T>(m, xs.drop_last()).insert(T::key_of(xs.last()), xs.last())
    }
}

/// The records that a sequence of updates appends: those that differ from
/// what the index holds when they come.
pub open spec fn update_log<T: Replayable>(m: Map<u64, T::V>, xs: Seq<T::V>) -> Seq<T::V>
    decreases xs.len(),
{
    if xs.len() == 0 {
        Seq::empty()
    } else {
        let prev = updated::<T>(m, xs.drop_last());
        let x = xs.last();
        if update_changes::<T>(prev, T::key_of(x), x) {
            update_log::<T>(m, xs.drop_last()).push(x)
        } else {
            update_log::<T>(m, xs.drop_last())
        }
    }
}

/// The entities a sequence of records is about.
pub open spec fn keys_of<T: Replayable>(xs: Seq<T::V>) -> Set<u64> {
    Set::new(|k: u64| exists|i: int| 0 <= i < xs.len() && T::key_of(#[trigger] xs[i]) == k)
}

/// Updating with `a` and then with `b` is updating with `a + b`.
pub proof fn lemma_updated_concat<T: Replayable>(m: Map<u64, T::V>, a: Seq<T::V>, b: Seq<T::V>)
    ensures
        updated::<T>(m, a + b) == updated::<T>(updated::<T>(m, a), b),
    decreases b.len(),
{
    if b.len() == 0 {
        assert(a + b =~= a);
    } else {
        lemma_updated_concat::<T>(m, a, b.drop_last());
        assert((a + b).drop_last() =~= a + b.drop_last());
        assert((a + b).last() == b.last());
    }
}

/// Updating twice in a row with the same record: the second update finds
/// the record held and appends nothing, so the pair appends it at most once
/// (exactly once when the index did not hold it).
pub proof fn lemma_update_idempotent<T: View>(m: Map<u64, T::V>, id: u64, v: T::V)
    ensures
        !update_changes::<T>(if update_changes::<T>(m, id, v) { m.insert(id, v) } else { m }, id, v),
{
}

/// The index after reconciling with a snapshot: the snapshot's records
/// applied as updates, and every entity the snapshot lacks erased.
pub open spec fn reconciled<T: Replayable>(m: Map<u64, T::V>, xs: Seq<T::V>) -> Map<u64, T::V> {
    updated::<T>(m, xs).restrict(keys_of::<T>(xs))
}

/// A snapshot that does not contradict itself: two records about the same
/// entity are equal.
pub open spec fn consistent<T: Replayable>(xs: Seq<T::V>) -> bool {
    forall|i: int, j: int|
        0 <= i < xs.len() && 0 <= j < xs.len() && T::key_of(#[trigger] xs[i]) == T::key_of(
            #[trigger] xs[j],
        ) ==> xs[i] == xs[j]
}

pub proof fn lemma_updated_dom<T: Replayable>(m: Map<u64, T::V>, xs: Seq<T::V>)
    ensures
        updated::<T>(m, xs).dom() == m.dom() + keys_of::<T>(xs),
    decreases xs.len(),
{
    if xs.len() == 0 {
        assert(keys_of::<T>(xs) =~= Set::<u64>::empty());
        assert(m.dom() + keys_of::<T>(xs) =~= m.dom());
    } else {
        let init = xs.drop_last();
        lemma_updated_dom::<T>(m, init);
        assert forall|k: u64| keys_of::<T>(xs).contains(k) <==> (keys_of::<T>(init).contains(k)
            || k == T::key_of(xs.last())) by {
            if keys_of::<T>(xs).contains(k) {
                let i = choose|i: int| 0 <= i < xs.len() && T::key_of(#[trigger] xs[i]) == k;
                if i < xs.len() - 1 {
                    assert(init[i] == xs[i]);
                }
            }
            if keys_of::<T>(init).contains(k) {
                let i = choose|i: int| 0 <= i < init.len() && T::key_of(#[trigger] init[i]) == k;
                assert(init[i] == xs[i]);
            }
            if k == T::key_of(xs.last()) {
                assert(T::key_of(xs[xs.len() - 1]) == k);
            }
        }
        assert(updated::<T>(m, xs).dom() =~= m.dom() + keys_of::<T>(xs));
    }
}

/// In a consistent snapshot, updating holds each snapshot record for its
/// entity.
pub proof fn lemma_updated_holds<T: Replayable>(m: Map<u64, T::V>, xs: Seq<T::V>, i: int)
    requires
        consistent::<T>(xs),
        0 <= i < xs.len(),
    ensures
        updated::<T>(m, xs).contains_key(T::key_of(xs[i])),
        updated::<T>(m, xs)[T::key_of(xs[i])] == xs[i],
    decreases xs.len(),
{
    let init = xs.drop_last();
    if i == xs.len() - 1 {
    } else {
        assert(consistent::<T>(init)) by {
            assert forall|a: int, b: int|
                0 <= a < init.len() && 0 <= b < init.len() && T::key_of(#[trigger] init[a])
                    == T::key_of(#[trigger] init[b]) implies init[a] == init[b] by {
                assert(init[a] == xs[a]);
                assert(init[b] == xs[b]);
            }
        }
        assert(init[i] == xs[i]);
        lemma_updated_holds::<T>(m, init, i);
        if T::key_of(xs.last()) == T::key_of(xs[i]) {
            assert(xs[xs.len() - 1] == xs[i]);
        }
    }
}

/// Updating an index with records it already holds appends nothing and
/// changes nothing.
pub proof fn lemma_updates_already_held<T: Replayable>(m: Map<u64, T::V>, xs: Seq<T::V>)
    requires
        forall|i: int|
            0 <= i < xs.len() ==> m.contains_key(T::key_of(#[trigger] xs[i])) && m[T::key_of(
                xs[i],
            )] == xs[i],
    ensures
        updated::<T>(m, xs) == m,
        update_log::<T>(m, xs) == Seq::<T::V>::empty(),
    decreases xs.len(),
{
    if xs.len() > 0 {
        let init = xs.drop_last();
        assert forall|i: int| 0 <= i < init.len() implies m.contains_key(
            T::key_of(#[trigger] init[i]),
        ) && m[T::key_of(init[i])] == init[i] by {
            assert(init[i] == xs[i]);
        }
        lemma_updates_already_held::<T>(m, init);
        assert(xs[xs.len() - 1] == xs.last());
        assert(updated::<T>(m, xs) =~= m);
    }
}

/// Reconciling twice with the same consistent snapshot: the second time
/// nothing is updated, nothing is erased and the index stays as it is, so
/// nothing is appended to the log.
pub proof fn lemma_reconcile_idempotent<T: Replayable>(m: Map<u64, T::V>, xs: Seq<T::V>)
    requires
        consistent::<T>(xs),
    ensures
        update_log::<T>(reconciled::<T>(m, xs), xs) == Seq::<T::V>::empty(),
        reconciled::<T>(m, xs).dom() - keys_of::<T>(xs) == Set::<u64>::empty(),
        reconciled::<T>(reconciled::<T>(m, xs), xs) == reconciled::<T>(m, xs),
{
    let m1 = reconciled::<T>(m, xs);
    let k = keys_of::<T>(xs);
    assert forall|i: int| 0 <= i < xs.len() implies m1.contains_key(T::key_of(#[trigger] xs[i]))
        && m1[T::key_of(xs[i])] == xs[i] by {
        lemma_updated_holds::<T>(m, xs, i);
        assert(k.contains(T::key_of(xs[i])));
    }
    lemma_updates_already_held::<T>(m1, xs);
    lemma_updated_dom::<T>(m, xs);
    assert(m1.dom() - k =~= Set::<u64>::empty());
    assert(m1.restrict(k) =~= m1);
}

/// An index of entities kept in step with a log. Replaying the log builds
/// it; every change it accepts is put in its journal, the records still to
/// be appended to the log, which the owner takes with `take_journal`.
pub struct EntityManager<T> {
    entries: Vec<(u64, T)>,
    index: HashMap<u64, usize>,
    journal: Vec<T>,
}

impl<T: Replayable> EntityManager<T> {
    /// The index: each entity and the latest record about it.
    pub closed spec fn state(&self) -> Map<u64, T::V> {
        Map::new(
            |k: u64| self.index@.contains_key(k),
            |k: u64| self.entries@[self.index@[k] as int].1@,
        )
    }

    /// The records appended since the journal was last taken, in order.
    pub closed spec fn journal(&self) -> Seq<T::V> {
        views(self.journal@)
    }

    pub closed spec fn wf(&self) -> bool {
        &&& forall|k: u64| #[trigger]
            self.index@.contains_key(k) ==> (self.index@[k] as int) < self.entries@.len()
                && self.entries@[self.index@[k] as int].0 == k
        &&& forall|i: int|
            0 <= i < self.entries@.len() ==> self.index@.contains_key(#[trigger] self.entries@[i].0)
                && self.index@[self.entries@[i].0] == i
    }

    /// Rebuilds the index from the records of a log, oldest first.
    pub fn new(log: Vec<T>) -> (r: Self)
        ensures
            r.wf(),
            r.state() == replay::<T>(views(log@)),
            r.journal() == Seq::<T::V>::empty(),
    {
        let mut r = EntityManager { entries: Vec::new(), index: HashMap::new(), journal: Vec::new() };
        proof {
            assert(r.state() =~= Map::<u64, T::V>::empty());
            assert(r.journal() =~= Seq::<T::V>::empty());
        }
        let n = log.len();
        let mut i: usize = 0;
        while i < n
            invariant
                i <= n == log@.len(),
                r.wf(),
                r.state() == replay::<T>(views(log@.subrange(0, i as int))),
                r.journal() == Seq::<T::V>::empty(),
            decreases n - i,
        {
            let rec = &log[i];
            let id = rec.id();
            proof {
                let next = views(log@.subrange(0, i as int + 1));
                assert(next.drop_last() =~= views(log@.subrange(0, i as int)));
                assert(next.last() == log@[i as int]@);
            }
            if rec.is_delete() {
                r.erase(id);
            } else {
                r.put(id, rec.copied());
            }
            i = i + 1;
        }
        proof {
            assert(log@.subrange(0, n as int) =~= log@);
        }
        r
    }

    fn find(&self, id: u64) -> (r: Option<usize>)
        requires
            self.wf(),
        ensures
            r is None <==> !self.state().contains_key(id),
            r matches Some(i) ==> i < self.entries@.len() && self.entries@[i as int].0 == id
                && self.entries@[i as int].1@ == self.state()[id],
    {
        match self.index.get(&id) {
            Some(i) => Some(*i),
            None => None,
        }
    }

    /// The record the index holds for `id`.
    pub fn get(&self, id: u64) -> (r: Option<&T>)
        requires
            self.wf(),
        ensures
            r is None <==> !self.state().contains_key(id),
            r matches Some(t) ==> t@ == self.state()[id],
    {
        match self.find(id) {
            Some(i) => Some(&self.entries[i].1),
            None => None,
        }
    }

    /// How many entities the index holds.
    pub fn len(&self) -> (r: usize)
        requires
            self.wf(),
        ensures
            r == self.state().dom().len(),
    {
        let ids = self.ids();
        proof {
            ids@.unique_seq_to_set();
        }
        ids.len()
    }

    /// Whether the index holds `id`.
    pub fn contains(&self, id: u64) -> (r: bool)
        requires
            self.wf(),
        ensures
            r == self.state().contains_key(id),
    {
        self.find(id).is_some()
    }

    fn put(&mut self, id: u64, v: T)
        requires
            old(self).wf(),
        ensures
            final(self).wf(),
            final(self).state() == old(self).state().insert(id, v@),
            final(self).journal@ == old(self).journal@,
    {
        let ghost vv = v@;
        match self.index.get(&id) {
            Some(i) => {
                let i = *i;
                self.entries.set(i, (id, v));
                proof {
                    assert forall|k: u64| #[trigger]
                        self.index@.contains_key(k) implies (self.index@[k] as int)
                        < self.entries@.len() && self.entries@[self.index@[k] as int].0 == k by {
                        assert(old(self).index@.contains_key(k));
                    }
                    assert forall|j: int|
                        0 <= j < self.entries@.len() implies self.index@.contains_key(
                        #[trigger] self.entries@[j].0,
                    ) && self.index@[self.entries@[j].0] == j by {
                        if j != i {
                            assert(self.entries@[j] == old(self).entries@[j]);
                        }
                    }
                }
            },
            None => {
                let n = self.entries.len();
                self.entries.push((id, v));
                self.index.insert(id, n);
                proof {
                    assert forall|k: u64| #[trigger]
                        self.index@.contains_key(k) implies (self.index@[k] as int)
                        < self.entries@.len() && self.entries@[self.index@[k] as int].0 == k by {
                        if k != id {
                            assert(old(self).index@.contains_key(k));
                        }
                    }
                    assert forall|j: int|
                        0 <= j < self.entries@.len() implies self.index@.contains_key(
                        #[trigger] self.entries@[j].0,
                    ) && self.index@[self.entries@[j].0] == j by {
                        if j < n {
                            assert(self.entries@[j] == old(self).entries@[j]);
                            assert(old(self).index@.contains_key(old(self).entries@[j].0));
                        }
                    }
                }
            },
        }
        proof {
            assert(self.state() =~= old(self).state().insert(id, vv));
        }
    }

    /// Records `data` for `id` unless the index already holds an equal
    /// record. Returns whether it was recorded (and journaled).
    pub fn handle_update(&mut self, id: u64, data: T) -> (changed: bool)
        requires
            old(self).wf(),
        ensures
            final(self).wf(),
            changed == update_changes::<T>(old(self).state(), id, data@),
            changed ==> final(self).state() == old(self).state().insert(id, data@)
                && final(self).journal() == old(self).journal().push(data@),
            !changed ==> final(self).state() == old(self).state() && final(self).journal()
                == old(self).journal(),
    {
        match self.find(id) {
            Some(i) => {
                if self.entries[i].1.same_as(&data) {
                    return false;
                }
            },
            None => {},
        }
        let ghost before = self.journal@;
        self.journal.push(data.copied());
        proof {
            assert(views(self.journal@) =~= views(before).push(data@));
        }
        self.put(id, data);
        true
    }

    /// Erases `id` if the index holds it, journaling the tombstone that
    /// `tombstone` makes. Returns whether it did.
    pub fn handle_delete<F: FnOnce() -> T>(&mut self, id: u64, tombstone: F) -> (removed: bool)
        requires
            old(self).wf(),
            tombstone.requires(()),
        ensures
            final(self).wf(),
            removed == old(self).state().contains_key(id),
            removed ==> final(self).state() == old(self).state().remove(id) && exists|t: T|
                tombstone.ensures((), t) && final(self).journal() == old(self).journal().push(
                    t@,
                ),
            !removed ==> final(self).state() == old(self).state() && final(self).journal()
                == old(self).journal(),
    {
        if self.contains(id) {
            let t = tombstone();
            let ghost before = self.journal@;
            let ghost tv = t@;
            self.journal.push(t);
            proof {
                assert(views(self.journal@) =~= views(before).push(tv));
            }
            self.erase(id);
            true
        } else {
            false
        }
    }

    /// Brings the index in line with a full snapshot: each snapshot record
    /// is applied as an update, then every entity the snapshot lacks is
    /// erased with the tombstone `delete_fn` makes for it.
    pub fn reconcile<F: Fn(u64) -> T>(&mut self, items: Vec<T>, delete_fn: F)
        requires
            old(self).wf(),
            forall|id: u64| delete_fn.requires((id,)),
        ensures
            final(self).wf(),
            final(self).state() == reconciled::<T>(old(self).state(), views(items@)),
            exists|gone: Seq<u64>, tombs: Seq<T>|
                {
                    &&& gone.no_duplicates()
                    &&& gone.to_set() == old(self).state().dom() - keys_of::<T>(views(items@))
                    &&& tombs.len() == gone.len()
                    &&& forall|j: int|
                        0 <= j < gone.len() ==> delete_fn.ensures((gone[j],), #[trigger] tombs[j])
                    &&& final(self).journal() == old(self).journal() + update_log::<T>(
                        old(self).state(),
                        views(items@),
                    ) + views(tombs)
                },
    {
        let _ = self.sync(items, delete_fn);
    }

    /// `reconcile`, also telling for each snapshot record whether it
    /// changed the index (and so was journaled).
    pub fn sync<F: Fn(u64) -> T>(&mut self, items: Vec<T>, delete_fn: F) -> (changed: Vec<bool>)
        requires
            old(self).wf(),
            forall|id: u64| delete_fn.requires((id,)),
        ensures
            changed@.len() == items@.len(),
            forall|j: int|
                0 <= j < items@.len() ==> #[trigger] changed@[j] == update_changes::<T>(
                    updated::<T>(old(self).state(), views(items@).subrange(0, j)),
                    T::key_of(items@[j]@),
                    items@[j]@,
                ),
            final(self).wf(),
            final(self).state() == reconciled::<T>(old(self).state(), views(items@)),
            exists|gone: Seq<u64>, tombs: Seq<T>|
                {
                    &&& gone.no_duplicates()
                    &&& gone.to_set() == old(self).state().dom() - keys_of::<T>(views(items@))
                    &&& tombs.len() == gone.len()
                    &&& forall|j: int|
                        0 <= j < gone.len() ==> delete_fn.ensures((gone[j],), #[trigger] tombs[j])
                    &&& final(self).journal() == old(self).journal() + update_log::<T>(
                        old(self).state(),
                        views(items@),
                    ) + views(tombs)
                },
    {
        let ghost s0 = self.state();
        let ghost j0 = self.journal();
        let ghost xs = views(items@);
        let mut seen: HashSet<u64> = HashSet::new();
        let mut changed: Vec<bool> = Vec::new();
        let n = items.len();
        let mut i: usize = 0;
        proof {
            assert(xs.subrange(0, 0) =~= Seq::<T::V>::empty());
            assert(keys_of::<T>(Seq::<T::V>::empty()) =~= Set::<u64>::empty());
            assert(j0 + Seq::<T::V>::empty() =~= j0);
        }
        while i < n
            invariant
                i <= n == items@.len(),
                xs == views(items@),
                self.wf(),
                self.state() == updated::<T>(s0, xs.subrange(0, i as int)),
                self.journal() == j0 + update_log::<T>(s0, xs.subrange(0, i as int)),
                seen@ == keys_of::<T>(xs.subrange(0, i as int)),
                changed@.len() == i,
                forall|j: int|
                    0 <= j < i ==> #[trigger] changed@[j] == update_changes::<T>(
                        updated::<T>(s0, xs.subrange(0, j)),
                        T::key_of(items@[j]@),
                        items@[j]@,
                    ),
            decreases n - i,
        {
            let item = items[i].copied();
            let id = item.id();
            seen.insert(id);
            proof {
                let next = xs.subrange(0, i as int + 1);
                assert(next.drop_last() =~= xs.subrange(0, i as int));
                assert(next.last() == xs[i as int]);
                assert forall|k: u64| keys_of::<T>(next).contains(k) <==> (keys_of::<T>(
                    xs.subrange(0, i as int),
                ).contains(k) || k == id) by {
                    let prev = xs.subrange(0, i as int);
                    if keys_of::<T>(next).contains(k) {
                        let a = choose|a: int| 0 <= a < next.len() && T::key_of(#[trigger] next[a]) == k;
                        if a < i {
                            assert(prev[a] == next[a]);
                        }
                    }
                    if keys_of::<T>(prev).contains(k) {
                        let a = choose|a: int| 0 <= a < prev.len() && T::key_of(#[trigger] prev[a]) == k;
                        assert(prev[a] == next[a]);
                    }
                    if k == id {
                        assert(T::key_of(next[i as int]) == k);
                    }
                }
                assert(seen@ =~= keys_of::<T>(next));
            }
            let ghost iv = item@;
            let flag = self.handle_update(id, item);
            changed.push(flag);
            proof {
                assert(iv == items@[i as int]@);
                assert(xs.subrange(0, i as int) == views(items@).subrange(0, i as int));
                let next = xs.subrange(0, i as int + 1);
                assert(self.journal() =~= j0 + update_log::<T>(s0, next));
            }
            i = i + 1;
        }
        proof {
            assert(xs.subrange(0, n as int) =~= xs);
            lemma_updated_dom::<T>(s0, xs);
        }
        let ghost mid = self.state();
        let ghost j1 = self.journal();
        let ghost keys = keys_of::<T>(xs);
        let cached = self.ids();
        let m = cached.len();
        let mut c: usize = 0;
        let ghost mut gone: Seq<u64> = Seq::empty();
        let ghost mut tombs: Seq<T> = Seq::empty();
        proof {
            assert(j1 + views(tombs) =~= j1);
            assert(mid.remove_keys(gone.to_set()) =~= mid);
        }
        while c < m
            invariant
                c <= m == cached@.len(),
                cached@.to_set() == mid.dom(),
                cached@.no_duplicates(),
                seen@ == keys,
                self.wf(),
                forall|id: u64| delete_fn.requires((id,)),
                gone.no_duplicates(),
                gone.to_set() == cached@.subrange(0, c as int).to_set() - keys,
                tombs.len() == gone.len(),
                forall|j: int| 0 <= j < gone.len() ==> delete_fn.ensures((gone[j],), #[trigger] tombs[j]),
                self.state() == mid.remove_keys(gone.to_set()),
                self.journal() == j1 + views(tombs),
            decreases m - c,
        {
            let id = cached[c];
            let ghost done = cached@.subrange(0, c as int);
            let ghost next = cached@.subrange(0, c as int + 1);
            proof {
                assert(next =~= done.push(id));
                assert(!done.contains(id)) by {
                    if done.contains(id) {
                        let a = choose|a: int| 0 <= a < done.len() && done[a] == id;
                        assert(cached@[a] == cached@[c as int]);
                    }
                }
                assert(cached@.to_set().contains(id)) by {
                    assert(cached@.contains(id));
                }
            }
            if !seen.contains(&id) {
                let t = delete_fn(id);
                let ghost before = self.journal@;
                let ghost tv = t@;
                self.journal.push(t);
                proof {
                    assert(views(self.journal@) =~= views(before).push(tv));
                }
                self.erase(id);
                proof {
                    assert(!gone.contains(id)) by {
                        if gone.contains(id) {
                            assert(gone.to_set().contains(id));
                        }
                    }
                    let g2 = gone.push(id);
                    assert(!keys.contains(id));
                    assert(next[c as int] == id);
                    assert(next.contains(id));
                    assert(g2.to_set() =~= gone.to_set().insert(id)) by {
                        assert forall|k: u64| g2.contains(k) <==> (gone.contains(k) || k == id) by {
                            if g2.contains(k) {
                                let a = choose|a: int| 0 <= a < g2.len() && g2[a] == k;
                                if a < gone.len() {
                                    assert(gone[a] == k);
                                }
                            }
                            if gone.contains(k) {
                                let a = choose|a: int| 0 <= a < gone.len() && gone[a] == k;
                                assert(g2[a] == k);
                            }
                            if k == id {
                                assert(g2[gone.len() as int] == k);
                            }
                        }
                    }
                    assert(g2.to_set() =~= next.to_set() - keys) by {
                        assert forall|k: u64| g2.to_set().contains(k) <==> (next.to_set() - keys).contains(k) by {
                            if g2.contains(k) {
                                let a = choose|a: int| 0 <= a < g2.len() && g2[a] == k;
                                if a < gone.len() {
                                    assert(gone.contains(k));
                                    assert(gone.to_set().contains(k));
                                    assert(done.to_set().contains(k));
                                    let b = choose|b: int| 0 <= b < done.len() && done[b] == k;
                                    assert(next[b] == k);
                                }
                            }
                            if next.contains(k) && !keys.contains(k) {
                                let a = choose|a: int| 0 <= a < next.len() && next[a] == k;
                                if a < done.len() {
                                    assert(done[a] == k);
                                    assert(done.contains(k));
                                    assert((done.to_set() - keys).contains(k));
                                    assert(gone.contains(k));
                                    let b = choose|b: int| 0 <= b < gone.len() && gone[b] == k;
                                    assert(g2[b] == k);
                                } else {
                                    assert(g2[gone.len() as int] == k);
                                }
                            }
                        }
                    }
                    assert(g2.no_duplicates());
                    assert(self.state() =~= mid.remove_keys(g2.to_set()));
                    let t2 = tombs.push(t);
                    assert(self.journal() =~= j1 + views(t2));
                    assert forall|j: int| 0 <= j < g2.len() implies delete_fn.ensures(
                        (g2[j],),
                        #[trigger] t2[j],
                    ) by {
                        if j < gone.len() {
                            assert(g2[j] == gone[j]);
                            assert(t2[j] == tombs[j]);
                        }
                    }
                    gone = g2;
                    tombs = t2;
                }
            } else {
                proof {
                    assert(gone.to_set() =~= next.to_set() - keys) by {
                        assert forall|k: u64| gone.to_set().contains(k) <==> (next.to_set() - keys).contains(k) by {
                            if gone.contains(k) {
                                assert(gone.to_set().contains(k));
                                assert(done.to_set().contains(k));
                                let a = choose|a: int| 0 <= a < done.len() && done[a] == k;
                                assert(next[a] == k);
                            }
                            if next.contains(k) && !keys.contains(k) {
                                let a = choose|a: int| 0 <= a < next.len() && next[a] == k;
                                if a < done.len() {
                                    assert(done[a] == k);
                                    assert(done.contains(k));
                                } else {
                                    assert(k == id);
                                }
                            }
                        }
                    }
                }
            }
            c = c + 1;
        }
        proof {
            assert(cached@.subrange(0, m as int) =~= cached@);
            assert(gone.to_set() =~= s0.dom() - keys);
            assert(self.state() =~= reconciled::<T>(s0, xs));
            assert(self.journal() =~= j0 + update_log::<T>(s0, xs) + views(tombs));
        }
        changed
    }

    /// The entities the index holds, each once.
    pub fn ids(&self) -> (r: Vec<u64>)
        requires
            self.wf(),
        ensures
            r@.to_set() == self.state().dom(),
            r@.no_duplicates(),
    {
        let mut r: Vec<u64> = Vec::new();
        let n = self.entries.len();
        let mut i: usize = 0;
        while i < n
            invariant
                i <= n == self.entries@.len(),
                self.wf(),
                r@.len() == i,
                forall|j: int| 0 <= j < i ==> r@[j] == self.entries@[j].0,
            decreases n - i,
        {
            r.push(self.entries[i].0);
            i = i + 1;
        }
        proof {
            assert forall|a: int, b: int| 0 <= a < b < r@.len() implies r@[a] != r@[b] by {
                assert(self.index@[self.entries@[a].0] == a);
                assert(self.index@[self.entries@[b].0] == b);
            }
            assert forall|k: u64| r@.to_set().contains(k) <==> self.state().dom().contains(k) by {
                if self.index@.contains_key(k) {
                    let j = self.index@[k] as int;
                    assert(r@[j] == k);
                    assert(r@.contains(k));
                }
                if r@.contains(k) {
                    let j = choose|j: int| 0 <= j < r@.len() && r@[j] == k;
                    assert(self.index@.contains_key(self.entries@[j].0));
                }
            }
            assert(r@.to_set() =~= self.state().dom());
        }
        r
    }

    /// Hands over the journal, leaving it empty.
    pub fn take_journal(&mut self) -> (r: Vec<T>)
        requires
            old(self).wf(),
        ensures
            final(self).wf(),
            views(r@) == old(self).journal(),
            final(self).journal() == Seq::<T::V>::empty(),
            final(self).state() == old(self).state(),
    {
        let mut r: Vec<T> = Vec::new();
        std::mem::swap(&mut r, &mut self.journal);
        proof {
            assert(views(self.journal@) =~= Seq::<T::V>::empty());
        }
        r
    }

    fn erase(&mut self, id: u64)
        requires
            old(self).wf(),
        ensures
            final(self).wf(),
            final(self).state() == old(self).state().remove(id),
            final(self).journal@ == old(self).journal@,
    {
        match self.index.remove(&id) {
            None => {
                proof {
                    assert(self.state() =~= old(self).state().remove(id));
                }
            },
            Some(i) => {
                let last = self.entries.len() - 1;
                let _ = self.entries.swap_remove(i);
                if i < last {
                    let moved = self.entries[i].0;
                    self.index.insert(moved, i);
                    proof {
                        let oe = old(self).entries@;
                        assert(oe[last as int].0 == moved);
                        assert forall|k: u64| #[trigger]
                            self.index@.contains_key(k) implies (self.index@[k] as int)
                            < self.entries@.len() && self.entries@[self.index@[k] as int].0 == k by {
                            if k != moved {
                                assert(old(self).index@.contains_key(k));
                                assert(k != id);
                                let j = old(self).index@[k] as int;
                                assert(oe[j].0 == k);
                                assert(j != i as int);
                                assert(j != last as int);
                            }
                        }
                        assert forall|j: int|
                            0 <= j < self.entries@.len() implies self.index@.contains_key(
                            #[trigger] self.entries@[j].0,
                        ) && self.index@[self.entries@[j].0] == j by {
                            if j != i as int {
                                assert(self.entries@[j] == oe[j]);
                                assert(old(self).index@.contains_key(oe[j].0));
                                assert(oe[j].0 != id);
                                assert(oe[j].0 != moved);
                            }
                        }
                        assert(self.state() =~= old(self).state().remove(id));
                    }
                } else {
                    proof {
                        let oe = old(self).entries@;
                        assert forall|k: u64| #[trigger]
                            self.index@.contains_key(k) implies (self.index@[k] as int)
                            < self.entries@.len() && self.entries@[self.index@[k] as int].0 == k by {
                            assert(old(self).index@.contains_key(k));
                            let j = old(self).index@[k] as int;
                            assert(j != i as int);
                        }
                        assert forall|j: int|
                            0 <= j < self.entries@.len() implies self.index@.contains_key(
                            #[trigger] self.entries@[j].0,
                        ) && self.index@[self.entries@[j].0] == j by {
                            assert(self.entries@[j] == oe[j]);
                            assert(old(self).index@.contains_key(oe[j].0));
                        }
                        assert(self.state() =~= old(self).state().remove(id));
                    }
                }
            },
        }
    }
}

} // verus!
