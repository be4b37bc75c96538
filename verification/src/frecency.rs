//! Launch history per result id, from which the router derives a
//! recency-weighted boost. Only the most recent launches of an id are kept.
use vstd::prelude::*;

verus! {

/// The most launches that are remembered for one id.
pub const MAX_LAUNCHES: usize = 50;

/// The launch times of one result id.
pub struct LaunchEntry {
    pub id: String,
    pub timestamps: Vec<u64>,
}

/// For each result id, the UNIX times (seconds) at which it was launched.
pub struct FrecencyStore {
    entries: Vec<LaunchEntry>,
}

/// The entries as pairs of id and launch times.
pub open spec fn pairs_of(entries: Seq<LaunchEntry>) -> Seq<(Seq<char>, Seq<u64>)> {
    entries.map_values(|e: LaunchEntry| (e.id@, e.timestamps@))
}

/// No id occurs twice.
pub open spec fn distinct_ids(es: Seq<(Seq<char>, Seq<u64>)>) -> bool {
    forall|i: int, j: int| 0 <= i < es.len() && 0 <= j < es.len() && i != j ==> es[i].0 != es[j].0
}

/// The map from id to launch times that a list of entries describes.
pub open spec fn to_map(es: Seq<(Seq<char>, Seq<u64>)>) -> Map<Seq<char>, Seq<u64>>
    decreases es.len(),
{
    if es.len() == 0 {
        Map::empty()
    } else {
        to_map(es.drop_last()).insert(es.last().0, es.last().1)
    }
}

/// The last `MAX_LAUNCHES` elements of `s` (all of them if there are fewer).
pub open spec fn keep_recent(s: Seq<u64>) -> Seq<u64> {
    if s.len() > MAX_LAUNCHES {
        s.skip(s.len() - MAX_LAUNCHES)
    } else {
        s
    }
}

/// The launch times of `id` in `m` (none if it was never launched).
pub open spec fn launches_in(m: Map<Seq<char>, Seq<u64>>, id: Seq<char>) -> Seq<u64> {
    if m.dom().contains(id) {
        m[id]
    } else {
        Seq::empty()
    }
}

/// The history after a launch of `id` at time `now`.
pub open spec fn after_launch(m: Map<Seq<char>, Seq<u64>>, id: Seq<char>, now: u64) -> Map<
    Seq<char>,
    Seq<u64>,
> {
    m.insert(id, keep_recent(launches_in(m, id).push(now)))
}

/// The ids of the map are those of the entries.
pub proof fn lemma_to_map_dom(es: Seq<(Seq<char>, Seq<u64>)>, k: Seq<char>)
    ensures
        to_map(es).dom().contains(k) <==> exists|i: int| 0 <= i < es.len() && es[i].0 == k,
    decreases es.len(),
{
    if es.len() > 0 {
        lemma_to_map_dom(es.drop_last(), k);
        if to_map(es.drop_last()).dom().contains(k) {
            let i = choose|i: int| 0 <= i < es.drop_last().len() && es.drop_last()[i].0 == k;
            assert(es[i].0 == k);
        }
        if exists|i: int| 0 <= i < es.len() && es[i].0 == k {
            let i = choose|i: int| 0 <= i < es.len() && es[i].0 == k;
            if i < es.len() - 1 {
                assert(es.drop_last()[i].0 == k);
            }
        }
    }
}

/// With distinct ids, each entry's launches are the map's value for its id.
pub proof fn lemma_to_map_value(es: Seq<(Seq<char>, Seq<u64>)>, i: int)
    requires
        distinct_ids(es),
        0 <= i < es.len(),
    ensures
        to_map(es).dom().contains(es[i].0),
        to_map(es)[es[i].0] == es[i].1,
    decreases es.len(),
{
    if i < es.len() - 1 {
        assert(es.drop_last()[i] == es[i]);
        assert(distinct_ids(es.drop_last()));
        lemma_to_map_value(es.drop_last(), i);
        assert(es.last().0 != es[i].0);
    }
}

/// Replacing the launch times of an entry changes the map at that id only.
pub proof fn lemma_to_map_update(es: Seq<(Seq<char>, Seq<u64>)>, i: int, v: Seq<u64>)
    requires
        distinct_ids(es),
        0 <= i < es.len(),
    ensures
        distinct_ids(es.update(i, (es[i].0, v))),
        to_map(es.update(i, (es[i].0, v))) == to_map(es).insert(es[i].0, v),
{
    let k = es[i].0;
    let es2 = es.update(i, (k, v));
    assert(distinct_ids(es2));
    let m1 = to_map(es2);
    let m2 = to_map(es).insert(k, v);
    assert forall|key: Seq<char>| m1.dom().contains(key) <==> m2.dom().contains(key) by {
        lemma_to_map_dom(es2, key);
        lemma_to_map_dom(es, key);
        if exists|j: int| 0 <= j < es.len() && es[j].0 == key {
            let j = choose|j: int| 0 <= j < es.len() && es[j].0 == key;
            assert(es2[j].0 == key);
        }
        if exists|j: int| 0 <= j < es2.len() && es2[j].0 == key {
            let j = choose|j: int| 0 <= j < es2.len() && es2[j].0 == key;
            assert(es[j].0 == key);
        }
    }
    assert forall|key: Seq<char>| #[trigger] m1.dom().contains(key) implies m1[key] == m2[key] by {
        lemma_to_map_dom(es2, key);
        let j = choose|j: int| 0 <= j < es2.len() && es2[j].0 == key;
        lemma_to_map_value(es2, j);
        if j != i {
            lemma_to_map_value(es, j);
        }
    }
    assert(m1 =~= m2);
}

impl FrecencyStore {
    #[verifier::type_invariant]
    spec fn inv(self) -> bool {
        distinct_ids(pairs_of(self.entries@))
    }

    /// The launch history: for each id that was launched, its launch times.
    pub closed spec fn history(&self) -> Map<Seq<char>, Seq<u64>> {
        to_map(pairs_of(self.entries@))
    }

    /// An empty history.
    pub fn new() -> (r: Self)
        ensures
            r.history() == Map::<Seq<char>, Seq<u64>>::empty(),
    {
        let r = FrecencyStore { entries: Vec::new() };
        assert(pairs_of(r.entries@) =~= Seq::<(Seq<char>, Seq<u64>)>::empty());
        r
    }

    fn index_of(&self, id: &String) -> (r: Option<usize>)
        ensures
            match r {
                Some(i) => i < self.entries.len() && self.entries@[i as int].id@ == id@,
                None => forall|j: int|
                    0 <= j < self.entries.len() ==> self.entries@[j].id@ != id@,
            },
    {
        let mut i: usize = 0;
        while i < self.entries.len()
            invariant
                i <= self.entries.len(),
                forall|j: int| 0 <= j < i ==> self.entries@[j].id@ != id@,
            decreases self.entries.len() - i,
        {
            if self.entries[i].id == *id {
                return Some(i);
            }
            i = i + 1;
        }
        None
    }

    proof fn lemma_absent(&self, id: Seq<char>)
        requires
            forall|j: int| 0 <= j < self.entries.len() ==> self.entries@[j].id@ != id,
        ensures
            !self.history().dom().contains(id),
    {
        lemma_to_map_dom(pairs_of(self.entries@), id);
    }

    /// The recorded launch times of `id`, oldest first.
    pub fn launches(&self, id: &str) -> (r: Vec<u64>)
        ensures
            r@ == launches_in(self.history(), id@),
    {
        proof {
            use_type_invariant(self);
        }
        let key = String::from_str(id);
        match self.index_of(&key) {
            Some(i) => {
                proof {
                    lemma_to_map_value(pairs_of(self.entries@), i as int);
                }
                self.entries[i].timestamps.clone()
            },
            None => {
                proof {
                    self.lemma_absent(id@);
                }
                Vec::new()
            },
        }
    }

    /// Replaces the recorded launch times of `id`.
    pub fn set_launches(&mut self, id: &str, timestamps: Vec<u64>)
        ensures
            final(self).history() == old(self).history().insert(id@, timestamps@),
    {
        proof {
            use_type_invariant(&*self);
        }
        let key = String::from_str(id);
        match self.index_of(&key) {
            Some(i) => {
                let ghost es = pairs_of(self.entries@);
                proof {
                    lemma_to_map_update(es, i as int, timestamps@);
                }
                let mut entries: Vec<LaunchEntry> = Vec::new();
                std::mem::swap(&mut entries, &mut self.entries);
                entries.set(i, LaunchEntry { id: key, timestamps });
                assert(pairs_of(entries@) =~= es.update(i as int, (es[i as int].0, timestamps@)));
                self.entries = entries;
            },
            None => {
                let ghost es = pairs_of(self.entries@);
                let mut entries: Vec<LaunchEntry> = Vec::new();
                std::mem::swap(&mut entries, &mut self.entries);
                entries.push(LaunchEntry { id: key, timestamps });
                assert(pairs_of(entries@) =~= es.push((id@, timestamps@)));
                assert(pairs_of(entries@).drop_last() =~= es);
                self.entries = entries;
            },
        }
    }

    /// The ids that have a launch history, in the order they were first recorded.
    pub fn ids(&self) -> (r: Vec<String>)
        ensures
            r@.len() == self.history().dom().len(),
            forall|i: int| 0 <= i < r@.len() ==> self.history().dom().contains(#[trigger] r@[i]@),
            forall|k: Seq<char>|
                self.history().dom().contains(k) ==> exists|i: int|
                    0 <= i < r@.len() && #[trigger] r@[i]@ == k,
    {
        proof {
            use_type_invariant(self);
        }
        let mut r: Vec<String> = Vec::new();
        let mut i: usize = 0;
        while i < self.entries.len()
            invariant
                i <= self.entries.len(),
                r@.len() == i,
                forall|j: int| 0 <= j < i ==> r@[j]@ == self.entries@[j].id@,
            decreases self.entries.len() - i,
        {
            r.push(self.entries[i].id.clone());
            i = i + 1;
        }
        let ghost es = pairs_of(self.entries@);
        proof {
            assert forall|j: int| 0 <= j < r@.len() implies self.history().dom().contains(
                #[trigger] r@[j]@,
            ) by {
                lemma_to_map_value(es, j);
            }
            assert forall|k: Seq<char>| self.history().dom().contains(k) implies exists|j: int|
                0 <= j < r@.len() && #[trigger] r@[j]@ == k by {
                lemma_to_map_dom(es, k);
                let j = choose|j: int| 0 <= j < es.len() && es[j].0 == k;
                assert(r@[j]@ == k);
            }
            lemma_to_map_len(es);
        }
        r
    }

    /// Records a launch of `id` at time `now`, keeping only its most recent launches.
    pub fn register_use_at(&mut self, id: &str, now: u64)
        ensures
            final(self).history() == after_launch(old(self).history(), id@, now),
    {
        let mut launches = self.launches(id);
        launches.push(now);
        if launches.len() > MAX_LAUNCHES {
            let drop = launches.len() - MAX_LAUNCHES;
            let mut kept: Vec<u64> = Vec::new();
            let mut i = drop;
            while i < launches.len()
                invariant
                    drop <= i <= launches.len(),
                    kept@ == launches@.subrange(drop as int, i as int),
                decreases launches.len() - i,
            {
                kept.push(launches[i]);
                i = i + 1;
            }
            assert(kept@ =~= launches@.skip(drop as int));
            launches = kept;
        }
        self.set_launches(id, launches);
    }

    /// Records a launch of `id` now (the system clock's UNIX time).
    pub fn register_use(&mut self, id: &str)
        ensures
            exists|now: u64| final(self).history() == after_launch(old(self).history(), id@, now),
    {
        let now = unix_time_now();
        self.register_use_at(id, now);
    }
}

/// With distinct ids, the map has one id per entry.
pub proof fn lemma_to_map_len(es: Seq<(Seq<char>, Seq<u64>)>)
    requires
        distinct_ids(es),
    ensures
        to_map(es).dom().len() == es.len(),
        to_map(es).dom().finite(),
    decreases es.len(),
{
    if es.len() > 0 {
        let rest = es.drop_last();
        assert(distinct_ids(rest));
        lemma_to_map_len(rest);
        lemma_to_map_dom(rest, es.last().0);
        if to_map(rest).dom().contains(es.last().0) {
            let i = choose|i: int| 0 <= i < rest.len() && rest[i].0 == es.last().0;
            assert(es[i].0 == es[es.len() - 1].0);
        }
    }
}

/// A launch is recorded: afterwards `id`'s launches end with `now`, are the
/// previous ones followed by `now` with the oldest dropped beyond
/// `MAX_LAUNCHES`, and the launches of every other id are unchanged.
pub proof fn lemma_launch_recorded(m: Map<Seq<char>, Seq<u64>>, id: Seq<char>, now: u64)
    ensures
        launches_in(after_launch(m, id, now), id).last() == now,
        launches_in(after_launch(m, id, now), id).len() == if launches_in(m, id).len() + 1
            > MAX_LAUNCHES {
            MAX_LAUNCHES as int
        } else {
            launches_in(m, id).len() + 1int
        },
        launches_in(after_launch(m, id, now), id).len() <= MAX_LAUNCHES,
        launches_in(after_launch(m, id, now), id).len() > 0,
        forall|k: int|
            0 <= k < launches_in(after_launch(m, id, now), id).len() - 1 ==> #[trigger] launches_in(
                after_launch(m, id, now),
                id,
            )[k] == launches_in(m, id)[launches_in(m, id).len() + 1 - launches_in(
                after_launch(m, id, now),
                id,
            ).len() + k],
        forall|other: Seq<char>|
            other != id ==> #[trigger] launches_in(after_launch(m, id, now), other) == launches_in(
                m,
                other,
            ),
{
    let l = launches_in(after_launch(m, id, now), id);
    let p = launches_in(m, id).push(now);
    assert(l == keep_recent(p));
    assert forall|other: Seq<char>| other != id implies #[trigger] launches_in(
        after_launch(m, id, now),
        other,
    ) == launches_in(m, other) by {
        let a = after_launch(m, id, now);
        assert(a.dom().contains(other) == m.dom().contains(other));
    }
}

impl Default for FrecencyStore {
    fn default() -> (r: Self)
        ensures
            r.history() == Map::<Seq<char>, Seq<u64>>::empty(),
    {
        FrecencyStore::new()
    }
}

/// The current UNIX time in seconds, read from the system clock
/// (`SystemTime::now` measured from `UNIX_EPOCH`; 0 if the clock is before it).
/// Nothing is promised about the value.
#[verifier::external_body]
fn unix_time_now() -> u64 {
    std::time::SystemTime::now().duration_since(std::time::UNIX_EPOCH).unwrap_or_default().as_secs()
}

} // verus!
