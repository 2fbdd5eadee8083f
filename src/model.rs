use vstd::prelude::*;

use crate::cow::{initial_health, CowView};

verus! {

/// The mathematical state of a registry: the stored cows in ascending id
/// order, and the last id that the counter handed out (0 before any).
pub struct HerdView {
    pub cows: Seq<CowView>,
    pub last_id: u64,
}

/// Adds `amount` to `total`, stopping at `u64::MAX`.
pub open spec fn saturating_sum(total: u64, amount: u64) -> u64 {
    if total + amount > u64::MAX {
        u64::MAX
    } else {
        (total + amount) as u64
    }
}

/// The sum of the milk counters of a sequence of cows.
pub open spec fn milk_sum(cows: Seq<CowView>) -> int
    decreases cows.len(),
{
    if cows.len() == 0 {
        0
    } else {
        milk_sum(cows.drop_last()) + cows.last().milk_produced
    }
}

/// `cow` with the supplied fields replaced and the others kept.
pub open spec fn revise_fields(cow: CowView, name: Option<Seq<char>>, age: Option<u64>) -> CowView {
    CowView {
        name: match name {
            Some(n) => n,
            None => cow.name,
        },
        age: match age {
            Some(a) => a,
            None => cow.age,
        },
        ..cow
    }
}

/// A sum of counters is never negative.
pub proof fn lemma_milk_sum_nonneg(cows: Seq<CowView>)
    ensures
        milk_sum(cows) >= 0,
    decreases cows.len(),
{
    if cows.len() > 0 {
        lemma_milk_sum_nonneg(cows.drop_last());
    }
}

impl HerdView {
    /// Ids strictly ascend along the sequence (so none repeats), and every
    /// stored id was handed out by the counter: it lies in `1..=last_id`.
    pub open spec fn well_formed(self) -> bool {
        &&& forall|i: int, j: int|
            0 <= i < j < self.cows.len() ==> #[trigger] self.cows[i].id < #[trigger] self.cows[j].id
        &&& forall|i: int| 0 <= i < self.cows.len() ==> 1 <= #[trigger] self.cows[i].id <= self.last_id
    }

    pub open spec fn contains(self, id: u64) -> bool {
        exists|i: int| 0 <= i < self.cows.len() && #[trigger] self.cows[i].id == id
    }

    /// The position of the cow with this id; meaningful where `contains(id)`.
    pub open spec fn index_of(self, id: u64) -> int {
        choose|i: int| 0 <= i < self.cows.len() && #[trigger] self.cows[i].id == id
    }

    /// The cow stored under `id`, if any.
    pub open spec fn lookup(self, id: u64) -> Option<CowView> {
        if self.contains(id) {
            Some(self.cows[self.index_of(id)])
        } else {
            None
        }
    }

    /// The id that the next successful registration receives.
    pub open spec fn next_id(self) -> int {
        self.last_id + 1
    }

    /// The cow that a registration with these values creates.
    pub open spec fn fresh(self, name: Seq<char>, age: u64, now: u64) -> CowView {
        CowView {
            id: (self.last_id + 1) as u64,
            name,
            age,
            milk_produced: 0,
            health_status: initial_health(),
            created_at: now,
        }
    }

    /// The state after registering a cow: the counter advances and the
    /// new record goes last.
    pub open spec fn admitted(self, name: Seq<char>, age: u64, now: u64) -> HerdView {
        HerdView {
            cows: self.cows.push(self.fresh(name, age, now)),
            last_id: (self.last_id + 1) as u64,
        }
    }

    /// The state after replacing the record of `id` (unchanged if absent).
    pub open spec fn replaced(self, id: u64, cow: CowView) -> HerdView {
        if self.contains(id) {
            HerdView { cows: self.cows.update(self.index_of(id), cow), ..self }
        } else {
            self
        }
    }

    /// The state after changing the supplied fields of cow `id`.
    pub open spec fn revised(self, id: u64, name: Option<Seq<char>>, age: Option<u64>) -> HerdView {
        self.replaced(id, revise_fields(self.cows[self.index_of(id)], name, age))
    }

    /// The state after recording `amount` of milk for cow `id`.
    pub open spec fn recorded(self, id: u64, amount: u64) -> HerdView {
        let c = self.cows[self.index_of(id)];
        self.replaced(id, CowView { milk_produced: saturating_sum(c.milk_produced, amount), ..c })
    }

    /// The state after setting the health status of cow `id`.
    pub open spec fn with_health(self, id: u64, status: Seq<char>) -> HerdView {
        self.replaced(id, CowView { health_status: status, ..self.cows[self.index_of(id)] })
    }

    /// The state after deleting cow `id`; the counter is untouched, so the
    /// id is retired.
    pub open spec fn removed(self, id: u64) -> HerdView {
        if self.contains(id) {
            HerdView { cows: self.cows.remove(self.index_of(id)), ..self }
        } else {
            self
        }
    }

    /// The milk produced by all stored cows together.
    pub open spec fn total_milk(self) -> int {
        milk_sum(self.cows)
    }
}

/// In a well-formed state the position of an id is the only one holding it.
pub proof fn lemma_index_of(h: HerdView, i: int)
    requires
        h.well_formed(),
        0 <= i < h.cows.len(),
    ensures
        h.contains(h.cows[i].id),
        h.index_of(h.cows[i].id) == i,
        h.lookup(h.cows[i].id) == Some(h.cows[i]),
{
    let id = h.cows[i].id;
    assert(h.cows[i].id == id);
    let j = h.index_of(id);
    if j < i {
        assert(h.cows[j].id < h.cows[i].id);
    } else if j > i {
        assert(h.cows[i].id < h.cows[j].id);
    }
}

/// Replacing a record by one with the same id keeps the state well formed
/// and the positions of all ids.
pub proof fn lemma_replaced(h: HerdView, id: u64, cow: CowView)
    requires
        h.well_formed(),
        h.contains(id),
        cow.id == id,
    ensures
        h.replaced(id, cow).well_formed(),
        h.replaced(id, cow).contains(id),
        h.replaced(id, cow).index_of(id) == h.index_of(id),
        h.replaced(id, cow).lookup(id) == Some(cow),
        h.replaced(id, cow).last_id == h.last_id,
        forall|other: u64| other != id ==> h.replaced(id, cow).lookup(other) == #[trigger] h.lookup(other),
{
    let g = h.replaced(id, cow);
    let k = h.index_of(id);
    assert forall|i: int, j: int| 0 <= i < j < g.cows.len() implies #[trigger] g.cows[i].id
        < #[trigger] g.cows[j].id by {
        assert(h.cows[i].id < h.cows[j].id);
    }
    assert forall|i: int| 0 <= i < g.cows.len() implies 1 <= #[trigger] g.cows[i].id
        <= g.last_id by {
        assert(h.cows[i].id == g.cows[i].id);
    }
    lemma_index_of(g, k);
    assert forall|other: u64| other != id implies g.lookup(other) == #[trigger] h.lookup(other) by {
        if h.contains(other) {
            let m = h.index_of(other);
            lemma_index_of(h, m);
            assert(m != k);
            lemma_index_of(g, m);
        } else if g.contains(other) {
            let m = g.index_of(other);
            assert(h.cows[m].id == other);
        }
    }
}

/// Deleting a stored id keeps the state well formed, leaves the id absent
/// and the counter where it was.
pub proof fn lemma_removed(h: HerdView, id: u64)
    requires
        h.well_formed(),
        h.contains(id),
    ensures
        h.removed(id).well_formed(),
        !h.removed(id).contains(id),
        h.removed(id).last_id == h.last_id,
        forall|other: u64| #[trigger] h.removed(id).contains(other) ==> h.contains(other),
{
    let k = h.index_of(id);
    let g = h.removed(id);
    assert(h.cows[k].id == id);
    assert forall|i: int| 0 <= i < g.cows.len() implies #[trigger] g.cows[i] == h.cows[if i < k {
        i
    } else {
        i + 1
    }] by {}
    assert forall|i: int, j: int| 0 <= i < j < g.cows.len() implies #[trigger] g.cows[i].id
        < #[trigger] g.cows[j].id by {
        let a = if i < k { i } else { i + 1 };
        let b = if j < k { j } else { j + 1 };
        assert(g.cows[i] == h.cows[a]);
        assert(g.cows[j] == h.cows[b]);
        assert(h.cows[a].id < h.cows[b].id);
    }
    assert forall|i: int| 0 <= i < g.cows.len() implies 1 <= #[trigger] g.cows[i].id
        <= g.last_id by {
        let a = if i < k { i } else { i + 1 };
        assert(g.cows[i] == h.cows[a]);
    }
    assert forall|other: u64| #[trigger] g.contains(other) implies h.contains(other) by {
        let m = g.index_of(other);
        let a = if m < k { m } else { m + 1 };
        assert(g.cows[m] == h.cows[a]);
    }
    if g.contains(id) {
        let m = g.index_of(id);
        let a = if m < k { m } else { m + 1 };
        assert(g.cows[m] == h.cows[a]);
        if a < k {
            assert(h.cows[a].id < h.cows[k].id);
        } else {
            assert(h.cows[k].id < h.cows[a].id);
        }
    }
}

/// Registering a cow keeps the state well formed and stores the new record
/// under the new id; the records already there stay where they were.
pub proof fn lemma_admitted(h: HerdView, name: Seq<char>, age: u64, now: u64)
    requires
        h.well_formed(),
        h.last_id < u64::MAX,
    ensures
        h.admitted(name, age, now).well_formed(),
        h.admitted(name, age, now).lookup(h.fresh(name, age, now).id) == Some(
            h.fresh(name, age, now),
        ),
        h.admitted(name, age, now).last_id == h.last_id + 1,
        forall|other: u64|
            other != h.fresh(name, age, now).id ==> h.admitted(name, age, now).lookup(other)
                == #[trigger] h.lookup(other),
{
    let g = h.admitted(name, age, now);
    let n = h.cows.len() as int;
    assert forall|i: int| 0 <= i < n implies #[trigger] g.cows[i] == h.cows[i] by {}
    assert(g.cows[n] == h.fresh(name, age, now));
    lemma_index_of(g, n);
    assert forall|other: u64| other != h.fresh(name, age, now).id implies g.lookup(other)
        == #[trigger] h.lookup(other) by {
        if h.contains(other) {
            let m = h.index_of(other);
            lemma_index_of(h, m);
            assert(g.cows[m] == h.cows[m]);
            lemma_index_of(g, m);
        } else if g.contains(other) {
            let m = g.index_of(other);
            if m < n {
                assert(g.cows[m] == h.cows[m]);
            }
        }
    }
}

} // verus!
