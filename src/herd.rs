use vstd::prelude::*;

use crate::codec::{decode_cow, encode_cow, record_bytes};
use crate::cow::{initial_health, Cow, CowView, HerdError};
use crate::model::{
    lemma_admitted, lemma_index_of, lemma_milk_sum_nonneg, lemma_removed, lemma_replaced, milk_sum,
    saturating_sum, HerdView,
};

verus! {

/// An optional new string field, as an optional character sequence.
pub open spec fn opt_view(s: Option<String>) -> Option<Seq<char>> {
    match s {
        Some(v) => Some(v@),
        None => None,
    }
}

/// The cows `cows` with counter `last_id` form a well-formed registry, and
/// `records` holds the stored form of each of them, in the same order.
pub open spec fn stored_as(cows: Seq<CowView>, last_id: u64, records: Seq<Vec<u8>>) -> bool {
    &&& cows.len() == records.len()
    &&& forall|i: int| 0 <= i < cows.len() ==> record_bytes(#[trigger] cows[i]) == records[i]@
    &&& (HerdView { cows, last_id }).well_formed()
}

/// The registry: records kept in ascending id order, and the identity
/// counter, which holds the last id handed out.
pub struct Herd {
    cows: Vec<Cow>,
    last_id: u64,
}

impl View for Herd {
    type V = HerdView;

    closed spec fn view(&self) -> HerdView {
        HerdView { cows: self.cows@.map_values(|c: Cow| c@), last_id: self.last_id }
    }
}

impl Herd {
    pub open spec fn well_formed(&self) -> bool {
        self@.well_formed()
    }

    /// An empty registry whose counter has handed out nothing.
    pub fn new() -> (r: Herd)
        ensures
            r.well_formed(),
            r@.cows == Seq::<CowView>::empty(),
            r@.last_id == 0,
    {
        let r = Herd { cows: Vec::new(), last_id: 0 };
        assert(r@.cows =~= Seq::<CowView>::empty());
        r
    }

    /// Rebuilds a registry from persisted records and counter. They are
    /// refused as corrupt unless the ids ascend strictly and each lies in
    /// `1..=last_id`.
    pub fn restore(cows: Vec<Cow>, last_id: u64) -> (r: Result<Herd, HerdError>)
        ensures
            match r {
                Ok(h) => {
                    &&& h.well_formed()
                    &&& h@ == HerdView { cows: cows@.map_values(|c: Cow| c@), last_id }
                },
                Err(e) => {
                    &&& e == HerdError::StorageCorruption
                    &&& !(HerdView { cows: cows@.map_values(|c: Cow| c@), last_id }).well_formed()
                },
            },
    {
        let ghost h = HerdView { cows: cows@.map_values(|c: Cow| c@), last_id };
        let mut i: usize = 0;
        while i < cows.len()
            invariant
                h == (HerdView { cows: cows@.map_values(|c: Cow| c@), last_id }),
                i <= cows.len() == h.cows.len(),
                forall|a: int, b: int| 0 <= a < b < i ==> #[trigger] h.cows[a].id < #[trigger] h.cows[b].id,
                forall|a: int| 0 <= a < i ==> 1 <= #[trigger] h.cows[a].id <= last_id,
            decreases cows.len() - i,
        {
            let id = cows[i].id;
            assert(h.cows[i as int].id == id);
            if id == 0 || id > last_id {
                return Err(HerdError::StorageCorruption);
            }
            if i > 0 && cows[i - 1].id >= id {
                assert(h.cows[i - 1].id >= h.cows[i as int].id);
                return Err(HerdError::StorageCorruption);
            }
            assert forall|a: int, b: int| 0 <= a < b < i + 1 implies #[trigger] h.cows[a].id
                < #[trigger] h.cows[b].id by {
                if b == i && a < i - 1 {
                    assert(h.cows[a].id < h.cows[i - 1].id);
                }
            }
            i += 1;
        }
        let r = Herd { cows, last_id };
        assert(r@ == h);
        Ok(r)
    }

    /// The stored form of every cow, in ascending id order.
    pub fn stored_records(&self) -> (r: Vec<Vec<u8>>)
        requires
            self.well_formed(),
        ensures
            stored_as(self@.cows, self@.last_id, r@),
    {
        let ghost h = self@;
        let mut r: Vec<Vec<u8>> = Vec::new();
        let mut i: usize = 0;
        while i < self.cows.len()
            invariant
                h == self@,
                i <= self.cows.len() == h.cows.len(),
                r@.len() == i,
                forall|k: int| 0 <= k < i ==> record_bytes(h.cows[k]) == #[trigger] r@[k]@,
            decreases self.cows.len() - i,
        {
            r.push(encode_cow(&self.cows[i]));
            i += 1;
        }
        r
    }

    /// Rebuilds a registry from stored records and counter. Refused as
    /// corrupt exactly when no consistent registry is stored that way.
    pub fn from_stored(records: &Vec<Vec<u8>>, last_id: u64) -> (r: Result<Herd, HerdError>)
        ensures
            match r {
                Ok(h) => h.well_formed() && h@.last_id == last_id && stored_as(
                    h@.cows,
                    last_id,
                    records@,
                ),
                Err(e) => e == HerdError::StorageCorruption && forall|cows: Seq<CowView>|
                    !#[trigger] stored_as(cows, last_id, records@),
            },
    {
        let mut cows: Vec<Cow> = Vec::new();
        let mut i: usize = 0;
        while i < records.len()
            invariant
                i <= records@.len(),
                cows@.len() == i,
                forall|k: int| 0 <= k < i ==> record_bytes(#[trigger] cows@[k]@) == records@[k]@,
                forall|k: int, d: CowView|
                    0 <= k < i && #[trigger] record_bytes(d) == records@[k]@ ==> d == #[trigger] cows@[k]@,
            decreases records@.len() - i,
        {
            match decode_cow(records[i].as_slice()) {
                Some(c) => {
                    cows.push(c);
                },
                None => {
                    proof {
                        assert forall|v: Seq<CowView>| !#[trigger] stored_as(v, last_id, records@) by {
                            if stored_as(v, last_id, records@) {
                                assert(record_bytes(v[i as int]) == records@[i as int]@);
                            }
                        }
                    }
                    return Err(HerdError::StorageCorruption);
                },
            }
            i += 1;
        }
        let ghost decoded = cows@.map_values(|c: Cow| c@);
        proof {
            assert forall|v: Seq<CowView>| #[trigger] stored_as(v, last_id, records@) implies v
                == decoded by {
                assert forall|k: int| 0 <= k < v.len() implies v[k] == decoded[k] by {
                    assert(record_bytes(v[k]) == records@[k]@);
                }
                assert(v =~= decoded);
            }
        }
        match Herd::restore(cows, last_id) {
            Ok(h) => {
                assert(stored_as(h@.cows, last_id, records@));
                Ok(h)
            },
            Err(e) => {
                assert forall|v: Seq<CowView>| !#[trigger] stored_as(v, last_id, records@) by {
                    if stored_as(v, last_id, records@) {
                        assert(v == decoded);
                    }
                }
                Err(e)
            },
        }
    }

    /// The last id that the counter handed out (0 before any).
    pub fn last_id(&self) -> (r: u64)
        ensures
            r == self@.last_id,
    {
        self.last_id
    }

    /// The number of stored cows.
    pub fn len(&self) -> (r: usize)
        ensures
            r == self@.cows.len(),
    {
        self.cows.len()
    }

    /// Binary search for the position of `id`.
    fn position(&self, id: u64) -> (r: Option<usize>)
        requires
            self.well_formed(),
        ensures
            match r {
                Some(i) => self@.contains(id) && self@.index_of(id) == i && i < self@.cows.len(),
                None => !self@.contains(id),
            },
    {
        let ghost h = self@;
        let mut lo: usize = 0;
        let mut hi: usize = self.cows.len();
        while lo < hi
            invariant
                h == self@,
                h.well_formed(),
                lo <= hi <= self.cows.len() == h.cows.len(),
                forall|k: int| 0 <= k < lo ==> #[trigger] h.cows[k].id < id,
                forall|k: int| hi <= k < h.cows.len() ==> #[trigger] h.cows[k].id > id,
            decreases hi - lo,
        {
            let mid: usize = lo + (hi - lo) / 2;
            let mid_id = self.cows[mid].id;
            assert(mid_id == h.cows[mid as int].id);
            if mid_id == id {
                proof {
                    lemma_index_of(h, mid as int);
                }
                return Some(mid);
            } else if mid_id < id {
                assert forall|k: int| 0 <= k < mid + 1 implies #[trigger] h.cows[k].id < id by {
                    if k < mid {
                        assert(h.cows[k].id < h.cows[mid as int].id);
                    }
                }
                lo = mid + 1;
            } else {
                assert forall|k: int| mid <= k < h.cows.len() implies #[trigger] h.cows[k].id
                    > id by {
                    if k > mid {
                        assert(h.cows[mid as int].id < h.cows[k].id);
                    }
                }
                hi = mid;
            }
        }
        proof {
            if h.contains(id) {
                let k = h.index_of(id);
                assert(h.cows[k].id == id);
            }
        }
        None
    }

    /// Replaces the record at position `i` by one with the same id.
    fn put(&mut self, i: usize, cow: Cow)
        requires
            old(self).well_formed(),
            i < old(self)@.cows.len(),
            cow.id == old(self)@.cows[i as int].id,
        ensures
            final(self).well_formed(),
            final(self)@ == old(self)@.replaced(cow.id, cow@),
    {
        let ghost h = self@;
        proof {
            lemma_index_of(h, i as int);
            lemma_replaced(h, cow.id, cow@);
        }
        let ghost v = cow@;
        self.cows.set(i, cow);
        assert(self@.cows =~= h.replaced(v.id, v).cows);
    }

    /// Registers a cow under the next id. An empty name is refused; so is
    /// any registration once the counter has handed out every id.
    pub fn add_cow(&mut self, name: String, age: u64, now: u64) -> (r: Result<Cow, HerdError>)
        requires
            old(self).well_formed(),
        ensures
            final(self).well_formed(),
            match r {
                Ok(c) => {
                    &&& name@.len() > 0
                    &&& old(self)@.last_id < u64::MAX
                    &&& c@ == old(self)@.fresh(name@, age, now)
                    &&& final(self)@ == old(self)@.admitted(name@, age, now)
                    &&& final(self)@.lookup(c.id) == Some(c@)
                },
                Err(e) => {
                    &&& final(self)@ == old(self)@
                    &&& e == if name@.len() == 0 {
                        HerdError::Validation
                    } else {
                        HerdError::CapacityExceeded
                    }
                    &&& name@.len() > 0 ==> old(self)@.last_id == u64::MAX
                },
            },
    {
        if name.as_str().is_empty() {
            return Err(HerdError::Validation);
        }
        if self.last_id == u64::MAX {
            return Err(HerdError::CapacityExceeded);
        }
        let ghost h = self@;
        let id = self.last_id + 1;
        let health = "Healthy".to_owned();
        let cow = Cow { id, name, age, milk_produced: 0, health_status: health, created_at: now };
        let out = cow.duplicate();
        self.cows.push(cow);
        self.last_id = id;
        proof {
            reveal_strlit("Healthy");
            lemma_admitted(h, out.name@, age, now);
            assert(out.health_status@ =~= initial_health());
            assert(out@ == h.fresh(name@, age, now));
            assert(self@.cows =~= h.admitted(out.name@, age, now).cows);
            assert(forall|i: int| 0 <= i < h.cows.len() ==> #[trigger] self@.cows[i] == h.cows[i]);
        }
        Ok(out)
    }

    /// The cow stored under `id`, if any.
    pub fn get_cow(&self, id: u64) -> (r: Option<Cow>)
        requires
            self.well_formed(),
        ensures
            match r {
                Some(c) => self@.lookup(id) == Some(c@),
                None => self@.lookup(id) == None::<CowView>,
            },
    {
        match self.position(id) {
            Some(i) => Some(self.cows[i].duplicate()),
            None => None,
        }
    }

    /// Every stored cow, in strictly ascending id order.
    pub fn get_all_cows(&self) -> (r: Vec<Cow>)
        requires
            self.well_formed(),
        ensures
            r@.map_values(|c: Cow| c@) == self@.cows,
            forall|i: int, j: int| 0 <= i < j < r@.len() ==> #[trigger] r@[i].id < #[trigger] r@[j].id,
    {
        let ghost h = self@;
        let mut r: Vec<Cow> = Vec::new();
        let mut i: usize = 0;
        while i < self.cows.len()
            invariant
                h == self@,
                i <= self.cows.len() == h.cows.len(),
                r@.len() == i,
                forall|k: int| 0 <= k < i ==> #[trigger] r@[k]@ == h.cows[k],
            decreases self.cows.len() - i,
        {
            r.push(self.cows[i].duplicate());
            i += 1;
        }
        assert(r@.map_values(|c: Cow| c@) =~= h.cows);
        assert forall|i: int, j: int| 0 <= i < j < r@.len() implies #[trigger] r@[i].id
            < #[trigger] r@[j].id by {
            assert(r@[i]@ == h.cows[i]);
            assert(r@[j]@ == h.cows[j]);
            assert(h.cows[i].id < h.cows[j].id);
        }
        r
    }

    /// The milk produced by all stored cows together, or `u64::MAX` where
    /// that sum does not fit.
    pub fn get_total_milk_production(&self) -> (r: u64)
        requires
            self.well_formed(),
        ensures
            self@.total_milk() <= u64::MAX ==> r == self@.total_milk(),
            self@.total_milk() > u64::MAX ==> r == u64::MAX,
    {
        let ghost h = self@;
        let mut total: u64 = 0;
        let mut i: usize = 0;
        while i < self.cows.len()
            invariant
                h == self@,
                i <= self.cows.len() == h.cows.len(),
                milk_sum(h.cows.subrange(0, i as int)) <= u64::MAX ==> total == milk_sum(
                    h.cows.subrange(0, i as int),
                ),
                milk_sum(h.cows.subrange(0, i as int)) > u64::MAX ==> total == u64::MAX,
            decreases self.cows.len() - i,
        {
            let ghost before = h.cows.subrange(0, i as int);
            assert(h.cows.subrange(0, i + 1).drop_last() =~= before);
            assert(milk_sum(before) >= 0) by {
                lemma_milk_sum_nonneg(before);
            }
            total = total.saturating_add(self.cows[i].milk_produced);
            i += 1;
        }
        assert(h.cows.subrange(0, i as int) =~= h.cows);
        total
    }

    /// Changes the supplied fields of cow `id` and returns the new record;
    /// `NotFound` where no cow has that id.
    pub fn update_cow(&mut self, id: u64, name: Option<String>, age: Option<u64>) -> (r: Result<
        Cow,
        HerdError,
    >)
        requires
            old(self).well_formed(),
        ensures
            final(self).well_formed(),
            match r {
                Ok(c) => {
                    &&& old(self)@.contains(id)
                    &&& final(self)@ == old(self)@.revised(id, opt_view(name), age)
                    &&& final(self)@.lookup(id) == Some(c@)
                },
                Err(e) => {
                    &&& !old(self)@.contains(id)
                    &&& e == HerdError::NotFound
                    &&& final(self)@ == old(self)@
                },
            },
    {
        match self.position(id) {
            None => Err(HerdError::NotFound),
            Some(i) => {
                let ghost h = self@;
                let mut cow = self.cows[i].duplicate();
                match name {
                    Some(n) => {
                        cow.name = n;
                    },
                    None => {},
                }
                match age {
                    Some(a) => {
                        cow.age = a;
                    },
                    None => {},
                }
                let out = cow.duplicate();
                self.put(i, cow);
                proof {
                    lemma_replaced(h, id, out@);
                }
                Ok(out)
            },
        }
    }

    /// Adds `amount` to the milk counter of cow `id` (stopping at
    /// `u64::MAX`) and returns the new record; `NotFound` where no cow has
    /// that id.
    pub fn record_milk_production(&mut self, id: u64, amount: u64) -> (r: Result<Cow, HerdError>)
        requires
            old(self).well_formed(),
        ensures
            final(self).well_formed(),
            match r {
                Ok(c) => {
                    &&& old(self)@.contains(id)
                    &&& final(self)@ == old(self)@.recorded(id, amount)
                    &&& final(self)@.lookup(id) == Some(c@)
                    &&& c.milk_produced == saturating_sum(
                        old(self)@.lookup(id).unwrap().milk_produced,
                        amount,
                    )
                },
                Err(e) => {
                    &&& !old(self)@.contains(id)
                    &&& e == HerdError::NotFound
                    &&& final(self)@ == old(self)@
                },
            },
    {
        match self.position(id) {
            None => Err(HerdError::NotFound),
            Some(i) => {
                let ghost h = self@;
                let mut cow = self.cows[i].duplicate();
                cow.milk_produced = cow.milk_produced.saturating_add(amount);
                let out = cow.duplicate();
                self.put(i, cow);
                proof {
                    lemma_replaced(h, id, out@);
                }
                Ok(out)
            },
        }
    }

    /// Sets the health status of cow `id` and returns the new record;
    /// `NotFound` where no cow has that id.
    pub fn update_health_status(&mut self, id: u64, status: String) -> (r: Result<Cow, HerdError>)
        requires
            old(self).well_formed(),
        ensures
            final(self).well_formed(),
            match r {
                Ok(c) => {
                    &&& old(self)@.contains(id)
                    &&& final(self)@ == old(self)@.with_health(id, status@)
                    &&& final(self)@.lookup(id) == Some(c@)
                },
                Err(e) => {
                    &&& !old(self)@.contains(id)
                    &&& e == HerdError::NotFound
                    &&& final(self)@ == old(self)@
                },
            },
    {
        match self.position(id) {
            None => Err(HerdError::NotFound),
            Some(i) => {
                let ghost h = self@;
                let mut cow = self.cows[i].duplicate();
                cow.health_status = status;
                let out = cow.duplicate();
                self.put(i, cow);
                proof {
                    lemma_replaced(h, id, out@);
                }
                Ok(out)
            },
        }
    }

    /// Deletes cow `id`. The counter is untouched, so the id is never handed
    /// out again. `NotFound` where no cow has that id.
    pub fn delete_cow(&mut self, id: u64) -> (r: Result<(), HerdError>)
        requires
            old(self).well_formed(),
        ensures
            final(self).well_formed(),
            match r {
                Ok(_) => {
                    &&& old(self)@.contains(id)
                    &&& final(self)@ == old(self)@.removed(id)
                },
                Err(e) => {
                    &&& !old(self)@.contains(id)
                    &&& e == HerdError::NotFound
                    &&& final(self)@ == old(self)@
                },
            },
    {
        match self.position(id) {
            None => Err(HerdError::NotFound),
            Some(i) => {
                let ghost h = self@;
                self.cows.remove(i);
                proof {
                    lemma_removed(h, id);
                }
                assert(self@.cows =~= h.removed(id).cows);
                Ok(())
            },
        }
    }
}

} // verus!