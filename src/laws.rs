use vstd::prelude::*;

use crate::cow::CowView;
use crate::model::{
    lemma_admitted, lemma_index_of, lemma_removed, lemma_replaced, revise_fields, saturating_sum,
    HerdView,
};

verus! {

/// One operation on the registry, as a caller issues it.
pub enum HerdOp {
    Add { name: Seq<char>, age: u64, now: u64 },
    Update { id: u64, name: Option<Seq<char>>, age: Option<u64> },
    RecordMilk { id: u64, amount: u64 },
    SetHealth { id: u64, status: Seq<char> },
    Delete { id: u64 },
}

/// The state after one operation; a refused operation changes nothing.
pub open spec fn step(h: HerdView, op: HerdOp) -> HerdView {
    match op {
        HerdOp::Add { name, age, now } => if name.len() > 0 && h.last_id < u64::MAX {
            h.admitted(name, age, now)
        } else {
            h
        },
        HerdOp::Update { id, name, age } => h.revised(id, name, age),
        HerdOp::RecordMilk { id, amount } => h.recorded(id, amount),
        HerdOp::SetHealth { id, status } => h.with_health(id, status),
        HerdOp::Delete { id } => h.removed(id),
    }
}

/// The state after a sequence of operations, first to last.
pub open spec fn run(h: HerdView, ops: Seq<HerdOp>) -> HerdView
    decreases ops.len(),
{
    if ops.len() == 0 {
        h
    } else {
        run(step(h, ops[0]), ops.drop_first())
    }
}

/// Milk records of the given amounts for one cow, in order.
pub open spec fn milk_records(id: u64, amounts: Seq<u64>) -> Seq<HerdOp> {
    Seq::new(amounts.len(), |i: int| HerdOp::RecordMilk { id, amount: amounts[i] })
}

/// The sum of a sequence of amounts.
pub open spec fn amount_sum(amounts: Seq<u64>) -> int
    decreases amounts.len(),
{
    if amounts.len() == 0 {
        0
    } else {
        amounts[0] + amount_sum(amounts.drop_first())
    }
}

proof fn lemma_amount_sum_nonneg(amounts: Seq<u64>)
    ensures
        amount_sum(amounts) >= 0,
    decreases amounts.len(),
{
    if amounts.len() > 0 {
        lemma_amount_sum_nonneg(amounts.drop_first());
    }
}

/// Registering a cow and then looking up the id it received yields the
/// registered cow itself.
pub proof fn lemma_create_then_get(h: HerdView, name: Seq<char>, age: u64, now: u64)
    requires
        h.well_formed(),
        h.last_id < u64::MAX,
    ensures
        h.admitted(name, age, now).lookup(h.fresh(name, age, now).id) == Some(
            h.fresh(name, age, now),
        ),
{
    lemma_admitted(h, name, age, now);
}

/// An update that supplies no field leaves the registry as it was.
pub proof fn lemma_empty_update_is_identity(h: HerdView, id: u64)
    ensures
        h.revised(id, None, None) == h,
{
    if h.contains(id) {
        let k = h.index_of(id);
        assert(h.cows.update(k, h.cows[k]) =~= h.cows);
    }
}

/// Every operation keeps the registry well formed, never moves the counter
/// back, and never brings back an id that is absent and already handed out.
pub proof fn lemma_step(h: HerdView, op: HerdOp, retired: u64)
    requires
        h.well_formed(),
    ensures
        step(h, op).well_formed(),
        step(h, op).last_id >= h.last_id,
        !h.contains(retired) && retired <= h.last_id ==> !step(h, op).contains(retired),
{
    match op {
        HerdOp::Add { name, age, now } => {
            if name.len() > 0 && h.last_id < u64::MAX {
                lemma_admitted(h, name, age, now);
                assert(h.admitted(name, age, now).lookup(retired) == h.lookup(retired) || retired
                    == h.fresh(name, age, now).id);
            }
        },
        HerdOp::Update { id, name, age } => {
            if h.contains(id) {
                let k = h.index_of(id);
                lemma_index_of(h, k);
                lemma_replaced(h, id, revise_fields(h.cows[k], name, age));
                assert(h.revised(id, name, age).lookup(retired) == h.lookup(retired) || retired
                    == id);
            }
        },
        HerdOp::RecordMilk { id, amount } => {
            if h.contains(id) {
                let k = h.index_of(id);
                let c = h.cows[k];
                lemma_index_of(h, k);
                lemma_replaced(
                    h,
                    id,
                    CowView { milk_produced: saturating_sum(c.milk_produced, amount), ..c },
                );
            }
        },
        HerdOp::SetHealth { id, status } => {
            if h.contains(id) {
                let k = h.index_of(id);
                lemma_index_of(h, k);
                lemma_replaced(h, id, CowView { health_status: status, ..h.cows[k] });
            }
        },
        HerdOp::Delete { id } => {
            if h.contains(id) {
                lemma_removed(h, id);
            }
        },
    }
}

proof fn lemma_run_keeps_retired(h: HerdView, retired: u64, ops: Seq<HerdOp>)
    requires
        h.well_formed(),
        !h.contains(retired),
        retired <= h.last_id,
    ensures
        run(h, ops).well_formed(),
        !run(h, ops).contains(retired),
        retired <= run(h, ops).last_id,
    decreases ops.len(),
{
    if ops.len() > 0 {
        lemma_step(h, ops[0], retired);
        lemma_run_keeps_retired(step(h, ops[0]), retired, ops.drop_first());
    }
}

/// After a cow is deleted its id is absent, and stays absent whatever
/// operations follow; the next id handed out after any of them is larger,
/// so no later registration receives the deleted id.
pub proof fn lemma_deleted_id_retired(h: HerdView, id: u64, ops: Seq<HerdOp>)
    requires
        h.well_formed(),
        h.contains(id),
    ensures
        h.removed(id).lookup(id) == None::<CowView>,
        run(h.removed(id), ops).lookup(id) == None::<CowView>,
        run(h.removed(id), ops).next_id() > id,
{
    lemma_removed(h, id);
    let k = h.index_of(id);
    assert(h.cows[k].id == id);
    lemma_run_keeps_retired(h.removed(id), id, ops);
}

/// Recording a sequence of amounts for one cow adds their sum to its milk
/// counter, where that total fits in a `u64`; nothing else of the record
/// changes.
pub proof fn lemma_production_accumulates(h: HerdView, id: u64, amounts: Seq<u64>)
    requires
        h.well_formed(),
        h.contains(id),
        h.lookup(id).unwrap().milk_produced + amount_sum(amounts) <= u64::MAX,
    ensures
        run(h, milk_records(id, amounts)).lookup(id) == Some(
            CowView {
                milk_produced: (h.lookup(id).unwrap().milk_produced + amount_sum(
                    amounts,
                )) as u64,
                ..h.lookup(id).unwrap()
            },
        ),
    decreases amounts.len(),
{
    let ops = milk_records(id, amounts);
    let c = h.lookup(id).unwrap();
    if amounts.len() == 0 {
        assert(c == CowView { milk_produced: c.milk_produced, ..c });
    } else {
        let a = amounts[0];
        lemma_amount_sum_nonneg(amounts.drop_first());
        let next = CowView { milk_produced: saturating_sum(c.milk_produced, a), ..c };
        let k = h.index_of(id);
        lemma_index_of(h, k);
        lemma_replaced(h, id, next);
        let g = step(h, ops[0]);
        assert(g == h.recorded(id, a));
        assert(ops.drop_first() =~= milk_records(id, amounts.drop_first()));
        lemma_production_accumulates(g, id, amounts.drop_first());
    }
}

} // verus!
