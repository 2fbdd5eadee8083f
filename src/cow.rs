use vstd::prelude::*;

verus! {

/// One tracked animal.
#[derive(Clone, Debug, PartialEq, Eq)]
pub struct Cow {
    pub id: u64,
    pub name: String,
    pub age: u64,
    pub milk_produced: u64,
    pub health_status: String,
    pub created_at: u64,
}

/// The mathematical value of a `Cow`: its strings as character sequences.
pub struct CowView {
    pub id: u64,
    pub name: Seq<char>,
    pub age: u64,
    pub milk_produced: u64,
    pub health_status: Seq<char>,
    pub created_at: u64,
}

impl View for Cow {
    type V = CowView;

    open spec fn view(&self) -> CowView {
        CowView {
            id: self.id,
            name: self.name@,
            age: self.age,
            milk_produced: self.milk_produced,
            health_status: self.health_status@,
            created_at: self.created_at,
        }
    }
}

/// The health status that a newly registered cow starts with.
pub open spec fn initial_health() -> Seq<char> {
    seq!['H', 'e', 'a', 'l', 't', 'h', 'y']
}

impl Cow {
    /// A field-by-field copy.
    pub fn duplicate(&self) -> (r: Cow)
        ensures
            r@ == self@,
    {
        Cow {
            id: self.id,
            name: self.name.clone(),
            age: self.age,
            milk_produced: self.milk_produced,
            health_status: self.health_status.clone(),
            created_at: self.created_at,
        }
    }
}

/// Why an operation on the registry was refused.
#[derive(Clone, Copy, Debug, PartialEq, Eq, Structural)]
pub enum HerdError {
    /// A caller-supplied value breaks a precondition (an empty name).
    Validation,
    /// No cow with the requested id is registered.
    NotFound,
    /// Every id that the counter can hand out has been used.
    CapacityExceeded,
    /// Persisted records contradict the registry's invariants.
    StorageCorruption,
}

} // verus!
