use vstd::prelude::*;

verus! {

/// A per-server health-check attempt counter. The counter is monotonic for
/// the duration of one orchestration run; a restart constructs a fresh one.
#[derive(Copy, Clone, Debug, PartialEq, Eq, Structural)]
pub struct Attempts(pub u8);

impl Attempts {
    pub fn new(value: u8) -> (r: Self)
        ensures
            r.0 == value,
    {
        Self(value)
    }

    pub fn value(&self) -> (r: u8)
        ensures
            r == self.0,
    {
        self.0
    }
}

impl From<u8> for Attempts {
    fn from(value: u8) -> (r: Self)
        ensures
            r.0 == value,
    {
        Self::new(value)
    }
}

impl vstd::std_specs::convert::FromSpecImpl<u8> for Attempts {
    open spec fn obeys_from_spec() -> bool {
        true
    }

    open spec fn from_spec(value: u8) -> Self {
        Attempts(value)
    }
}

} // verus!
