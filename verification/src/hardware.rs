//! Metadata shared by every hardware component.

use vstd::prelude::*;

verus! {

/// Metadata for hardware objects.
pub struct HardwareSpecs {
    pub id: u8,
    pub name: String,
    pub debug: bool,
}

impl HardwareSpecs {
    /// Creates a new instance of HardwareSpecs. Defaults id to 0 and debug to true.
    pub fn new(name: &str) -> (r: Self)
        ensures
            r.id == 0,
            r.name@ == name@,
            r.debug,
    {
        Self { id: 0, name: name.to_string(), debug: true }
    }
}

/// Every component of the machine carries a `HardwareSpecs` value.
pub trait Hardware {
    fn get_specs(&self) -> &HardwareSpecs;
}

} // verus!
