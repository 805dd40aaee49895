//! Fuel accounting around one call into a user contract: the engine starts
//! with the fuel that the runtime grants, and the runtime is charged the fuel
//! burnt when the call returns.

use vstd::prelude::*;

verus! {

/// How to bring the engine's fuel to a target.
#[derive(Clone, Copy, Debug, PartialEq, Eq, Structural)]
pub enum FuelAdjustment {
    /// Burn this much of the engine's fuel.
    Consume(u64),
    /// Give the engine this much more fuel.
    Add(u64),
}

/// The engine's fuel after applying `adj` to `existing`.
pub open spec fn adjusted(existing: u64, adj: FuelAdjustment) -> int {
    match adj {
        FuelAdjustment::Consume(d) => existing - d,
        FuelAdjustment::Add(d) => existing + d,
    }
}

/// Remembers the fuel a call started with.
#[derive(Clone, Copy, Debug, PartialEq, Eq, Structural)]
pub struct FuelMeter {
    pub initial_fuel: u64,
}

impl FuelMeter {
    /// A meter that has not started a call.
    pub fn new() -> (r: FuelMeter)
        ensures
            r.initial_fuel == 0,
    {
        FuelMeter { initial_fuel: 0 }
    }

    /// Starts a call with the fuel `fuel` that the runtime grants, while the
    /// engine holds `existing_fuel`: remembers `fuel` and says how to bring
    /// the engine to exactly `fuel`.
    pub fn configure_initial_fuel(&mut self, fuel: u64, existing_fuel: u64) -> (r: FuelAdjustment)
        ensures
            final(self).initial_fuel == fuel,
            adjusted(existing_fuel, r) == fuel,
            existing_fuel > fuel ==> r == FuelAdjustment::Consume((existing_fuel - fuel) as u64),
            existing_fuel <= fuel ==> r == FuelAdjustment::Add((fuel - existing_fuel) as u64),
    {
        self.initial_fuel = fuel;
        if existing_fuel > fuel {
            FuelAdjustment::Consume(existing_fuel - fuel)
        } else {
            FuelAdjustment::Add(fuel - existing_fuel)
        }
    }

    /// Ends a call with `remaining_fuel` left in the engine: the fuel to
    /// charge to the runtime. The engine never holds more than it started with.
    pub fn persist_remaining_fuel(&self, remaining_fuel: u64) -> (r: u64)
        requires
            self.initial_fuel >= remaining_fuel,
        ensures
            r == self.initial_fuel - remaining_fuel,
    {
        self.initial_fuel - remaining_fuel
    }
}

} // verus!
