//! Patch cables between module ports.

use vstd::prelude::*;

use crate::engine::{CableId, ModuleId};

verus! {

/// Number of colours in the cable palette; cables take them in turn.
pub const CABLE_COLOR_COUNT: usize = 6;

/// A cable from an output port of one module to an input port of another.
#[derive(Debug, Clone, Copy, PartialEq, Eq, Structural)]
pub struct Cable {
    pub id: CableId,
    pub out_module: ModuleId,
    pub out_port: i32,
    pub in_module: ModuleId,
    pub in_port: i32,
    pub color_idx: usize,
}

impl Cable {
    pub fn new(
        id: CableId,
        out_module: ModuleId,
        out_port: i32,
        in_module: ModuleId,
        in_port: i32,
        color_idx: usize,
    ) -> (cable: Self)
        ensures
            cable == (Cable { id, out_module, out_port, in_module, in_port, color_idx }),
    {
        Self { id, out_module, out_port, in_module, in_port, color_idx }
    }

    /// The palette slot of this cable's colour.
    pub fn color_index(&self) -> (slot: usize)
        ensures
            slot == self.color_idx % CABLE_COLOR_COUNT,
            slot < CABLE_COLOR_COUNT,
    {
        self.color_idx % CABLE_COLOR_COUNT
    }

    /// The cable has an end on `module`.
    pub open spec fn touches(&self, module: ModuleId) -> bool {
        self.out_module == module || self.in_module == module
    }

    /// Whether the cable has an end on `module`.
    pub fn is_connected_to(&self, module: ModuleId) -> (b: bool)
        ensures
            b == self.touches(module),
            b == (self.out_module == module || self.in_module == module),
    {
        self.out_module == module || self.in_module == module
    }
}

} // verus!
