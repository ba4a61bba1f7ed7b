//! The decoded stack map: functions, their safepoint records, and the frame
//! slots live at each safepoint.
use vstd::prelude::*;

verus! {

/// One safepoint: where it is in its function, and which frame slots are live.
///
/// `instruction_offset` is the assembly expression, not a number: at `-O3`
/// LLVM emits it as a label difference (`Ltmp9-_main`) that only the
/// assembler can evaluate.
#[derive(Debug, Clone, PartialEq, Eq)]
pub struct Record {
    pub instruction_offset: String,
    /// `(dwarf_reg, frame_offset)`, deduplicated and sorted by frame offset.
    pub roots: Vec<(u16, i32)>,
    /// Derived (interior) pointer slots, each tied to the base root it was
    /// derived from: `(index into roots, dwarf_reg, frame_offset)`.
    pub derived: Vec<(u32, u16, i32)>,
}

/// One function's safepoints, keyed by the symbol the linker will relocate.
#[derive(Debug, Clone)]
pub struct FunctionMap {
    pub symbol: String,
    pub stack_size: u64,
    pub records: Vec<Record>,
}

/// The mathematical content of a [`Record`].
pub struct RecordModel {
    pub offset_expr: Seq<char>,
    pub roots: Seq<(u16, i32)>,
    pub derived: Seq<(u32, u16, i32)>,
}

/// The mathematical content of a [`FunctionMap`].
pub struct FunctionModel {
    pub symbol: Seq<char>,
    pub stack_size: u64,
    pub records: Seq<RecordModel>,
}

impl Record {
    pub open spec fn model(&self) -> RecordModel {
        RecordModel {
            offset_expr: self.instruction_offset@,
            roots: self.roots@,
            derived: self.derived@,
        }
    }
}

pub open spec fn records_model(rs: Seq<Record>) -> Seq<RecordModel> {
    Seq::new(rs.len(), |i: int| rs[i].model())
}

impl FunctionMap {
    pub open spec fn model(&self) -> FunctionModel {
        FunctionModel {
            symbol: self.symbol@,
            stack_size: self.stack_size,
            records: records_model(self.records@),
        }
    }
}

pub open spec fn functions_model(fs: Seq<FunctionMap>) -> Seq<FunctionModel> {
    Seq::new(fs.len(), |i: int| fs[i].model())
}

} // verus!
