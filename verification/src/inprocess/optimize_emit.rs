//! What `optimize_and_emit` decides from its options: the target machine's
//! CPU and optimisation level, the new-pass-manager pipeline, whether the
//! compile-time budgets apply, and which file kind is emitted.
use vstd::prelude::*;

verus! {

/// The backend's optimisation level, one for one with LLVM's
/// `OptimizationLevel`.
#[derive(Clone, Copy, Debug, PartialEq, Eq, Structural)]
pub enum OptLevel {
    /// LLVM's `None`.
    O0,
    /// LLVM's `Less`.
    O1,
    /// LLVM's `Default`.
    O2,
    /// LLVM's `Aggressive`.
    O3,
}

/// What the emitter writes.
#[derive(Clone, Copy, Debug, PartialEq, Eq, Structural)]
pub enum EmitKind {
    Assembly,
    Object,
}

pub open spec fn opt_level_spec(opt: char) -> OptLevel {
    if opt == '0' {
        OptLevel::O0
    } else if opt == '1' {
        OptLevel::O1
    } else if opt == '2' || opt == 's' || opt == 'z' {
        OptLevel::O2
    } else {
        OptLevel::O3
    }
}

/// The target machine's level for a `-O` character: `0`, `1`, `2`/`s`/`z`,
/// and anything else is `-O3`.
pub fn opt_level_for(opt: char) -> (r: OptLevel)
    ensures
        r == opt_level_spec(opt),
{
    if opt == '0' {
        OptLevel::O0
    } else if opt == '1' {
        OptLevel::O1
    } else if opt == '2' || opt == 's' || opt == 'z' {
        OptLevel::O2
    } else {
        OptLevel::O3
    }
}

pub open spec fn pipeline_spec(opt: char) -> Seq<char> {
    if opt == '0' {
        "default<O0>"@
    } else if opt == '1' {
        "default<O1>"@
    } else if opt == '2' {
        "default<O2>"@
    } else if opt == 's' {
        "default<Os>"@
    } else if opt == 'z' {
        "default<Oz>"@
    } else {
        "default<O3>"@
    }
}

/// The new-pass-manager pipeline for a `-O` character; anything unknown is
/// `default<O3>`.
pub fn pass_pipeline_for(opt: char) -> (r: &'static str)
    ensures
        r@ == pipeline_spec(opt),
{
    if opt == '0' {
        "default<O0>"
    } else if opt == '1' {
        "default<O1>"
    } else if opt == '2' {
        "default<O2>"
    } else if opt == 's' {
        "default<Os>"
    } else if opt == 'z' {
        "default<Oz>"
    } else {
        "default<O3>"
    }
}

/// Everything `optimize_and_emit` decides from `opt` and `emit_asm` alone.
#[derive(Clone, Copy, Debug)]
pub struct EmissionPlan {
    pub opt_level: OptLevel,
    pub pipeline: &'static str,
    /// Tail-call elimination runs inside every `default<O1+>` pipeline, so its
    /// alloca-walk budget is applied; `-O0` runs none.
    pub bound_tail_call_elim: bool,
    /// Whether the O0 machine-pipeline fallback for oversized functions is
    /// considered; at `-O0` the machine pipeline is already the fast one.
    pub consider_fast_emit: bool,
    pub kind: EmitKind,
}

/// The plan for one unit: level and pipeline follow `opt`, both budgets apply
/// exactly when `opt` is not `0`, and `-S` asks for assembly text.
pub fn emission_plan(opt: char, emit_asm: bool) -> (r: EmissionPlan)
    ensures
        r.opt_level == opt_level_spec(opt),
        r.pipeline@ == pipeline_spec(opt),
        r.bound_tail_call_elim == (opt != '0'),
        r.consider_fast_emit == (opt != '0'),
        r.kind == (if emit_asm { EmitKind::Assembly } else { EmitKind::Object }),
{
    EmissionPlan {
        opt_level: opt_level_for(opt),
        pipeline: pass_pipeline_for(opt),
        bound_tail_call_elim: opt != '0',
        consider_fast_emit: opt != '0',
        kind: if emit_asm {
            EmitKind::Assembly
        } else {
            EmitKind::Object
        },
    }
}

/// Where the target machine's CPU name comes from.
#[derive(Clone, Debug)]
pub enum CpuChoice {
    /// The host's CPU name and features (`-mcpu=native`).
    Host,
    /// The CPU the caller named, with no extra features.
    Explicit(String),
    /// The triple's default CPU, with no extra features.
    TripleDefault,
}

/// `-mcpu=native` wins over an explicit CPU, which wins over the triple's
/// default.
pub fn cpu_choice(mcpu_native: bool, explicit_cpu: Option<&str>) -> (r: CpuChoice)
    ensures
        mcpu_native ==> r is Host,
        !mcpu_native && explicit_cpu is Some ==> r is Explicit && r->Explicit_0@ == explicit_cpu->Some_0@,
        !mcpu_native && explicit_cpu is None ==> r is TripleDefault,
{
    if mcpu_native {
        CpuChoice::Host
    } else {
        match explicit_cpu {
            Some(cpu) => CpuChoice::Explicit(cpu.to_owned()),
            None => CpuChoice::TripleDefault,
        }
    }
}

/// The level and the pipeline never disagree: the machine is built for
/// `-O0` exactly when the IR pipeline is `default<O0>`, and every level
/// names one of the six pipelines.
pub proof fn lemma_level_matches_pipeline(opt: char)
    ensures
        (opt_level_spec(opt) == OptLevel::O0) == (pipeline_spec(opt) == "default<O0>"@),
        opt_level_spec(opt) == OptLevel::O1 ==> pipeline_spec(opt) == "default<O1>"@,
        opt_level_spec(opt) == OptLevel::O3 ==> pipeline_spec(opt) == "default<O3>"@,
{
    reveal_strlit("default<O0>");
    reveal_strlit("default<O1>");
    reveal_strlit("default<O2>");
    reveal_strlit("default<O3>");
    reveal_strlit("default<Os>");
    reveal_strlit("default<Oz>");
    assert("default<O1>"@[9] != "default<O0>"@[9]);
    assert("default<O2>"@[9] != "default<O0>"@[9]);
    assert("default<O3>"@[9] != "default<O0>"@[9]);
    assert("default<Os>"@[9] != "default<O0>"@[9]);
    assert("default<Oz>"@[9] != "default<O0>"@[9]);
}

} // verus!
