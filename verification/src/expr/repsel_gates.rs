//! Representation-selection knobs and the per-context flags derived from them.
//!
//! Each unboxed representation has one bisection knob. A knob is only useful
//! for A/B attribution if it moves the sites of its own representation and
//! nothing else; [`RepselContextFlags::derive`] is the single place where the
//! knobs meet the structural rules, and the laws below state that isolation.
use vstd::prelude::*;
use crate::text::{chars_of, is_lit};

verus! {

/// Denial rule for an `async` body: the async-to-generator transform boxes
/// the body's locals.
pub const ASYNC_BODY: &'static str = "async_body";

/// Denial rule for a generator body.
pub const GENERATOR_BODY: &'static str = "generator_body";

/// Denial rule for a body that was a plain `async` function before lowering.
pub const WAS_PLAIN_ASYNC_BODY: &'static str = "was_plain_async_body";

/// The rule that keeps `Ptr<Shape>` off in module-init and program-entry
/// bodies (a structural exclusion, not a knob).
pub const MODULE_INIT_CONTEXT: &'static str = "module_init_context";

/// Whether an on-by-default environment knob is on: everything but `0`,
/// `off` and `false` (and an unset variable) leaves it on.
pub open spec fn knob_enabled_spec(value: Option<Seq<char>>) -> bool {
    match value {
        None => true,
        Some(v) => !(v == "0"@ || v == "off"@ || v == "false"@),
    }
}

/// Reads an on-by-default knob's value (`None` when the variable is unset).
pub fn knob_enabled(value: Option<&str>) -> (r: bool)
    ensures
        r == knob_enabled_spec(match value { Some(v) => Some(v@), None => None }),
{
    match value {
        None => true,
        Some(v) => {
            let cs = chars_of(v);
            !(is_lit(&cs, "0") || is_lit(&cs, "off") || is_lit(&cs, "false"))
        },
    }
}

/// The env knobs that gate a context decision, read once and passed by value
/// so that the derivation is a pure function.
#[derive(Clone, Copy, Debug, PartialEq, Eq, Structural)]
pub struct RepselGates {
    pub canonical_i32: bool,
    pub canonical_str: bool,
    pub ptr_shape: bool,
}

/// Which kind of body a function context is being built for.
#[derive(Clone, Copy, Debug, PartialEq, Eq, Structural)]
pub enum RepselBody {
    /// An ordinary function, method or closure body.
    Body { is_async: bool, is_generator: bool, was_plain_async: bool },
    /// A module-init or program-entry body: canonical i32/u32/Str are
    /// allowed, `Ptr<Shape>` is not.
    Entry,
}

/// The three context gates a function context carries, plus the rule names
/// the optimisation report uses for denials.
#[derive(Clone, Copy, Debug)]
pub struct RepselContextFlags {
    pub allows_canonical_i32: bool,
    pub allows_canonical_str: bool,
    pub allows_ptr_shape: bool,
    /// Why this context forbids canonical (i32/u32/Str) selection, or `None`.
    /// Structural reasons only, never a knob.
    pub canonical_denial: Option<&'static str>,
    /// Why this context forbids acting on a `Ptr<Shape>` proof, or `None`.
    pub ptr_shape_denial: Option<&'static str>,
}

/// The structural rule that forbids representation selection in an ordinary
/// body, checked in the order async, generator, was-plain-async.
pub open spec fn body_denial_spec(is_async: bool, is_generator: bool, was_plain_async: bool) -> Option<
    &'static str,
> {
    if is_async {
        Some(ASYNC_BODY)
    } else if is_generator {
        Some(GENERATOR_BODY)
    } else if was_plain_async {
        Some(WAS_PLAIN_ASYNC_BODY)
    } else {
        None
    }
}

/// The structural denial for an ordinary body, if any.
pub fn body_context_denial(is_async: bool, is_generator: bool, was_plain_async: bool) -> (r: Option<
    &'static str,
>)
    ensures
        r == body_denial_spec(is_async, is_generator, was_plain_async),
{
    if is_async {
        Some(ASYNC_BODY)
    } else if is_generator {
        Some(GENERATOR_BODY)
    } else if was_plain_async {
        Some(WAS_PLAIN_ASYNC_BODY)
    } else {
        None
    }
}

/// Each output flag reads exactly one input gate; structural rules apply to
/// all three representations alike.
pub open spec fn derive_spec(gates: RepselGates, body: RepselBody) -> RepselContextFlags {
    match body {
        RepselBody::Body { is_async, is_generator, was_plain_async } => {
            let denial = body_denial_spec(is_async, is_generator, was_plain_async);
            let ok = denial is None;
            RepselContextFlags {
                allows_canonical_i32: gates.canonical_i32 && ok,
                allows_canonical_str: gates.canonical_str && ok,
                allows_ptr_shape: gates.ptr_shape && ok,
                canonical_denial: denial,
                ptr_shape_denial: denial,
            }
        },
        RepselBody::Entry => RepselContextFlags {
            allows_canonical_i32: gates.canonical_i32,
            allows_canonical_str: gates.canonical_str,
            allows_ptr_shape: false,
            canonical_denial: None,
            ptr_shape_denial: Some(MODULE_INIT_CONTEXT),
        },
    }
}

impl RepselContextFlags {
    /// Pure derivation: gates in, flags out, no environment reads.
    pub fn derive(gates: RepselGates, body: RepselBody) -> (r: Self)
        ensures
            r == derive_spec(gates, body),
    {
        match body {
            RepselBody::Body { is_async, is_generator, was_plain_async } => {
                let denial = body_context_denial(is_async, is_generator, was_plain_async);
                let structural_ok = denial.is_none();
                RepselContextFlags {
                    allows_canonical_i32: gates.canonical_i32 && structural_ok,
                    allows_canonical_str: gates.canonical_str && structural_ok,
                    allows_ptr_shape: gates.ptr_shape && structural_ok,
                    canonical_denial: denial,
                    ptr_shape_denial: denial,
                }
            },
            RepselBody::Entry => RepselContextFlags {
                allows_canonical_i32: gates.canonical_i32,
                allows_canonical_str: gates.canonical_str,
                allows_ptr_shape: false,
                canonical_denial: None,
                ptr_shape_denial: Some(MODULE_INIT_CONTEXT),
            },
        }
    }
}

/// Two gate sets that differ in the canonical-i32 knob alone.
pub open spec fn differ_only_in_i32(a: RepselGates, b: RepselGates) -> bool {
    a.canonical_str == b.canonical_str && a.ptr_shape == b.ptr_shape
}

/// Two gate sets that differ in the canonical-Str knob alone.
pub open spec fn differ_only_in_str(a: RepselGates, b: RepselGates) -> bool {
    a.canonical_i32 == b.canonical_i32 && a.ptr_shape == b.ptr_shape
}

/// Two gate sets that differ in the `Ptr<Shape>` knob alone.
pub open spec fn differ_only_in_ptr_shape(a: RepselGates, b: RepselGates) -> bool {
    a.canonical_i32 == b.canonical_i32 && a.canonical_str == b.canonical_str
}

/// A knob moves only the flag of the representation it names: flipping the
/// canonical-i32 knob leaves every other output, denials included, unchanged;
/// likewise for the canonical-Str and `Ptr<Shape>` knobs.
pub proof fn lemma_each_knob_moves_one_flag(a: RepselGates, b: RepselGates, body: RepselBody)
    ensures
        differ_only_in_i32(a, b) ==> {
            let (x, y) = (derive_spec(a, body), derive_spec(b, body));
            &&& x.allows_canonical_str == y.allows_canonical_str
            &&& x.allows_ptr_shape == y.allows_ptr_shape
            &&& x.canonical_denial == y.canonical_denial
            &&& x.ptr_shape_denial == y.ptr_shape_denial
        },
        differ_only_in_str(a, b) ==> {
            let (x, y) = (derive_spec(a, body), derive_spec(b, body));
            &&& x.allows_canonical_i32 == y.allows_canonical_i32
            &&& x.allows_ptr_shape == y.allows_ptr_shape
            &&& x.canonical_denial == y.canonical_denial
            &&& x.ptr_shape_denial == y.ptr_shape_denial
        },
        differ_only_in_ptr_shape(a, b) ==> {
            let (x, y) = (derive_spec(a, body), derive_spec(b, body));
            &&& x.allows_canonical_i32 == y.allows_canonical_i32
            &&& x.allows_canonical_str == y.allows_canonical_str
            &&& x.canonical_denial == y.canonical_denial
            &&& x.ptr_shape_denial == y.ptr_shape_denial
        },
{
}

/// A knob never invents a denial: the denial fields depend on the body alone.
pub proof fn lemma_denials_ignore_knobs(a: RepselGates, b: RepselGates, body: RepselBody)
    ensures
        derive_spec(a, body).canonical_denial == derive_spec(b, body).canonical_denial,
        derive_spec(a, body).ptr_shape_denial == derive_spec(b, body).ptr_shape_denial,
{
}

/// With no structural denial, each flag equals its own knob.
pub proof fn lemma_sync_body_follows_knobs(gates: RepselGates)
    ensures
        ({
            let f = derive_spec(
                gates,
                RepselBody::Body { is_async: false, is_generator: false, was_plain_async: false },
            );
            &&& f.allows_canonical_i32 == gates.canonical_i32
            &&& f.allows_canonical_str == gates.canonical_str
            &&& f.allows_ptr_shape == gates.ptr_shape
            &&& f.canonical_denial is None
            &&& f.ptr_shape_denial is None
        }),
{
}

/// In an entry body `Ptr<Shape>` is off whatever the knobs say, and the
/// denial names the module-init rule; the canonical flags follow their knobs.
pub proof fn lemma_entry_keeps_ptr_shape_off(gates: RepselGates)
    ensures
        !derive_spec(gates, RepselBody::Entry).allows_ptr_shape,
        derive_spec(gates, RepselBody::Entry).ptr_shape_denial == Some(MODULE_INIT_CONTEXT),
        derive_spec(gates, RepselBody::Entry).canonical_denial is None,
        derive_spec(gates, RepselBody::Entry).allows_canonical_i32 == gates.canonical_i32,
        derive_spec(gates, RepselBody::Entry).allows_canonical_str == gates.canonical_str,
{
}

/// A structural denial in an ordinary body turns off all three
/// representations and names the same rule in both denial fields.
pub proof fn lemma_structural_denial_covers_all(
    gates: RepselGates,
    is_async: bool,
    is_generator: bool,
    was_plain_async: bool,
)
    requires
        is_async || is_generator || was_plain_async,
    ensures
        ({
            let f = derive_spec(gates, RepselBody::Body { is_async, is_generator, was_plain_async });
            &&& !f.allows_canonical_i32
            &&& !f.allows_canonical_str
            &&& !f.allows_ptr_shape
            &&& f.canonical_denial is Some
            &&& f.canonical_denial == f.ptr_shape_denial
            &&& f.canonical_denial == body_denial_spec(is_async, is_generator, was_plain_async)
        }),
{
}

} // verus!
