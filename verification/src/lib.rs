//! Perry's LLVM code generation support: the compact GC stack-map rewrite and
//! the pure decisions the code generator makes about representations,
//! literals and imports.
use vstd::prelude::*;

pub mod expr;
pub mod gc_map;
pub mod inprocess;
pub mod numtext;
pub mod text;

verus! {

/// The local name `cjs_wrap` binds its synthetic `createRequire` import to.
/// CommonJS-entry recognition keys on this name.
pub const CJS_WRAP_CREATE_REQUIRE_LOCAL: &'static str = "__perry_cjs_create_require";

/// One row of the native-module dispatch table, projected to the fields a
/// manifest consistency check needs.
#[derive(Debug, Clone, Copy)]
pub struct NativeMethodRef {
    /// Module specifier (e.g. `"crypto"`, `"mysql2/promise"`).
    pub module: &'static str,
    /// True for instance methods (`db.query(...)`); false for receiver-less
    /// calls (`crypto.randomUUID()`).
    pub has_receiver: bool,
    /// Method name on the module.
    pub method: &'static str,
    /// Optional class filter: `Some("Pool")` matches only entries constructed
    /// via that class.
    pub class_filter: Option<&'static str>,
    /// Per-argument coercion kinds, in declaration order (`"NA_F64"`, ...).
    pub arg_kinds: &'static [&'static str],
    /// Return-kind tag (`"NR_GCPTR"`, `"NR_STR"`, ...).
    pub ret_kind: &'static str,
}

/// A dispatch-table row: `(module, has_receiver, method, class_filter,
/// arg_kinds, ret_kind)`.
pub type NativeModuleRow = (
    &'static str,
    bool,
    &'static str,
    Option<&'static str>,
    &'static [&'static str],
    &'static str,
);

pub open spec fn method_ref_of(row: NativeModuleRow) -> NativeMethodRef {
    NativeMethodRef {
        module: row.0,
        has_receiver: row.1,
        method: row.2,
        class_filter: row.3,
        arg_kinds: row.4,
        ret_kind: row.5,
    }
}

/// Every entry of the native-module dispatch table, projected to a
/// [`NativeMethodRef`], in table order.
pub fn iter_native_method_signatures(table: &[NativeModuleRow]) -> (r: Vec<NativeMethodRef>)
    ensures
        r@.len() == table@.len(),
        forall|i: int| 0 <= i < table@.len() ==> #[trigger] r@[i] == method_ref_of(table@[i]),
{
    let mut out: Vec<NativeMethodRef> = Vec::new();
    let mut i: usize = 0;
    while i < table.len()
        invariant
            i <= table@.len(),
            out@.len() == i,
            forall|k: int| 0 <= k < i ==> #[trigger] out@[k] == method_ref_of(table@[k]),
        decreases table.len() - i,
    {
        let (module, has_receiver, method, class_filter, arg_kinds, ret_kind) = table[i];
        out.push(NativeMethodRef { module, has_receiver, method, class_filter, arg_kinds, ret_kind });
        i += 1;
    }
    out
}

/// The local name `cjs_wrap` binds its synthetic `createRequire` import to.
pub fn cjs_wrap_create_require_local() -> (r: &'static str)
    ensures
        r@ == CJS_WRAP_CREATE_REQUIRE_LOCAL@,
{
    CJS_WRAP_CREATE_REQUIRE_LOCAL
}

} // verus!
