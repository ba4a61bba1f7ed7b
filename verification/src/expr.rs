//! Pure decisions of the expression lowering: representation-selection
//! gates, NaN-box canonicalisation knobs, i18n template resolution and
//! import-origin naming.
pub mod compare;
pub mod dyn_extern_i18n;
pub mod repsel_gates;
pub mod v8_interop;
pub mod worker_new;
