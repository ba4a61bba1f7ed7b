use perry_codegen::{
    cjs_wrap_create_require_local, iter_native_method_signatures, NativeModuleRow,
    CJS_WRAP_CREATE_REQUIRE_LOCAL,
};

const QUERY_ARGS: &[&str] = &["NA_STR", "NA_JSV"];
const NO_ARGS: &[&str] = &[];

#[test]
fn native_method_signatures_follow_the_table_in_order() {
    let table: Vec<NativeModuleRow> = vec![
        ("crypto", false, "randomUUID", None, NO_ARGS, "NR_STR"),
        (
            "mysql2/promise",
            true,
            "query",
            Some("Pool"),
            QUERY_ARGS,
            "NR_PROMISE",
        ),
    ];
    let refs = iter_native_method_signatures(&table);
    assert_eq!(refs.len(), 2);
    assert_eq!(refs[0].module, "crypto");
    assert!(!refs[0].has_receiver);
    assert_eq!(refs[0].method, "randomUUID");
    assert_eq!(refs[0].class_filter, None);
    assert!(refs[0].arg_kinds.is_empty());
    assert_eq!(refs[0].ret_kind, "NR_STR");
    assert_eq!(refs[1].module, "mysql2/promise");
    assert!(refs[1].has_receiver);
    assert_eq!(refs[1].class_filter, Some("Pool"));
    assert_eq!(refs[1].arg_kinds, QUERY_ARGS);
    assert_eq!(refs[1].ret_kind, "NR_PROMISE");
    assert!(iter_native_method_signatures(&[]).is_empty());
}

#[test]
fn cjs_create_require_local_is_the_shared_constant() {
    assert_eq!(cjs_wrap_create_require_local(), CJS_WRAP_CREATE_REQUIRE_LOCAL);
    assert!(!cjs_wrap_create_require_local().is_empty());
}
