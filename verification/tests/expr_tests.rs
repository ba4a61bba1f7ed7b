use perry_codegen::expr::v8_interop::{v8_export_constants, v8_member_method_constants};
use perry_codegen::expr::worker_new::{
    worker_aliases, worker_init_symbol, WORKER_NATIVE_TARGET_MESSAGE,
};
use perry_codegen::expr::compare::{
    i8_literal, literal_byte_loads, literal_eq_checks, sso_immediate, LiteralEqChecks,
};
use perry_codegen::expr::dyn_extern_i18n::{
    i18n_template_plan, missing_param_text, namespace_target_for_prefix, require_targets,
    resolve_i18n_templates, I18nLowerCtx, NamespaceTarget, TemplatePart,
};
use perry_codegen::expr::v8_interop::{
    import_origin_suffix, import_origin_suffix_ns, llvm_c_string_literal, rodata_string_global,
    v8_args_buffer_len,
};

fn strings(v: &[&str]) -> Vec<String> {
    v.iter().map(|s| s.to_string()).collect()
}

#[test]
fn i8_literals_are_twos_complement() {
    assert_eq!(i8_literal(0), "0");
    assert_eq!(i8_literal(0x41), "65");
    assert_eq!(i8_literal(0x7f), "127");
    assert_eq!(i8_literal(0x80), "-128");
    assert_eq!(i8_literal(0xff), "-1");
    assert_eq!(i8_literal(0xc3), "-61");
}

#[test]
fn sso_immediate_packs_length_and_little_endian_bytes() {
    let tag: u64 = 0x7FF9_0000_0000_0000;
    assert_eq!(sso_immediate(b"", tag), Some(tag));
    assert_eq!(
        sso_immediate(b"ab", tag),
        Some(tag | (2u64 << 40) | 0x6261)
    );
    assert_eq!(
        sso_immediate(b"hello", tag),
        Some(tag | (5u64 << 40) | 0x6f_6c_6c_65_68)
    );
    assert_eq!(sso_immediate(b"hello!", tag), None);
}

#[test]
fn unconfigured_i18n_resolves_to_the_fallback_alone() {
    let (templates, default_idx, codes) = resolve_i18n_templates(&None, "Hello", 3);
    assert_eq!(templates, vec!["Hello".to_string()]);
    assert_eq!(default_idx, 0);
    assert!(codes.is_empty());

    let zero_keys = Some(I18nLowerCtx {
        translations: strings(&["x"]),
        key_count: 0,
        default_locale_idx: 2,
        locale_codes: strings(&["en"]),
    });
    let (templates, default_idx, codes) = resolve_i18n_templates(&zero_keys, "Hello", 0);
    assert_eq!(templates, vec!["Hello".to_string()]);
    assert_eq!(default_idx, 0);
    assert!(codes.is_empty());
}

#[test]
fn missing_translations_fall_back_per_locale() {
    // Two keys, three locales; locale 1 lacks key 1, locale 2 has it.
    let i18n = Some(I18nLowerCtx {
        translations: strings(&["Hi", "Bye", "Hallo", "", "Salut", "Au revoir"]),
        key_count: 2,
        default_locale_idx: 1,
        locale_codes: strings(&["en", "de", "fr"]),
    });
    let (templates, default_idx, codes) = resolve_i18n_templates(&i18n, "Goodbye", 1);
    assert_eq!(templates, strings(&["Bye", "Goodbye", "Au revoir"]));
    assert_eq!(default_idx, 1);
    assert_eq!(codes, strings(&["en", "de", "fr"]));

    let (templates, _, _) = resolve_i18n_templates(&i18n, "Hello", 0);
    assert_eq!(templates, strings(&["Hi", "Hallo", "Salut"]));
}

#[test]
fn out_of_range_default_locale_is_clamped() {
    let i18n = Some(I18nLowerCtx {
        translations: strings(&["a", "b"]),
        key_count: 1,
        default_locale_idx: 9,
        locale_codes: strings(&["en", "de"]),
    });
    let (templates, default_idx, _) = resolve_i18n_templates(&i18n, "z", 0);
    assert_eq!(templates, strings(&["a", "b"]));
    assert_eq!(default_idx, 1);

    // A key index past the table is a missing cell in every locale.
    let (templates, _, _) = resolve_i18n_templates(&i18n, "z", 5);
    assert_eq!(templates, strings(&["z", "z"]));
}

#[test]
fn origin_suffix_prefers_a_rename_and_keeps_the_name_otherwise() {
    let origin = vec![("bar".to_string(), "foo".to_string())];
    assert_eq!(import_origin_suffix(&origin, "bar"), "foo");
    assert_eq!(import_origin_suffix(&origin, "baz"), "baz");
    assert_eq!(import_origin_suffix(&[], "bar"), "bar");
}

#[test]
fn namespace_override_beats_the_flat_map() {
    let origin = vec![("Service".to_string(), "EffectService".to_string())];
    let ns = vec![(
        ("Context".to_string(), "Service".to_string()),
        "Service".to_string(),
    )];
    assert_eq!(
        import_origin_suffix_ns(&origin, &ns, "Context", "Service"),
        "Service"
    );
    assert_eq!(
        import_origin_suffix_ns(&origin, &ns, "Effect", "Service"),
        "EffectService"
    );
    assert_eq!(import_origin_suffix_ns(&origin, &ns, "Effect", "other"), "other");
}

fn lit(s: &str) -> TemplatePart {
    TemplatePart::Lit(s.to_string())
}

fn param(s: &str) -> TemplatePart {
    TemplatePart::Param(s.to_string())
}

#[test]
fn template_plans_split_literals_and_parameters() {
    assert_eq!(i18n_template_plan(""), vec![]);
    assert_eq!(i18n_template_plan("Hello"), vec![lit("Hello")]);
    assert_eq!(
        i18n_template_plan("Hello, {name}!"),
        vec![lit("Hello, "), param("name"), lit("!")]
    );
    assert_eq!(
        i18n_template_plan("{ count }{unit}"),
        vec![param("count"), param("unit")]
    );
    assert_eq!(
        i18n_template_plan("für {name}"),
        vec![lit("für "), param("name")]
    );
}

#[test]
fn doubled_braces_and_unterminated_braces_are_literal() {
    assert_eq!(
        i18n_template_plan("{{literal}} {x}"),
        vec![lit("{literal} "), param("x")]
    );
    assert_eq!(i18n_template_plan("a { b"), vec![lit("a { b")]);
    assert_eq!(i18n_template_plan("a } b"), vec![lit("a } b")]);
    assert_eq!(i18n_template_plan("{}"), vec![param("")]);
}

#[test]
fn a_missing_parameter_shows_its_placeholder() {
    assert_eq!(missing_param_text("name"), "{name}");
    assert_eq!(missing_param_text(""), "{}");
}

#[test]
fn namespace_prefixes_name_submodules_builtins_and_compiled_modules() {
    assert_eq!(
        namespace_target_for_prefix("__node_submod__fs/promises"),
        NamespaceTarget::NodeSubmodule("fs/promises".to_string())
    );
    assert_eq!(
        namespace_target_for_prefix("__native_mod__crypto"),
        NamespaceTarget::NativeModule("crypto".to_string())
    );
    assert_eq!(
        namespace_target_for_prefix("src_util_ts"),
        NamespaceTarget::Compiled {
            init_fn: "src_util_ts__init".to_string(),
            namespace_global: "@__perry_ns_src_util_ts".to_string(),
        }
    );
    assert_eq!(
        namespace_target_for_prefix("__node_submod__"),
        NamespaceTarget::NodeSubmodule(String::new())
    );
}

#[test]
fn require_targets_keep_path_order_and_skip_unmapped_paths() {
    let paths = strings(&["./b", "./missing", "./a"]);
    let map = vec![
        ("./a".to_string(), "mod_a".to_string()),
        ("./b".to_string(), "mod_b".to_string()),
    ];
    assert_eq!(
        require_targets(&paths, &map),
        vec![
            ("./b".to_string(), "mod_b".to_string()),
            ("./a".to_string(), "mod_a".to_string()),
        ]
    );
    assert!(require_targets(&[], &map).is_empty());
}

#[test]
fn c_string_literals_escape_everything_but_plain_printable_ascii() {
    assert_eq!(llvm_c_string_literal(b""), "c\"\\00\"");
    assert_eq!(llvm_c_string_literal(b"effect"), "c\"effect\\00\"");
    assert_eq!(llvm_c_string_literal(b"a\"b\\c"), "c\"a\\22b\\5Cc\\00\"");
    assert_eq!(llvm_c_string_literal(b"\n\x7f"), "c\"\\0A\\7F\\00\"");
    assert_eq!(llvm_c_string_literal("é".as_bytes()), "c\"\\C3\\A9\\00\"");
}

#[test]
fn rodata_globals_count_the_terminating_nul() {
    assert_eq!(
        rodata_string_global("perry_v8_spec_0", "effect"),
        "@perry_v8_spec_0 = private unnamed_addr constant [7 x i8] c\"effect\\00\""
    );
    assert_eq!(
        rodata_string_global("perry_v8_name_3", "für"),
        "@perry_v8_name_3 = private unnamed_addr constant [5 x i8] c\"f\\C3\\BCr\\00\""
    );
}

#[test]
fn an_argumentless_bridge_call_still_gets_one_slot() {
    assert_eq!(v8_args_buffer_len(0), 1);
    assert_eq!(v8_args_buffer_len(1), 1);
    assert_eq!(v8_args_buffer_len(4), 4);
}

#[test]
fn distinct_short_literals_get_distinct_immediates() {
    let tag: u64 = 0x7FF9_0000_0000_0000;
    let words: [&[u8]; 7] = [b"", b"a", b"ab", b"ba", b"a\0", b"\0a", b"abcde"];
    for (i, x) in words.iter().enumerate() {
        for (j, y) in words.iter().enumerate() {
            assert_eq!(
                sso_immediate(x, tag) == sso_immediate(y, tag),
                i == j,
                "{x:?} vs {y:?}"
            );
        }
    }
}

#[test]
fn literal_equality_builds_only_the_checks_its_length_needs() {
    assert_eq!(
        literal_eq_checks(0),
        LiteralEqChecks {
            sso: true,
            first_byte: false,
            last_byte: false,
            middle_byte: false,
            content_compare: false,
        }
    );
    let three = literal_eq_checks(3);
    assert!(three.sso && three.first_byte && three.last_byte && three.middle_byte);
    assert!(!three.content_compare);
    let six = literal_eq_checks(6);
    assert!(!six.sso && six.first_byte && six.last_byte && !six.middle_byte);
    assert!(six.content_compare);

    assert!(literal_byte_loads(0).is_empty());
    assert_eq!(literal_byte_loads(1), vec![(20, 0)]);
    assert_eq!(literal_byte_loads(3), vec![(20, 0), (22, 2), (21, 1)]);
    assert_eq!(literal_byte_loads(9), vec![(20, 0), (28, 8)]);
}

#[test]
fn v8_bridge_constants_are_numbered_by_the_counter() {
    let c = v8_export_constants(3, "effect", "succeed");
    assert_eq!(c.next_counter, 4);
    assert_eq!(c.globals, strings(&["perry_v8_spec_3", "perry_v8_name_3"]));
    assert_eq!(
        c.rodata,
        strings(&[
            "@perry_v8_spec_3 = private unnamed_addr constant [7 x i8] c\"effect\\00\"",
            "@perry_v8_name_3 = private unnamed_addr constant [8 x i8] c\"succeed\\00\"",
        ])
    );
    let m = v8_member_method_constants(0, "effect", "Effect", "map");
    assert_eq!(m.next_counter, 1);
    assert_eq!(
        m.globals,
        strings(&["perry_v8_mspec_0", "perry_v8_mmember_0", "perry_v8_mmethod_0"])
    );
    assert_eq!(
        m.rodata[2],
        "@perry_v8_mmethod_0 = private unnamed_addr constant [4 x i8] c\"map\\00\""
    );
}

#[test]
fn worker_aliases_are_sorted_and_refuse_native_targets() {
    let map = vec![
        ("./w.ts".to_string(), "w_ts".to_string()),
        ("/abs/w.ts".to_string(), "w_ts".to_string()),
        ("./other.ts".to_string(), "other_ts".to_string()),
        ("fs".to_string(), "__native_mod__fs".to_string()),
    ];
    assert_eq!(
        worker_aliases(&strings(&["./w.ts"]), &map),
        Ok(vec![
            ("./w.ts".to_string(), "w_ts".to_string()),
            ("/abs/w.ts".to_string(), "w_ts".to_string()),
        ])
    );
    assert_eq!(
        worker_aliases(&strings(&["./other.ts", "./missing.ts"]), &map),
        Ok(vec![("./other.ts".to_string(), "other_ts".to_string())])
    );
    assert_eq!(
        worker_aliases(&strings(&["./w.ts", "fs"]), &map),
        Err(WORKER_NATIVE_TARGET_MESSAGE.to_string())
    );
    assert_eq!(worker_aliases(&[], &map), Ok(vec![]));
    assert_eq!(worker_init_symbol("w_ts"), "w_ts__init_body");
}
