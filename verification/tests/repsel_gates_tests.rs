use perry_codegen::expr::repsel_gates::{
    body_context_denial, knob_enabled, RepselBody, RepselContextFlags, RepselGates,
    MODULE_INIT_CONTEXT,
};

const ALL_ON: RepselGates = RepselGates {
    canonical_i32: true,
    canonical_str: true,
    ptr_shape: true,
};

const SYNC: RepselBody = RepselBody::Body {
    is_async: false,
    is_generator: false,
    was_plain_async: false,
};

fn allows(flags: &RepselContextFlags) -> (bool, bool, bool) {
    (
        flags.allows_canonical_i32,
        flags.allows_canonical_str,
        flags.allows_ptr_shape,
    )
}

#[test]
fn each_knob_moves_exactly_one_flag() {
    let baseline = RepselContextFlags::derive(ALL_ON, SYNC);
    assert_eq!(allows(&baseline), (true, true, true));

    let cases: [(&str, RepselGates, (bool, bool, bool)); 3] = [
        (
            "canonical_i32",
            RepselGates {
                canonical_i32: false,
                ..ALL_ON
            },
            (false, true, true),
        ),
        (
            "canonical_str",
            RepselGates {
                canonical_str: false,
                ..ALL_ON
            },
            (true, false, true),
        ),
        (
            "ptr_shape",
            RepselGates {
                ptr_shape: false,
                ..ALL_ON
            },
            (true, true, false),
        ),
    ];
    for (name, gates, want) in cases {
        let got = RepselContextFlags::derive(gates, SYNC);
        assert_eq!(
            allows(&got),
            want,
            "knob {name} moved a flag it does not own: \
             (canonical_i32, canonical_str, ptr_shape) = {:?}, expected {want:?}",
            allows(&got)
        );
        assert_eq!(got.canonical_denial, None, "knob {name}");
        assert_eq!(got.ptr_shape_denial, None, "knob {name}");
    }
}

#[test]
fn entry_context_keeps_ptr_shape_off_and_names_the_rule() {
    let entry = RepselContextFlags::derive(ALL_ON, RepselBody::Entry);
    assert_eq!(allows(&entry), (true, true, false));
    assert_eq!(entry.canonical_denial, None);
    assert_eq!(entry.ptr_shape_denial, Some(MODULE_INIT_CONTEXT));

    for gates in [
        RepselGates {
            canonical_i32: false,
            ..ALL_ON
        },
        RepselGates {
            canonical_str: false,
            ..ALL_ON
        },
        RepselGates {
            ptr_shape: false,
            ..ALL_ON
        },
    ] {
        let got = RepselContextFlags::derive(gates, RepselBody::Entry);
        assert!(!got.allows_ptr_shape);
        assert_eq!(got.ptr_shape_denial, Some(MODULE_INIT_CONTEXT));
        assert_eq!(got.allows_canonical_i32, gates.canonical_i32);
        assert_eq!(got.allows_canonical_str, gates.canonical_str);
    }
}

#[test]
fn structural_denials_apply_to_every_representation() {
    for (body, rule) in [
        (
            RepselBody::Body {
                is_async: true,
                is_generator: false,
                was_plain_async: false,
            },
            "async_body",
        ),
        (
            RepselBody::Body {
                is_async: false,
                is_generator: true,
                was_plain_async: false,
            },
            "generator_body",
        ),
        (
            RepselBody::Body {
                is_async: false,
                is_generator: false,
                was_plain_async: true,
            },
            "was_plain_async_body",
        ),
    ] {
        let got = RepselContextFlags::derive(ALL_ON, body);
        assert_eq!(allows(&got), (false, false, false), "{rule}");
        assert_eq!(got.canonical_denial, Some(rule));
        assert_eq!(got.ptr_shape_denial, Some(rule));
    }
}

#[test]
fn all_knobs_off_in_a_sync_body_deny_nothing_structurally() {
    let off = RepselGates {
        canonical_i32: false,
        canonical_str: false,
        ptr_shape: false,
    };
    let got = RepselContextFlags::derive(off, SYNC);
    assert_eq!(allows(&got), (false, false, false));
    assert_eq!(got.canonical_denial, None);
    assert_eq!(got.ptr_shape_denial, None);
}

#[test]
fn the_first_structural_rule_wins_when_several_apply() {
    assert_eq!(body_context_denial(true, true, true), Some("async_body"));
    assert_eq!(body_context_denial(false, true, true), Some("generator_body"));
    assert_eq!(body_context_denial(false, false, false), None);
}

#[test]
fn knobs_default_on_and_only_three_spellings_turn_them_off() {
    assert!(knob_enabled(None));
    assert!(knob_enabled(Some("1")));
    assert!(knob_enabled(Some("")));
    assert!(knob_enabled(Some("OFF")));
    assert!(knob_enabled(Some(" 0")));
    assert!(!knob_enabled(Some("0")));
    assert!(!knob_enabled(Some("off")));
    assert!(!knob_enabled(Some("false")));
}
