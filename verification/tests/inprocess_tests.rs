use perry_codegen::inprocess::optimize_emit::{
    cpu_choice, emission_plan, opt_level_for, pass_pipeline_for, CpuChoice, EmitKind, OptLevel,
};

#[test]
fn opt_characters_map_to_levels_and_pipelines() {
    let cases = [
        ('0', OptLevel::O0, "default<O0>"),
        ('1', OptLevel::O1, "default<O1>"),
        ('2', OptLevel::O2, "default<O2>"),
        ('s', OptLevel::O2, "default<Os>"),
        ('z', OptLevel::O2, "default<Oz>"),
        ('3', OptLevel::O3, "default<O3>"),
        ('x', OptLevel::O3, "default<O3>"),
    ];
    for (opt, level, pipeline) in cases {
        assert_eq!(opt_level_for(opt), level, "{opt}");
        assert_eq!(pass_pipeline_for(opt), pipeline, "{opt}");
    }
}

#[test]
fn budgets_apply_above_o0_and_dash_s_emits_text() {
    let o0 = emission_plan('0', true);
    assert!(!o0.bound_tail_call_elim);
    assert!(!o0.consider_fast_emit);
    assert_eq!(o0.kind, EmitKind::Assembly);
    assert_eq!(o0.pipeline, "default<O0>");

    let os = emission_plan('s', false);
    assert!(os.bound_tail_call_elim);
    assert!(os.consider_fast_emit);
    assert_eq!(os.kind, EmitKind::Object);
    assert_eq!(os.opt_level, OptLevel::O2);
    assert_eq!(os.pipeline, "default<Os>");
}

#[test]
fn native_cpu_wins_over_an_explicit_one() {
    assert!(matches!(cpu_choice(true, Some("apple-m1")), CpuChoice::Host));
    match cpu_choice(false, Some("apple-m1")) {
        CpuChoice::Explicit(cpu) => assert_eq!(cpu, "apple-m1"),
        other => panic!("expected the explicit CPU, got {other:?}"),
    }
    assert!(matches!(cpu_choice(false, None), CpuChoice::TripleDefault));
}
