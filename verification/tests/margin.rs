use pattern_maker::{
    apply_decision, generate_margin_plan, join_decision, JoinAction, PlanEntry, SegTag,
};

fn entry(tag: SegTag, skips_join: bool) -> PlanEntry {
    PlanEntry { tag, skips_join }
}

fn bridge() -> PlanEntry {
    entry(SegTag::Line, true)
}

#[test]
fn test_join_decision_table() {
    assert_eq!(
        join_decision(SegTag::Line, SegTag::Line, true),
        JoinAction::AlreadyMet
    );
    assert_eq!(
        join_decision(SegTag::Curve, SegTag::Line, true),
        JoinAction::AlreadyMet
    );
    assert_eq!(
        join_decision(SegTag::Line, SegTag::Line, false),
        JoinAction::WeldLineLine
    );
    assert_eq!(
        join_decision(SegTag::Line, SegTag::Curve, false),
        JoinAction::BridgeAfter
    );
    assert_eq!(
        join_decision(SegTag::Curve, SegTag::Line, false),
        JoinAction::BridgeAfter
    );
    assert_eq!(
        join_decision(SegTag::Curve, SegTag::Curve, false),
        JoinAction::DoubleBridgeAfter
    );
}

#[test]
fn test_apply_decision_no_bridge() {
    let mut plan = vec![entry(SegTag::Line, false), entry(SegTag::Line, false)];
    let next = apply_decision(&mut plan, 0, JoinAction::WeldLineLine);
    assert_eq!(next, 1);
    assert_eq!(plan.len(), 2);
    let next = apply_decision(&mut plan, 1, JoinAction::AlreadyMet);
    assert_eq!(next, 2);
    assert_eq!(plan.len(), 2);
}

#[test]
fn test_apply_decision_single_bridge() {
    let mut plan = vec![
        entry(SegTag::Line, false),
        entry(SegTag::Curve, false),
        entry(SegTag::Line, true),
    ];
    let next = apply_decision(&mut plan, 0, JoinAction::BridgeAfter);
    assert_eq!(next, 2);
    assert_eq!(
        plan,
        vec![
            entry(SegTag::Line, false),
            bridge(),
            entry(SegTag::Curve, false),
            entry(SegTag::Line, true),
        ]
    );
}

#[test]
fn test_apply_decision_double_bridge() {
    let mut plan = vec![entry(SegTag::Curve, false), entry(SegTag::Curve, false)];
    let next = apply_decision(&mut plan, 0, JoinAction::DoubleBridgeAfter);
    assert_eq!(next, 3);
    assert_eq!(
        plan,
        vec![
            entry(SegTag::Curve, false),
            bridge(),
            bridge(),
            entry(SegTag::Curve, false),
        ]
    );
}

#[test]
fn test_plan_closed_all_lines() {
    // a closed all-line contour with no coincident pairs: every pair is
    // welded in place and nothing is inserted
    let tags = vec![SegTag::Line; 4];
    let skips = vec![false; 4];
    let coincident = vec![false; 4];
    let plan = generate_margin_plan(&tags, &skips, &coincident);
    assert_eq!(plan.len(), 4);
    for e in &plan {
        assert_eq!(*e, entry(SegTag::Line, false));
    }
}

#[test]
fn test_plan_line_curve_pair() {
    // line then curve, wrapping back to the line: each pair gets one bridge
    let tags = vec![SegTag::Line, SegTag::Curve];
    let skips = vec![false, false];
    let coincident = vec![false, false];
    let plan = generate_margin_plan(&tags, &skips, &coincident);
    assert_eq!(
        plan,
        vec![
            entry(SegTag::Line, false),
            bridge(),
            entry(SegTag::Curve, false),
            bridge(),
        ]
    );
}

#[test]
fn test_plan_curve_curve_double_bridge() {
    let tags = vec![SegTag::Curve, SegTag::Curve];
    let skips = vec![false, false];
    let coincident = vec![false, true];
    let plan = generate_margin_plan(&tags, &skips, &coincident);
    assert_eq!(
        plan,
        vec![
            entry(SegTag::Curve, false),
            bridge(),
            bridge(),
            entry(SegTag::Curve, false),
        ]
    );
}

#[test]
fn test_plan_exempt_entry_inserts_nothing() {
    // the middle entry is exempt from joining: no decision, no bridge
    let tags = vec![SegTag::Line, SegTag::Curve, SegTag::Line];
    let skips = vec![false, true, false];
    let coincident = vec![true, false, true];
    let plan = generate_margin_plan(&tags, &skips, &coincident);
    assert_eq!(
        plan,
        vec![
            entry(SegTag::Line, false),
            entry(SegTag::Curve, true),
            entry(SegTag::Line, false),
        ]
    );
}

#[test]
fn test_plan_coincident_pairs_untouched() {
    let tags = vec![SegTag::Curve, SegTag::Line, SegTag::Curve];
    let skips = vec![false, false, false];
    let coincident = vec![true, true, true];
    let plan = generate_margin_plan(&tags, &skips, &coincident);
    assert_eq!(plan.len(), 3);
    assert!(plan.iter().all(|e| !e.skips_join));
}
