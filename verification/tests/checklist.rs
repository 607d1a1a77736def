use cane::checklist::{
    parse_checklist, read_checklist, Checklist, ChecklistInput, ChecklistStepInput,
    ChecklistStepStatus,
};

fn parse(steps: Vec<ChecklistStepInput>) -> Result<Checklist, String> {
    parse_checklist(&ChecklistInput { checklist: steps })
}

fn step(text: impl Into<String>, status: &str) -> ChecklistStepInput {
    ChecklistStepInput {
        step: text.into(),
        status: match status {
            "completed" => ChecklistStepStatus::Completed,
            "in_progress" => ChecklistStepStatus::InProgress,
            "pending" => ChecklistStepStatus::Pending,
            _ => unreachable!(),
        },
    }
}

fn parsed(steps: Vec<ChecklistStepInput>) -> Checklist {
    parse(steps).unwrap()
}

#[test]
fn valid_empty_and_common_status_arrangements_are_accepted() {
    let cases = [
        vec![],
        vec![step("Pending", "pending")],
        vec![step("Completed", "completed")],
        vec![
            step("Completed", "completed"),
            step("Current", "in_progress"),
            step("Later", "pending")
        ],
        vec![step("Completed", "completed"), step("Later", "pending")],
        vec![step("First", "pending"), step("Second", "pending")],
        vec![
            step("Already done", "completed"),
            step("Also done", "completed")
        ],
    ];

    for case in cases {
        assert!(parse(case).is_ok());
    }
}

#[test]
fn exact_limits_and_normal_unicode_are_accepted() {
    let twenty_steps: Vec<_> = (1..=20)
        .map(|index| step(format!("Step {index}"), "pending"))
        .collect();
    let two_hundred_scalars = "🦀".repeat(200);

    assert_eq!(parsed(twenty_steps).steps().len(), 20);
    assert_eq!(
        parsed(vec![step(&two_hundred_scalars, "pending")]).steps()[0]
            .text()
            .chars()
            .count(),
        200
    );
    assert!(parse(vec![step("Crème brûlée 東京 🚀", "pending")]).is_ok());
    assert!(parse(vec![step("Compare <old> & >new<", "pending")]).is_ok());
}

#[test]
fn surrounding_whitespace_is_trimmed_without_other_normalization() {
    let checklist = parsed(vec![step("  Keep  INTERNAL spacing 🚀  ", "pending")]);

    assert_eq!(checklist.steps()[0].text(), "Keep  INTERNAL spacing 🚀");
}

#[test]
fn more_than_twenty_steps_is_rejected() {
    let steps: Vec<_> = (1..=21)
        .map(|index| step(format!("Step {index}"), "pending"))
        .collect();

    assert_eq!(
        parse(steps).unwrap_err(),
        "checklist must contain at most 20 steps"
    );
}

#[test]
fn empty_and_whitespace_only_steps_are_rejected() {
    assert_eq!(
        parse(vec![step("", "pending")]).unwrap_err(),
        "checklist step 1 must not be empty"
    );
    assert_eq!(
        parse(vec![step(" \u{2003} ", "pending")]).unwrap_err(),
        "checklist step 1 must not be empty"
    );
}

#[test]
fn control_characters_are_rejected() {
    for control in ['\n', '\r', '\t', '\u{1b}', '\u{85}'] {
        for text in [
            format!("before{control}after"),
            format!("{control}before"),
            format!("after{control}"),
        ] {
            assert_eq!(
                parse(vec![step(text, "pending")]).unwrap_err(),
                "checklist step 1 must not contain control characters"
            );
        }
    }
}

#[test]
fn more_than_two_hundred_unicode_scalars_is_rejected() {
    assert_eq!(
        parse(vec![step("🚀".repeat(201), "pending")]).unwrap_err(),
        "checklist step 1 must contain at most 200 characters"
    );
}

#[test]
fn exact_duplicates_are_rejected_after_trimming_but_case_is_significant() {
    assert_eq!(
        parse(vec![step("Same", "completed"), step("Same", "pending")]).unwrap_err(),
        "checklist step 2 duplicates an earlier step"
    );
    assert_eq!(
        parse(vec![
            step(" Same ", "completed"),
            step("Same", "pending")
        ])
        .unwrap_err(),
        "checklist step 2 duplicates an earlier step"
    );
    assert!(parse(vec![step("Same", "completed"), step("same", "pending")]).is_ok());
}

#[test]
fn multiple_in_progress_steps_are_rejected() {
    assert_eq!(
        parse(vec![
            step("One", "in_progress"),
            step("Two", "in_progress")
        ])
        .unwrap_err(),
        "checklist must contain at most one in_progress step"
    );
}

#[test]
fn statuses_must_follow_completed_current_pending_order() {
    let cases = [
        (
            vec![step("Pending", "pending"), step("Completed", "completed")],
            "checklist step 2 has status completed after unfinished steps",
        ),
        (
            vec![
                step("Current", "in_progress"),
                step("Completed", "completed")
            ],
            "checklist step 2 has status completed after unfinished steps",
        ),
        (
            vec![step("Pending", "pending"), step("Current", "in_progress")],
            "checklist step 2 has status in_progress after pending steps",
        ),
    ];

    for (steps, expected) in cases {
        assert_eq!(parse(steps).unwrap_err(), expected);
    }
}

#[test]
fn semantic_validation_order_is_stable() {
    let mut oversized_before_other_failures: Vec<_> = (1..=21)
        .map(|index| step(format!("Step {index}"), "pending"))
        .collect();
    oversized_before_other_failures[0] = step("", "completed");
    let empty_before_other_failures = vec![
        step("Pending", "pending"),
        step("   ", "completed"),
        step("bad\ncontrol", "in_progress")
    ];
    let control_before_duplicate_and_status = vec![
        step("Same", "pending"),
        step("Same", "completed"),
        step("bad\ncontrol", "pending")
    ];

    assert_eq!(
        parse(oversized_before_other_failures).unwrap_err(),
        "checklist must contain at most 20 steps"
    );
    assert_eq!(
        parse(empty_before_other_failures).unwrap_err(),
        "checklist step 2 must not be empty"
    );
    assert_eq!(
        parse(control_before_duplicate_and_status).unwrap_err(),
        "checklist step 3 must not contain control characters"
    );
}

#[test]
fn fully_completed_requires_at_least_one_step_and_no_unfinished_steps() {
    assert!(!Checklist::default().is_fully_completed());
    assert!(
        parsed(vec![step("One", "completed"), step("Two", "completed")])
            .is_fully_completed()
    );
    assert!(!parsed(vec![step("One", "pending")]).is_fully_completed());
    assert!(!parsed(vec![step("One", "in_progress")]).is_fully_completed());
}

#[test]
fn empty_checklist_has_no_dynamic_context() {
    assert_eq!(Checklist::default().render_dynamic_context(), None);
}

#[test]
fn unfinished_dynamic_context_renders_every_status_and_escapes_markup() {
    let checklist = parsed(vec![
        step("Inspect <code> & tests", "completed"),
        step("Implement > parser", "in_progress"),
        step("Verify", "pending")
    ]);

    assert_eq!(
        checklist.render_dynamic_context().unwrap(),
        "<current_checklist>\n[completed] Inspect &lt;code&gt; &amp; tests\n[in_progress] Implement &gt; parser\n[pending] Verify\n</current_checklist>\n\nReassess this checklist against the latest user request, and replace or clear it if it is no longer appropriate."
    );
}

#[test]
fn fully_completed_dynamic_context_keeps_steps_without_a_reminder() {
    let checklist = parsed(vec![
        step("Inspect", "completed"),
        step("Implement", "completed")
    ]);

    assert_eq!(
        checklist.render_dynamic_context().unwrap(),
        "<current_checklist>\n[completed] Inspect\n[completed] Implement\n</current_checklist>"
    );
}

#[test]
fn every_kind_of_markup_is_escaped() {
    let checklist = parsed(vec![step("a < b > c & d", "pending")]);

    assert!(checklist
        .render_dynamic_context()
        .unwrap()
        .contains("[pending] a &lt; b &gt; c &amp; d\n"));
}

#[test]
fn a_checklist_that_cannot_be_decoded_says_so() {
    assert_eq!(
        read_checklist(Err("missing field `checklist`".to_string())),
        Err("invalid checklist input: missing field `checklist`".to_string())
    );
    assert_eq!(
        read_checklist(Ok(ChecklistInput { checklist: vec![step(" ", "pending")] })),
        Err("checklist step 1 must not be empty".to_string())
    );
    assert_eq!(
        read_checklist(Ok(ChecklistInput { checklist: vec![step("Read", "pending")] })),
        Ok(parsed(vec![step("Read", "pending")]))
    );
}

#[test]
fn accepted_texts_are_trimmed() {
    let checklist = parsed(vec![step("\u{3000} Read it  ", "pending")]);

    assert_eq!(checklist.steps()[0].text(), "Read it");
    assert_eq!(
        checklist,
        parsed(vec![step(checklist.steps()[0].text(), "pending")])
    );
    assert_eq!(checklist.clone(), checklist);
}
