use promptbox::context::{
    budget_step, count_tokens, kept_text, BudgetStep,
    effective_context_limit, effective_reserve, enforce_context_limit, split_units, BudgetError,
    OverflowKeep,
};

fn lines(n: usize) -> Vec<String> {
    (0..n).map(|i| format!("line {:04}\n", i)).collect()
}

#[test]
fn prompt_within_budget_is_unchanged() {
    let units = lines(3);
    let r = enforce_context_limit("Head:\n", &units, "Tail", 100, 20, OverflowKeep::End).unwrap();
    assert_eq!(r, format!("Head:\n{}{}{}Tail", units[0], units[1], units[2]));
}

#[test]
fn overflow_keeps_leading_content() {
    // 30 fixed characters plus 12 units of 10 characters: 150 tokens.
    let head = "x".repeat(30);
    let units = lines(12);
    assert!(units.iter().all(|u| u.chars().count() == 10));
    let r = enforce_context_limit(&head, &units, "", 100, 20, OverflowKeep::End).unwrap();
    assert_eq!(r.chars().count(), 80);
    assert_eq!(r, format!("{}{}", head, units[..5].concat()));
}

#[test]
fn overflow_keeps_trailing_content() {
    let units = lines(12);
    let r = enforce_context_limit("[", &units, "]", 100, 20, OverflowKeep::Start).unwrap();
    assert!(r.chars().count() <= 80);
    assert_eq!(r, format!("[{}]", units[5..].concat()));
}

#[test]
fn fixed_content_too_large_fails() {
    let head = "y".repeat(90);
    let r = enforce_context_limit(&head, &lines(2), "zz", 100, 20, OverflowKeep::End);
    assert_eq!(r, Err(BudgetError::ContextLimitExceeded { required: 92, available: 80 }));
}

#[test]
fn reserve_above_limit_leaves_nothing() {
    let r = enforce_context_limit("", &lines(1), "", 10, 20, OverflowKeep::End).unwrap();
    assert_eq!(r, "");
}

#[test]
fn defaults_for_reserve_and_limit() {
    assert_eq!(effective_reserve(None), 256);
    assert_eq!(effective_reserve(Some(10)), 10);
    assert_eq!(effective_context_limit(None, 4096), 4096);
    assert_eq!(effective_context_limit(Some(100), 4096), 100);
}

#[test]
fn free_text_splits_into_lines() {
    assert_eq!(split_units("a\nbc\n\nd"), vec!["a\n", "bc\n", "\n", "d"]);
    assert_eq!(split_units("x\n"), vec!["x\n"]);
    assert!(split_units("").is_empty());
}

#[test]
fn truncated_free_text_is_a_prefix() {
    let free = "first line\nsecond line\nthird line\n";
    let units = split_units(free);
    let r = enforce_context_limit("Q: ", &units, "", 30, 0, OverflowKeep::End).unwrap();
    assert_eq!(r, "Q: first line\nsecond line\n");
    assert!(free.starts_with(&r[3..]));
}

#[test]
fn render_loop_drops_lines_until_it_fits() {
    // 20 fixed characters plus 13 lines of 10: 150 tokens against a budget of 80.
    let units: Vec<String> = (0..13).map(|i| format!("item {:04}\n", i)).collect();
    let head = "h".repeat(20);
    let mut kept = units.len();
    let prompt = loop {
        let rendered = format!("{}{}", head, kept_text(&units, OverflowKeep::End, kept));
        match budget_step(kept, &rendered, 100, 20) {
            BudgetStep::Accept => break rendered,
            BudgetStep::Shrink(k) => kept = k,
            BudgetStep::Exceeded { .. } => panic!("fixed part fits"),
        }
    };
    assert_eq!(kept, 6);
    assert_eq!(count_tokens(&prompt), 80);
    assert_eq!(prompt, format!("{}{}", head, units[..6].concat()));
}

#[test]
fn render_loop_step_outcomes() {
    assert_eq!(budget_step(3, "abc", 10, 5), BudgetStep::Accept);
    assert_eq!(budget_step(3, "abcdef", 10, 5), BudgetStep::Shrink(2));
    assert_eq!(
        budget_step(0, "abcdef", 10, 5),
        BudgetStep::Exceeded { required: 6, available: 5 }
    );
}

#[test]
fn kept_text_takes_either_side() {
    let units = split_units("a\nb\nc");
    assert_eq!(kept_text(&units, OverflowKeep::End, 2), "a\nb\n");
    assert_eq!(kept_text(&units, OverflowKeep::Start, 2), "b\nc");
    assert_eq!(kept_text(&units, OverflowKeep::Start, 0), "");
}
