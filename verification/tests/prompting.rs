use paperless_llm::chat::Role;
use paperless_llm::prompt::{
    assemble, build_system_message, CHARS_PER_TOKEN_DEN, CHARS_PER_TOKEN_NUM,
    INSTRUCTION_CLOSING, INSTRUCTION_OPENING, RESERVED_OUTPUT_TOKENS,
};

fn expected_budget(n_ctx: usize, system_chars: usize) -> usize {
    let capacity = CHARS_PER_TOKEN_NUM as i128 * n_ctx as i128;
    let taken = CHARS_PER_TOKEN_DEN as i128 * system_chars as i128
        + CHARS_PER_TOKEN_DEN as i128 * RESERVED_OUTPUT_TOKENS as i128;
    if capacity <= taken {
        0
    } else {
        ((capacity - taken + 1) / CHARS_PER_TOKEN_DEN as i128) as usize
    }
}

#[test]
fn system_message_substitutes_currency() {
    let s = build_system_message("EUR");
    assert_eq!(s, format!("{}EUR{}", INSTRUCTION_OPENING, INSTRUCTION_CLOSING));
}

#[test]
fn short_text_passes_unmodified() {
    let p = assemble("CHF", 4096, "Total: 42.00 CHF");
    assert_eq!(p.system.role, Role::System);
    assert_eq!(p.user.role, Role::User);
    assert!(!p.truncated);
    assert_eq!(p.user.content, "Total: 42.00 CHF");
    assert_eq!(p.original_chars, 16);
    assert_eq!(p.kept_chars, 16);
}

#[test]
fn text_exactly_at_the_budget_passes_unmodified() {
    let system_chars = build_system_message("CHF").chars().count();
    let n_ctx = 200;
    let budget = expected_budget(n_ctx, system_chars);
    assert!(budget > 0);
    let text: String = std::iter::repeat('x').take(budget).collect();
    let p = assemble("CHF", n_ctx, &text);
    assert!(!p.truncated);
    assert_eq!(p.user.content, text);
}

#[test]
fn long_text_is_cut_to_exactly_the_budget() {
    let system_chars = build_system_message("CHF").chars().count();
    let n_ctx = 200;
    let budget = expected_budget(n_ctx, system_chars);
    assert!(budget > 0);
    let text: String = std::iter::repeat('x').take(budget + 25).collect();
    let p = assemble("CHF", n_ctx, &text);
    assert!(p.truncated);
    assert_eq!(p.user.content.chars().count(), budget);
    assert_eq!(p.kept_chars, budget);
    assert_eq!(p.original_chars, budget + 25);
    assert!(text.starts_with(&p.user.content));
}

#[test]
fn truncation_counts_codepoints_and_never_splits_them() {
    let system_chars = build_system_message("CHF").chars().count();
    let n_ctx = 200;
    let budget = expected_budget(n_ctx, system_chars);
    let text: String = std::iter::repeat('\u{00e9}').take(budget + 10).collect();
    let p = assemble("CHF", n_ctx, &text);
    assert!(p.truncated);
    assert_eq!(p.user.content.chars().count(), budget);
    let expected: String = text.chars().take(budget).collect();
    assert_eq!(p.user.content, expected);
}

#[test]
fn tiny_context_window_yields_an_empty_user_message() {
    let p = assemble("CHF", 1, "some document text");
    assert!(p.truncated);
    assert_eq!(p.user.content, "");
    assert_eq!(p.kept_chars, 0);
}
