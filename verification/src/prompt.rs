use vstd::prelude::*;

use crate::chat::{Message, Role};

verus! {

/// Estimated characters of document text that one context-window token can
/// carry, written as a ratio (numerator five, denominator two, i.e. 2.5).
/// A deliberate heuristic: no tokenizer is consulted.
pub const CHARS_PER_TOKEN_NUM: u64 = 5;

/// Denominator of the characters-per-token ratio.
pub const CHARS_PER_TOKEN_DEN: u64 = 2;

/// Tokens reserved for the model's answer when budgeting the prompt.
pub const RESERVED_OUTPUT_TOKENS: u64 = 50;

/// Opening of the fixed instruction template, up to the currency placeholder.
pub const INSTRUCTION_OPENING: &'static str = "You are given the text of a scanned document from a document archive. Answer with exactly two lines and nothing else. Line 1: a short, cleaned-up title for the document. Line 2: the total amount of money in ";

/// Closing of the fixed instruction template, after the currency placeholder.
pub const INSTRUCTION_CLOSING: &'static str = " that the document states, as a plain decimal number without a currency symbol, or the single character - if the document states no amount.";

/// Grammar constraint sent with each completion request, biasing the model
/// toward the two-line answer shape. Conformance is made likely, never
/// trusted: the parser checks every reply.
pub const GRAMMAR: &'static str = "root ::= title \"\\n\" amount\ntitle ::= [^\\n]+\namount ::= \"-\" | [0-9]+ (\".\" [0-9]+)?\n";

/// The system message: the instruction template with the currency code
/// substituted for its placeholder.
pub open spec fn spec_system_message(currency: Seq<char>) -> Seq<char> {
    INSTRUCTION_OPENING@ + currency + INSTRUCTION_CLOSING@
}

/// The character budget for the document text: everything of the estimated
/// context-window capacity (in characters) that the system message and the
/// reserved output head-room do not take, rounded up, floored at zero.
pub open spec fn spec_budget(n_ctx: int, system_len: int) -> int {
    let raw = (CHARS_PER_TOKEN_NUM as int) * n_ctx - (CHARS_PER_TOKEN_DEN as int) * system_len
        - (CHARS_PER_TOKEN_DEN as int) * (RESERVED_OUTPUT_TOKENS as int);
    if raw <= 0 {
        0
    } else {
        (raw + 1) / (CHARS_PER_TOKEN_DEN as int)
    }
}

/// A bounded prompt: a system/user message pair whose estimated token count
/// fits the context window, plus the truncation signal for observability.
#[derive(Debug, Clone, PartialEq, Eq)]
pub struct Prompt {
    pub system: Message,
    pub user: Message,
    /// Whether the document text had to be cut to fit the budget.
    pub truncated: bool,
    /// Character count of the document text as fetched.
    pub original_chars: usize,
    /// Character count of the document text as sent.
    pub kept_chars: usize,
}

/// Builds the system message by substituting the currency code into the
/// fixed instruction template.
pub fn build_system_message(currency: &str) -> (r: String)
    ensures
        r@ == spec_system_message(currency@),
{
    let mut s = INSTRUCTION_OPENING.to_owned();
    s.append(currency);
    s.append(INSTRUCTION_CLOSING);
    proof {
        assert(s@ =~= spec_system_message(currency@));
    }
    s
}

/// Computes the document character budget for a context window of `n_ctx`
/// tokens beside a system message of `system_len` characters.
fn compute_budget(n_ctx: usize, system_len: usize) -> (r: u128)
    ensures
        r == spec_budget(n_ctx as int, system_len as int),
{
    let capacity: u128 = (CHARS_PER_TOKEN_NUM as u128) * (n_ctx as u128);
    let taken: u128 = (CHARS_PER_TOKEN_DEN as u128) * (system_len as u128)
        + (CHARS_PER_TOKEN_DEN as u128) * (RESERVED_OUTPUT_TOKENS as u128);
    if capacity <= taken {
        0
    } else {
        (capacity - taken + 1) / (CHARS_PER_TOKEN_DEN as u128)
    }
}

/// Builds the bounded system/user message pair for one document.
///
/// The system message is the instruction template with `currency`
/// substituted. The document text is passed unmodified whenever its
/// character count fits the computed budget; otherwise the user message is
/// the prefix of exactly the budgeted number of characters (whole
/// codepoints, so no multi-byte character is ever split) and the truncation
/// signal is raised. A zero or negative budget is valid and yields an empty
/// user message; truncation is never an error.
pub fn assemble(currency: &str, n_ctx: usize, content: &str) -> (p: Prompt)
    ensures
        p.system.role == Role::System,
        p.user.role == Role::User,
        p.system.content@ == spec_system_message(currency@),
        p.original_chars == content@.len(),
        p.kept_chars == p.user.content@.len(),
        p.truncated == (content@.len() > spec_budget(n_ctx as int, p.system.content@.len() as int)),
        !p.truncated ==> p.user.content@ == content@,
        p.truncated ==> p.user.content@ == content@.subrange(
            0,
            spec_budget(n_ctx as int, p.system.content@.len() as int),
        ),
{
    let system_text = build_system_message(currency);
    let system_len = system_text.as_str().unicode_len();
    let budget = compute_budget(n_ctx, system_len);
    let content_chars = content.unicode_len();
    if (content_chars as u128) > budget {
        proof {
            assert(budget <= usize::MAX as u128);
        }
        let kept = budget as usize;
        let cut = content.substring_char(0, kept);
        Prompt {
            system: Message { role: Role::System, content: system_text },
            user: Message { role: Role::User, content: cut.to_owned() },
            truncated: true,
            original_chars: content_chars,
            kept_chars: kept,
        }
    } else {
        Prompt {
            system: Message { role: Role::System, content: system_text },
            user: Message { role: Role::User, content: content.to_owned() },
            truncated: false,
            original_chars: content_chars,
            kept_chars: content_chars,
        }
    }
}

} // verus!
