use paperless_llm::chat::{Choice, GenerationSettings, Message, Model, Models, Props, Response, Role};
use paperless_llm::error::Error;
use paperless_llm::orchestrator::{
    build_run_config, handle_completion, Orchestrator, RunConfig, Stage, AMOUNT_FIELD,
    DEFAULT_CONCURRENCY, TAG,
};
use paperless_llm::patch::Document;
use paperless_llm::store::{resolve_id, sort_ids, str_eq, IdName};

fn entry(name: &str, id: usize) -> IdName {
    IdName { id, name: name.to_string() }
}

fn reply(text: &str) -> Response {
    Response {
        choices: vec![Choice {
            message: Message { role: Role::Assistant, content: text.to_string() },
        }],
    }
}

fn config() -> RunConfig {
    RunConfig {
        model: "m".to_string(),
        currency: "CHF".to_string(),
        apply: true,
        tag_id: 3,
        field_id: 9,
        n_ctx: 4096,
        limit: DEFAULT_CONCURRENCY,
    }
}

fn invoice_doc() -> Document {
    Document {
        id: 7,
        title: "Invoice".to_string(),
        content: "Total: 42.00 CHF".to_string(),
        tags: vec![3],
        custom_fields: vec![],
    }
}

#[test]
fn run_reports_exactly_the_failing_ids() {
    // Five documents, the odd ids fail at some stage: the failure set holds
    // exactly those, and every id reaches an outcome.
    let mut o = Orchestrator::new(vec![1, 2, 3, 4, 5], 2);
    let mut outcomes: Vec<(usize, bool)> = Vec::new();
    let mut in_flight: Vec<usize> = Vec::new();
    loop {
        while let Some(id) = o.try_start() {
            in_flight.push(id);
            assert!(in_flight.len() <= 2);
        }
        match in_flight.pop() {
            Some(id) => {
                let ok = id % 2 == 0;
                outcomes.push((id, ok));
                o.finish(id, ok);
            }
            None => break,
        }
    }
    assert!(o.is_complete());
    assert_eq!(o.processed(), 5);
    assert_eq!(o.total(), 5);
    assert_eq!(outcomes.len(), 5);
    let mut failed = o.failed_ids().clone();
    failed.sort();
    assert_eq!(failed, vec![1, 3, 5]);
}

#[test]
fn concurrency_ceiling_is_respected() {
    let mut o = Orchestrator::new((1..=10).collect(), 3);
    let a = o.try_start().unwrap();
    let b = o.try_start().unwrap();
    let c = o.try_start().unwrap();
    // At the ceiling: no fourth pipeline may start.
    assert_eq!(o.try_start(), None);
    o.finish(a, true);
    // One slot freed: exactly one more start is granted.
    let d = o.try_start().unwrap();
    assert_eq!(o.try_start(), None);
    o.finish(b, true);
    o.finish(c, true);
    o.finish(d, true);
    assert!(!o.is_complete());
    assert_eq!(o.processed(), 4);
}

#[test]
fn ids_are_handed_out_in_order() {
    let mut o = Orchestrator::new(vec![4, 8, 15], 10);
    assert_eq!(o.try_start(), Some(4));
    assert_eq!(o.try_start(), Some(8));
    assert_eq!(o.try_start(), Some(15));
    assert_eq!(o.try_start(), None);
}

#[test]
fn successful_completion_yields_the_expected_patch() {
    let doc = invoice_doc();
    let r = reply("Invoice 42\n42.00");
    let p = handle_completion(&doc, &r, &config()).unwrap();
    assert_eq!(p.title, "Invoice 42");
    assert_eq!(p.tags, Vec::<usize>::new());
    assert_eq!(p.custom_fields.len(), 1);
    assert_eq!(p.custom_fields[0].field, 9);
    assert_eq!(p.custom_fields[0].value, "CHF42.00");
}

#[test]
fn three_line_reply_fails_the_document_and_writes_nothing() {
    let doc = invoice_doc();
    let r = reply("Invoice 42\n42.00\nHave a nice day");
    let outcome = handle_completion(&doc, &r, &config());
    assert!(matches!(outcome, Err(Error::MalformedOutput(_))));
    // The failure is recorded against document 7; no patch exists to write.
    let mut o = Orchestrator::new(vec![7], 1);
    let id = o.try_start().unwrap();
    assert_eq!(id, 7);
    o.finish(id, outcome.is_ok());
    assert!(o.is_complete());
    assert_eq!(o.failed_ids(), &vec![7]);
}

#[test]
fn empty_choice_list_is_a_service_error() {
    let doc = invoice_doc();
    let r = Response { choices: vec![] };
    assert!(matches!(handle_completion(&doc, &r, &config()), Err(Error::ServiceError(_))));
}

#[test]
fn resolve_id_takes_the_last_entry_of_a_duplicated_name() {
    let entries = vec![entry("Amount", 9), entry("Other", 2), entry("Amount", 12)];
    assert_eq!(resolve_id(&entries, "Amount").unwrap(), 12);
    assert_eq!(resolve_id(&entries, "Other").unwrap(), 2);
}

#[test]
fn resolve_id_misses_with_not_found() {
    let entries = vec![entry("Amount", 9)];
    assert!(matches!(resolve_id(&entries, "amount"), Err(Error::NotFoundError(_))));
    assert!(matches!(resolve_id(&Vec::new(), "Amount"), Err(Error::NotFoundError(_))));
}

#[test]
fn sort_ids_orders_ascending_and_keeps_duplicates() {
    let sorted = sort_ids(&vec![5, 3, 9, 3, 1]);
    assert_eq!(sorted, vec![1, 3, 3, 5, 9]);
    assert_eq!(sort_ids(&Vec::new()), Vec::<usize>::new());
}

#[test]
fn str_eq_compares_by_characters() {
    assert!(str_eq("llm-process", "llm-process"));
    assert!(!str_eq("Amount", "amount"));
    assert!(!str_eq("a", "ab"));
}

#[test]
fn run_config_resolves_all_three_lookups() {
    let tags = vec![entry(TAG, 3)];
    let fields = vec![entry(AMOUNT_FIELD, 9)];
    let models = Models { data: vec![Model { id: "m1".to_string() }] };
    let props = Props { default_generation_settings: GenerationSettings { n_ctx: 8192 } };
    let settings = props.default_generation_settings;
    let c = build_run_config(&tags, &fields, &models, settings, TAG, AMOUNT_FIELD, "CHF", false, 10)
        .unwrap();
    assert_eq!(c.tag_id, 3);
    assert_eq!(c.field_id, 9);
    assert_eq!(c.model, "m1");
    assert_eq!(c.n_ctx, 8192);
    assert!(!c.apply);
}

#[test]
fn missing_tag_is_fatal_not_found() {
    let tags = vec![entry("inbox", 1)];
    let fields = vec![entry(AMOUNT_FIELD, 9)];
    let models = Models { data: vec![Model { id: "m1".to_string() }] };
    let settings = GenerationSettings { n_ctx: 8192 };
    let r = build_run_config(&tags, &fields, &models, settings, TAG, AMOUNT_FIELD, "CHF", true, 10);
    assert!(matches!(r, Err(Error::NotFoundError(_))));
}

#[test]
fn no_model_offered_is_not_found() {
    let models = Models { data: vec![] };
    assert!(matches!(models.first_id(), Err(Error::NotFoundError(_))));
    let models = Models { data: vec![Model { id: "a".to_string() }, Model { id: "b".to_string() }] };
    assert_eq!(models.first_id().unwrap(), "a");
}

#[test]
fn response_content_is_the_first_choice() {
    let r = reply("hello\n-");
    assert_eq!(r.content().unwrap(), "hello\n-");
    let empty = Response { choices: vec![] };
    assert!(matches!(empty.content(), Err(Error::ServiceError(_))));
}

#[test]
fn errors_describe_themselves_for_log_lines() {
    assert_eq!(
        Error::ServiceError("boom".to_string()).describe(),
        "service error: boom"
    );
    assert_eq!(Error::NotFoundError("tag".to_string()).describe(), "not found: tag");
    assert_eq!(
        Error::MalformedOutput("x".to_string()).describe(),
        "malformed model output: x"
    );
    assert_eq!(Error::UserAborted.describe(), "user aborted");
}

#[test]
fn stages_of_one_pipeline_are_distinct() {
    let order = [
        Stage::Fetched,
        Stage::Prompted,
        Stage::Completed,
        Stage::Parsed,
        Stage::Patched,
        Stage::Done,
    ];
    for (i, a) in order.iter().enumerate() {
        for (j, b) in order.iter().enumerate() {
            assert_eq!(a == b, i == j);
        }
        assert_ne!(*a, Stage::Failed);
    }
}
