use paperless_llm::output::{parse_output, Amount, StructuredOutput};
use paperless_llm::patch::{
    apply_patch, build_patch, format_amount, CustomFieldValue, Document,
};

fn field(id: usize, value: &str) -> CustomFieldValue {
    CustomFieldValue { field: id, value: value.to_string() }
}

fn invoice_doc() -> Document {
    Document {
        id: 7,
        title: "Invoice".to_string(),
        content: "Total: 42.00 CHF".to_string(),
        tags: vec![3],
        custom_fields: vec![],
    }
}

#[test]
fn end_to_end_patch_scenario() {
    let doc = invoice_doc();
    let out = parse_output("Invoice 42\n42.00").unwrap();
    let p = build_patch(&doc, &out, 3, 9, "CHF");
    assert_eq!(p.title, "Invoice 42");
    assert_eq!(p.tags, Vec::<usize>::new());
    assert_eq!(p.custom_fields, vec![field(9, "CHF42.00")]);
}

#[test]
fn patch_is_idempotent_with_an_amount() {
    let doc = Document {
        id: 11,
        title: "scan_0001".to_string(),
        content: "whatever".to_string(),
        tags: vec![3, 5],
        custom_fields: vec![field(9, "CHF1.00"), field(2, "keep me")],
    };
    let out = StructuredOutput {
        title: "Receipt".to_string(),
        amount: Some(Amount { cents: 1234 }),
    };
    let first = build_patch(&doc, &out, 3, 9, "CHF");
    let updated = apply_patch(&doc, &first);
    let second = build_patch(&updated, &out, 3, 9, "CHF");
    assert_eq!(first, second);
}

#[test]
fn patch_is_idempotent_without_an_amount() {
    let doc = Document {
        id: 11,
        title: "scan_0002".to_string(),
        content: "whatever".to_string(),
        tags: vec![3],
        custom_fields: vec![field(2, "keep me")],
    };
    let out = StructuredOutput { title: "Letter".to_string(), amount: None };
    let first = build_patch(&doc, &out, 3, 9, "CHF");
    let updated = apply_patch(&doc, &first);
    let second = build_patch(&updated, &out, 3, 9, "CHF");
    assert_eq!(first, second);
}

#[test]
fn other_custom_fields_are_kept_in_order() {
    let doc = Document {
        id: 1,
        title: "t".to_string(),
        content: "c".to_string(),
        tags: vec![],
        custom_fields: vec![field(2, "a"), field(9, "stale"), field(4, "b")],
    };
    let out = StructuredOutput {
        title: "t2".to_string(),
        amount: Some(Amount { cents: 1234 }),
    };
    let p = build_patch(&doc, &out, 3, 9, "CHF");
    assert_eq!(p.custom_fields, vec![field(2, "a"), field(4, "b"), field(9, "CHF12.34")]);
}

#[test]
fn no_amount_leaves_custom_fields_unchanged() {
    let doc = Document {
        id: 1,
        title: "t".to_string(),
        content: "c".to_string(),
        tags: vec![3, 8],
        custom_fields: vec![field(9, "CHF5.00"), field(2, "a")],
    };
    let out = StructuredOutput { title: "t2".to_string(), amount: None };
    let p = build_patch(&doc, &out, 3, 9, "CHF");
    assert_eq!(p.title, "t2");
    assert_eq!(p.tags, vec![8]);
    assert_eq!(p.custom_fields, vec![field(9, "CHF5.00"), field(2, "a")]);
}

#[test]
fn removing_an_absent_tag_is_a_no_op() {
    let doc = Document {
        id: 1,
        title: "t".to_string(),
        content: "c".to_string(),
        tags: vec![5, 8],
        custom_fields: vec![],
    };
    let out = StructuredOutput { title: "t".to_string(), amount: None };
    let p = build_patch(&doc, &out, 3, 9, "CHF");
    assert_eq!(p.tags, vec![5, 8]);
}

#[test]
fn title_always_replaces_even_when_equal() {
    let doc = invoice_doc();
    let out = StructuredOutput { title: "Invoice".to_string(), amount: None };
    let p = build_patch(&doc, &out, 3, 9, "CHF");
    assert_eq!(p.title, "Invoice");
}

#[test]
fn amounts_format_with_exactly_two_decimal_places() {
    assert_eq!(format_amount("CHF", Amount { cents: 1234 }), "CHF12.34");
    assert_eq!(format_amount("CHF", Amount { cents: 4200 }), "CHF42.00");
    assert_eq!(format_amount("CHF", Amount { cents: 0 }), "CHF0.00");
    assert_eq!(format_amount("CHF", Amount { cents: 7 }), "CHF0.07");
    assert_eq!(format_amount("CHF", Amount { cents: 100000 }), "CHF1000.00");
    assert_eq!(format_amount("EUR", Amount { cents: -25 }), "EUR-0.25");
    assert_eq!(format_amount("CHF", Amount { cents: -4200 }), "CHF-42.00");
}

#[test]
fn apply_patch_replaces_the_three_patched_parts() {
    let doc = Document {
        id: 7,
        title: "old".to_string(),
        content: "text".to_string(),
        tags: vec![3],
        custom_fields: vec![field(2, "a")],
    };
    let out = StructuredOutput {
        title: "new".to_string(),
        amount: Some(Amount { cents: 500 }),
    };
    let p = build_patch(&doc, &out, 3, 9, "CHF");
    let updated = apply_patch(&doc, &p);
    assert_eq!(updated.id, 7);
    assert_eq!(updated.content, "text");
    assert_eq!(updated.title, "new");
    assert_eq!(updated.tags, p.tags);
    assert_eq!(updated.custom_fields, p.custom_fields);
}
