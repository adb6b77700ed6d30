use vstd::prelude::*;

use crate::output::{Amount, StructuredOutput, amount_view};

verus! {

/// One custom-field entry of a document. The value is carried as text and
/// only the designated amount field's value is ever produced by this crate;
/// every other entry passes through patches untouched.
#[derive(Debug, Clone, PartialEq, Eq)]
pub struct CustomFieldValue {
    pub field: usize,
    pub value: String,
}

/// A document as fetched from the store: the only mutation this crate ever
/// derives from it is a single replacing patch.
#[derive(Debug, Clone, PartialEq, Eq)]
pub struct Document {
    pub id: usize,
    pub title: String,
    pub content: String,
    pub tags: Vec<usize>,
    pub custom_fields: Vec<CustomFieldValue>,
}

/// The update payload written back on success: a full replacement of title,
/// tag set and custom-field set.
#[derive(Debug, Clone, PartialEq, Eq)]
pub struct UpdatePatch {
    pub title: String,
    pub tags: Vec<usize>,
    pub custom_fields: Vec<CustomFieldValue>,
}

/// The patchable state of a document or patch: title, tags, and the
/// custom-field entries as (field id, value text) pairs.
#[verifier::ext_equal]
pub ghost struct DocState {
    pub title: Seq<char>,
    pub tags: Seq<usize>,
    pub fields: Seq<(usize, Seq<char>)>,
}

pub open spec fn field_view(c: CustomFieldValue) -> (usize, Seq<char>) {
    (c.field, c.value@)
}

pub open spec fn fields_view(s: Seq<CustomFieldValue>) -> Seq<(usize, Seq<char>)> {
    s.map_values(|c: CustomFieldValue| field_view(c))
}

impl Document {
    /// The patchable state of this document.
    pub open spec fn state(&self) -> DocState {
        DocState { title: self.title@, tags: self.tags@, fields: fields_view(self.custom_fields@) }
    }
}

impl UpdatePatch {
    /// The state a document has after this patch is applied.
    pub open spec fn state(&self) -> DocState {
        DocState { title: self.title@, tags: self.tags@, fields: fields_view(self.custom_fields@) }
    }
}

/// The tag set with the processing tag removed; removing an absent tag is a
/// no-op.
pub open spec fn remove_tag(tags: Seq<usize>, tag_id: usize) -> Seq<usize> {
    tags.filter(|t: usize| t != tag_id)
}

/// The custom-field entries with every entry of the amount field removed.
pub open spec fn remove_field(fields: Seq<(usize, Seq<char>)>, field_id: usize) -> Seq<
    (usize, Seq<char>),
> {
    fields.filter(|f: (usize, Seq<char>)| f.0 != field_id)
}

/// Decimal digit characters.
pub open spec fn digit_char(d: int) -> char {
    if d == 0 {
        '0'
    } else if d == 1 {
        '1'
    } else if d == 2 {
        '2'
    } else if d == 3 {
        '3'
    } else if d == 4 {
        '4'
    } else if d == 5 {
        '5'
    } else if d == 6 {
        '6'
    } else if d == 7 {
        '7'
    } else if d == 8 {
        '8'
    } else {
        '9'
    }
}

/// Decimal digits of `n`, most significant first; empty for zero.
pub open spec fn dec_digits(n: nat) -> Seq<char>
    decreases n,
{
    if n == 0 {
        Seq::empty()
    } else {
        dec_digits(n / 10).push(digit_char((n % 10) as int))
    }
}

/// Decimal notation of `n`.
pub open spec fn dec_str(n: nat) -> Seq<char> {
    if n == 0 {
        seq!['0']
    } else {
        dec_digits(n)
    }
}

/// The amount field's value text: the currency code, a minus sign for
/// negative amounts, the units, and exactly two decimal places.
pub open spec fn spec_format_amount(currency: Seq<char>, cents: int) -> Seq<char> {
    let magnitude = if cents < 0 {
        -cents
    } else {
        cents
    };
    let sign: Seq<char> = if cents < 0 {
        seq!['-']
    } else {
        Seq::empty()
    };
    currency + sign + dec_str((magnitude / 100) as nat) + seq!['.'] + seq![
        digit_char((magnitude % 100) / 10),
        digit_char(magnitude % 10),
    ]
}

/// The patch derived from a document state and a parsed reply: the new
/// title always replaces, the processing tag is removed, and the amount
/// field is upserted when an amount was found, every other field kept.
pub open spec fn spec_build_patch(
    d: DocState,
    title: Seq<char>,
    amount: Option<int>,
    tag_id: usize,
    field_id: usize,
    currency: Seq<char>,
) -> DocState {
    DocState {
        title: title,
        tags: remove_tag(d.tags, tag_id),
        fields: match amount {
            Option::None => d.fields,
            Option::Some(c) => remove_field(d.fields, field_id).push(
                (field_id, spec_format_amount(currency, c)),
            ),
        },
    }
}

/// A one-character string for each decimal digit.
fn digit_str(d: u64) -> (r: &'static str)
    requires
        d < 10,
    ensures
        r@ =~= seq![digit_char(d as int)],
{
    proof {
        reveal_strlit("0");
        reveal_strlit("1");
        reveal_strlit("2");
        reveal_strlit("3");
        reveal_strlit("4");
        reveal_strlit("5");
        reveal_strlit("6");
        reveal_strlit("7");
        reveal_strlit("8");
        reveal_strlit("9");
    }
    match d {
        0 => "0",
        1 => "1",
        2 => "2",
        3 => "3",
        4 => "4",
        5 => "5",
        6 => "6",
        7 => "7",
        8 => "8",
        _ => "9",
    }
}

/// Decimal notation of `n`, least digit built first.
fn u64_to_dec(n: u64) -> (r: String)
    ensures
        r@ == dec_str(n as nat),
{
    broadcast use vstd::seq_lib::group_seq_lib_default;

    if n == 0 {
        proof {
            reveal_strlit("0");
        }
        let z = "0".to_owned();
        proof {
            assert(z@ =~= dec_str(0));
        }
        return z;
    }
    let mut rem = n;
    let mut s = String::new();
    proof {
        assert(dec_digits(n as nat) =~= dec_digits(n as nat) + s@);
    }
    loop
        invariant
            rem <= n,
            dec_digits(n as nat) == dec_digits(rem as nat) + s@,
        ensures
            rem == 0,
            s@ == dec_digits(n as nat),
        decreases rem,
    {
        if rem == 0 {
            proof {
                assert(dec_digits(0) + s@ =~= s@);
            }
            break ;
        }
        let d = rem % 10;
        let ghost old_s = s@;
        let mut t = digit_str(d).to_owned();
        t.append(s.as_str());
        s = t;
        proof {
            assert(dec_digits(rem as nat) == dec_digits((rem / 10) as nat).push(
                digit_char((rem as nat % 10) as int),
            ));
            assert(dec_digits((rem / 10) as nat).push(digit_char((rem as nat % 10) as int)) + old_s
                =~= dec_digits((rem / 10) as nat) + (seq![digit_char((rem as nat % 10) as int)] + old_s));
            assert(s@ == seq![digit_char((rem as nat % 10) as int)] + old_s);
        }
        rem = rem / 10;
    }
    s
}

/// Formats an amount as the value of the amount field.
pub fn format_amount(currency: &str, a: Amount) -> (r: String)
    requires
        a.wf(),
    ensures
        r@ == spec_format_amount(currency@, a.cents as int),
{
    let negative = a.cents < 0;
    let magnitude: u64 = if negative {
        (-(a.cents)) as u64
    } else {
        a.cents as u64
    };
    let units: u64 = magnitude / 100;
    let frac: u64 = magnitude % 100;
    let mut s = currency.to_owned();
    if negative {
        s.append("-");
    }
    let units_text = u64_to_dec(units);
    s.append(units_text.as_str());
    s.append(".");
    s.append(digit_str(frac / 10));
    s.append(digit_str(frac % 10));
    proof {
        reveal_strlit("-");
        reveal_strlit(".");
        assert(s@ =~= spec_format_amount(currency@, a.cents as int));
    }
    s
}

/// Computes the idempotent update patch for one document from its prior
/// state and the parsed reply.
///
/// The new title always replaces the old one, even when equal; the
/// processing tag is removed from the tag set; when an amount was found,
/// every prior entry of the amount field is removed and one formatted entry
/// appended, and when none was found the custom fields are left exactly as
/// they were.
pub fn build_patch(
    doc: &Document,
    out: &StructuredOutput,
    tag_id: usize,
    field_id: usize,
    currency: &str,
) -> (p: UpdatePatch)
    requires
        out.wf(),
    ensures
        p.state() == spec_build_patch(
            doc.state(),
            out.title@,
            amount_view(out.amount),
            tag_id,
            field_id,
            currency@,
        ),
{
    broadcast use vstd::seq_lib::group_seq_lib_default;
    broadcast use Seq::lemma_filter_push;

    let mut tags: Vec<usize> = Vec::new();
    let tag_count = doc.tags.len();
    proof {
        assert(doc.tags@.take(0) =~= Seq::<usize>::empty());
        assert(remove_tag(Seq::<usize>::empty(), tag_id) =~= Seq::<usize>::empty()) by {
            reveal(Seq::filter);
        }
    }
    let mut i: usize = 0;
    while i < tag_count
        invariant
            i <= tag_count,
            tag_count == doc.tags@.len(),
            tags@ == remove_tag(doc.tags@.take(i as int), tag_id),
        decreases tag_count - i,
    {
        broadcast use Seq::lemma_filter_push;

        let t = doc.tags[i];
        proof {
            assert(doc.tags@.take(i + 1) =~= doc.tags@.take(i as int).push(t));
        }
        if t != tag_id {
            tags.push(t);
        }
        i += 1;
    }
    proof {
        assert(doc.tags@.take(tag_count as int) =~= doc.tags@);
    }
    let mut fields: Vec<CustomFieldValue> = Vec::new();
    let field_count = doc.custom_fields.len();
    match &out.amount {
        Option::None => {
            proof {
                assert(doc.custom_fields@.take(0) =~= Seq::<CustomFieldValue>::empty());
            }
            let mut j: usize = 0;
            while j < field_count
                invariant
                    j <= field_count,
                    field_count == doc.custom_fields@.len(),
                    fields@ == doc.custom_fields@.take(j as int),
                decreases field_count - j,
            {
                let entry = CustomFieldValue {
                    field: doc.custom_fields[j].field,
                    value: doc.custom_fields[j].value.clone(),
                };
                proof {
                    assert(entry == doc.custom_fields@[j as int]);
                    assert(doc.custom_fields@.take(j + 1) =~= doc.custom_fields@.take(
                        j as int,
                    ).push(entry));
                }
                fields.push(entry);
                j += 1;
            }
            proof {
                assert(fields@ =~= doc.custom_fields@);
            }
            let p = UpdatePatch { title: out.title.clone(), tags, custom_fields: fields };
            proof {
                assert(p.state() =~= spec_build_patch(
                    doc.state(),
                    out.title@,
                    amount_view(out.amount),
                    tag_id,
                    field_id,
                    currency@,
                ));
            }
            p
        },
        Option::Some(a) => {
            proof {
                assert(doc.custom_fields@.take(0) =~= Seq::<CustomFieldValue>::empty());
                assert(keep_other_fields(Seq::<CustomFieldValue>::empty(), field_id)
                    =~= Seq::<CustomFieldValue>::empty()) by {
                    reveal(Seq::filter);
                }
            }
            let mut j: usize = 0;
            while j < field_count
                invariant
                    j <= field_count,
                    field_count == doc.custom_fields@.len(),
                    fields@ == keep_other_fields(doc.custom_fields@.take(j as int), field_id),
                decreases field_count - j,
            {
                broadcast use Seq::lemma_filter_push;

                let entry = CustomFieldValue {
                    field: doc.custom_fields[j].field,
                    value: doc.custom_fields[j].value.clone(),
                };
                proof {
                    assert(entry == doc.custom_fields@[j as int]);
                    assert(doc.custom_fields@.take(j + 1) =~= doc.custom_fields@.take(
                        j as int,
                    ).push(entry));
                }
                if entry.field != field_id {
                    fields.push(entry);
                }
                j += 1;
            }
            proof {
                assert(doc.custom_fields@.take(field_count as int) =~= doc.custom_fields@);
            }
            let value = format_amount(currency, *a);
            let ghost before_push = fields@;
            fields.push(CustomFieldValue { field: field_id, value });
            let p = UpdatePatch { title: out.title.clone(), tags, custom_fields: fields };
            proof {
                lemma_fields_view_filter(doc.custom_fields@, field_id);
                assert(fields_view(p.custom_fields@) =~= fields_view(before_push).push(
                    (field_id, spec_format_amount(currency@, a.cents as int)),
                ));
                assert(p.state() =~= spec_build_patch(
                    doc.state(),
                    out.title@,
                    amount_view(out.amount),
                    tag_id,
                    field_id,
                    currency@,
                ));
            }
            p
        },
    }
}

/// The custom-field entries that do not belong to the amount field.
pub open spec fn keep_other_fields(s: Seq<CustomFieldValue>, field_id: usize) -> Seq<
    CustomFieldValue,
> {
    s.filter(|c: CustomFieldValue| c.field != field_id)
}

/// Viewing commutes with dropping the amount field's entries.
pub proof fn lemma_fields_view_filter(s: Seq<CustomFieldValue>, field_id: usize)
    ensures
        fields_view(keep_other_fields(s, field_id)) == remove_field(fields_view(s), field_id),
    decreases s.len(),
{
    reveal(Seq::filter);
    broadcast use Seq::lemma_filter_push;

    if s.len() == 0 {
        assert(fields_view(keep_other_fields(s, field_id)) =~= remove_field(
            fields_view(s),
            field_id,
        ));
    } else {
        let d = s.drop_last();
        let e = s.last();
        lemma_fields_view_filter(d, field_id);
        assert(d.push(e) =~= s);
        assert(fields_view(d.push(e)) =~= fields_view(d).push(field_view(e)));
        assert(fields_view(s).drop_last() =~= fields_view(d));
        assert(fields_view(s).last() == field_view(e));
        if e.field != field_id {
            assert(keep_other_fields(s, field_id) == keep_other_fields(d, field_id).push(e));
            assert(fields_view(keep_other_fields(d, field_id).push(e)) =~= fields_view(
                keep_other_fields(d, field_id),
            ).push(field_view(e)));
            assert(remove_field(fields_view(s), field_id) == remove_field(
                fields_view(d),
                field_id,
            ).push(field_view(e)));
        } else {
            assert(keep_other_fields(s, field_id) == keep_other_fields(d, field_id));
            assert(remove_field(fields_view(s), field_id) == remove_field(
                fields_view(d),
                field_id,
            ));
        }
    }
}

/// Removing the processing tag twice removes it once.
pub proof fn lemma_remove_tag_idempotent(tags: Seq<usize>, tag_id: usize)
    ensures
        remove_tag(remove_tag(tags, tag_id), tag_id) == remove_tag(tags, tag_id),
    decreases tags.len(),
{
    reveal(Seq::filter);
    broadcast use Seq::lemma_filter_push;

    if tags.len() == 0 {
        assert(remove_tag(tags, tag_id) =~= tags);
    } else {
        let d = tags.drop_last();
        let e = tags.last();
        lemma_remove_tag_idempotent(d, tag_id);
        assert(d.push(e) =~= tags);
        if e != tag_id {
            assert(remove_tag(tags, tag_id) == remove_tag(d, tag_id).push(e));
            assert(remove_tag(remove_tag(d, tag_id).push(e), tag_id) == remove_tag(
                remove_tag(d, tag_id),
                tag_id,
            ).push(e));
        } else {
            assert(remove_tag(tags, tag_id) == remove_tag(d, tag_id));
        }
    }
}

/// Removing the amount field's entries twice removes them once.
pub proof fn lemma_remove_field_idempotent(fields: Seq<(usize, Seq<char>)>, field_id: usize)
    ensures
        remove_field(remove_field(fields, field_id), field_id) == remove_field(fields, field_id),
    decreases fields.len(),
{
    reveal(Seq::filter);
    broadcast use Seq::lemma_filter_push;

    if fields.len() == 0 {
        assert(remove_field(fields, field_id) =~= fields);
    } else {
        let d = fields.drop_last();
        let e = fields.last();
        lemma_remove_field_idempotent(d, field_id);
        assert(d.push(e) =~= fields);
        if e.0 != field_id {
            assert(remove_field(fields, field_id) == remove_field(d, field_id).push(e));
            assert(remove_field(remove_field(d, field_id).push(e), field_id) == remove_field(
                remove_field(d, field_id),
                field_id,
            ).push(e));
        } else {
            assert(remove_field(fields, field_id) == remove_field(d, field_id));
        }
    }
}

/// Applies a patch: the three patched parts are replaced wholesale, the
/// identifier and the stored text stay.
pub fn apply_patch(doc: &Document, p: &UpdatePatch) -> (r: Document)
    ensures
        r.id == doc.id,
        r.content@ == doc.content@,
        r.state() == p.state(),
{
    let mut tags: Vec<usize> = Vec::new();
    let mut i: usize = 0;
    let tag_count = p.tags.len();
    while i < tag_count
        invariant
            i <= tag_count,
            tag_count == p.tags@.len(),
            tags@ == p.tags@.take(i as int),
        decreases tag_count - i,
    {
        proof {
            assert(p.tags@.take(i + 1) =~= p.tags@.take(i as int).push(p.tags@[i as int]));
        }
        tags.push(p.tags[i]);
        i += 1;
    }
    let mut fields: Vec<CustomFieldValue> = Vec::new();
    let mut j: usize = 0;
    let field_count = p.custom_fields.len();
    while j < field_count
        invariant
            j <= field_count,
            field_count == p.custom_fields@.len(),
            fields@ == p.custom_fields@.take(j as int),
        decreases field_count - j,
    {
        let entry = CustomFieldValue {
            field: p.custom_fields[j].field,
            value: p.custom_fields[j].value.clone(),
        };
        proof {
            assert(entry == p.custom_fields@[j as int]);
            assert(p.custom_fields@.take(j + 1) =~= p.custom_fields@.take(j as int).push(entry));
        }
        fields.push(entry);
        j += 1;
    }
    proof {
        assert(tags@ =~= p.tags@);
        assert(fields@ =~= p.custom_fields@);
    }
    let r = Document {
        id: doc.id,
        title: p.title.clone(),
        content: doc.content.clone(),
        tags,
        custom_fields: fields,
    };
    proof {
        assert(r.state() =~= p.state());
    }
    r
}

/// Patch construction is idempotent: a document that already reflects a
/// patch yields that same patch when processed again with the same reply —
/// the processing tag is already absent and the amount field already
/// replaced, so repeated runs converge.
pub proof fn lemma_patch_idempotent(
    d: DocState,
    title: Seq<char>,
    amount: Option<int>,
    tag_id: usize,
    field_id: usize,
    currency: Seq<char>,
)
    ensures
        ({
            let p = spec_build_patch(d, title, amount, tag_id, field_id, currency);
            spec_build_patch(p, title, amount, tag_id, field_id, currency) == p
        }),
{
    broadcast use Seq::lemma_filter_push;

    let p = spec_build_patch(d, title, amount, tag_id, field_id, currency);
    lemma_remove_tag_idempotent(d.tags, tag_id);
    match amount {
        Option::None => {
            assert(spec_build_patch(p, title, amount, tag_id, field_id, currency) =~= p);
        },
        Option::Some(c) => {
            let kept = remove_field(d.fields, field_id);
            let entry = (field_id, spec_format_amount(currency, c));
            lemma_remove_field_idempotent(d.fields, field_id);
            assert(remove_field(kept.push(entry), field_id) == remove_field(kept, field_id));
            assert(spec_build_patch(p, title, amount, tag_id, field_id, currency) =~= p);
        },
    }
}

/// No custom field other than the amount field is ever dropped: every entry
/// of the document under another field id is still present in the patch.
pub proof fn lemma_patch_keeps_other_fields(
    d: DocState,
    title: Seq<char>,
    amount: Option<int>,
    tag_id: usize,
    field_id: usize,
    currency: Seq<char>,
)
    ensures
        forall|i: int|
            0 <= i < d.fields.len() && (#[trigger] d.fields[i]).0 != field_id ==> spec_build_patch(
                d,
                title,
                amount,
                tag_id,
                field_id,
                currency,
            ).fields.contains(d.fields[i]),
{
    broadcast use vstd::seq_lib::group_filter_ensures;

    let p = spec_build_patch(d, title, amount, tag_id, field_id, currency);
    assert forall|i: int|
        0 <= i < d.fields.len() && (#[trigger] d.fields[i]).0 != field_id implies p.fields.contains(
        d.fields[i],
    ) by {
        match amount {
            Option::None => {
                assert(p.fields == d.fields);
                assert(p.fields[i] == d.fields[i]);
            },
            Option::Some(c) => {
                let kept = remove_field(d.fields, field_id);
                assert(kept.contains(d.fields[i]));
                let w = choose|k: int| 0 <= k < kept.len() && kept[k] == d.fields[i];
                assert(kept.push((field_id, spec_format_amount(currency, c)))[w] == d.fields[i]);
            },
        }
    }
}

} // verus!
