use vstd::prelude::*;
use vstd::multiset::Multiset;

use crate::chat::{GenerationSettings, Models, Response};
use crate::error::Error;
use crate::output::{amount_view, parse_output, spec_output_amount, spec_output_title,
    spec_output_valid};
use crate::patch::{Document, UpdatePatch, build_patch, spec_build_patch};
use crate::store::{IdName, resolve_id, spec_lookup};

verus! {

/// The tag that selects documents for processing; the patch that marks a
/// document as done removes it.
pub const TAG: &'static str = "llm-process";

/// The name of the custom field that receives the extracted amount.
pub const AMOUNT_FIELD: &'static str = "Amount";

/// Upper bound on the model's answer length, in tokens.
pub const N_PREDICT: usize = 100;

/// Default ceiling on concurrently in-flight document pipelines.
pub const DEFAULT_CONCURRENCY: usize = 10;

/// The immutable configuration of one run, resolved once at startup and
/// never read from ambient state.
#[derive(Debug, Clone, PartialEq, Eq)]
pub struct RunConfig {
    /// The model the inference server offered first.
    pub model: String,
    /// Currency code substituted into the instruction template and prefixed
    /// to the formatted amount.
    pub currency: String,
    /// Apply mode writes the patch back; a dry run only computes it.
    pub apply: bool,
    /// Resolved id of the processing tag.
    pub tag_id: usize,
    /// Resolved id of the amount custom field.
    pub field_id: usize,
    /// Context window of the selected model, in tokens.
    pub n_ctx: usize,
    /// Ceiling on concurrently in-flight document pipelines.
    pub limit: usize,
}

/// Builds the run configuration from the startup lookups: the processing
/// tag's id, the amount field's id, and the first offered model. Fails with
/// `NotFoundError` exactly when one of the three is missing; such a failure
/// is fatal and stops the run before any document is touched.
pub fn build_run_config(
    tags: &Vec<IdName>,
    fields: &Vec<IdName>,
    models: &Models,
    settings: GenerationSettings,
    tag_name: &str,
    field_name: &str,
    currency: &str,
    apply: bool,
    limit: usize,
) -> (r: Result<RunConfig, Error>)
    requires
        limit >= 1,
    ensures
        r is Ok <==> (spec_lookup(tags@, tag_name@) is Some && spec_lookup(fields@, field_name@)
            is Some && models.data@.len() > 0),
        r is Ok ==> {
            let c = r->Ok_0;
            &&& Some(c.tag_id) == spec_lookup(tags@, tag_name@)
            &&& Some(c.field_id) == spec_lookup(fields@, field_name@)
            &&& c.model@ == models.data@[0].id@
            &&& c.currency@ == currency@
            &&& c.apply == apply
            &&& c.n_ctx == settings.n_ctx
            &&& c.limit == limit
        },
        r is Err ==> r->Err_0 is NotFoundError,
{
    let tag_id = match resolve_id(tags, tag_name) {
        Ok(id) => id,
        Err(e) => { return Err(e); },
    };
    let field_id = match resolve_id(fields, field_name) {
        Ok(id) => id,
        Err(e) => { return Err(e); },
    };
    let model = match models.first_id() {
        Ok(m) => m.clone(),
        Err(e) => { return Err(e); },
    };
    Ok(RunConfig {
        model,
        currency: currency.to_owned(),
        apply,
        tag_id,
        field_id,
        n_ctx: settings.n_ctx,
        limit,
    })
}

/// The stage a document's pipeline has reached; stages within one document
/// are strictly sequential, and `Failed` can follow any of them.
#[derive(Debug, Clone, Copy, PartialEq, Eq, Structural)]
pub enum Stage {
    Fetched,
    Prompted,
    Completed,
    Parsed,
    Patched,
    Done,
    Failed,
}

/// Decides one document's outcome from its fetched state and the raw model
/// response: validates the reply and computes the update patch. Pure, so a
/// failure here can never touch any other document's pipeline.
pub fn handle_completion(doc: &Document, response: &Response, cfg: &RunConfig) -> (r: Result<
    UpdatePatch,
    Error,
>)
    ensures
        r is Ok <==> (response.choices@.len() > 0 && spec_output_valid(
            response.choices@[0].message.content@,
        )),
        r is Ok ==> ({
            let reply = response.choices@[0].message.content@;
            r->Ok_0.state() == spec_build_patch(
                doc.state(),
                spec_output_title(reply),
                spec_output_amount(reply),
                cfg.tag_id,
                cfg.field_id,
                cfg.currency@,
            )
        }),
        r is Err ==> (r->Err_0 is ServiceError <==> response.choices@.len() == 0),
        r is Err ==> (r->Err_0 is MalformedOutput <==> (response.choices@.len() > 0
            && !spec_output_valid(response.choices@[0].message.content@))),
        r is Err ==> r->Err_0.is_per_document(),
{
    let text = match response.content() {
        Ok(t) => t,
        Err(e) => { return Err(e); },
    };
    let out = match parse_output(text.as_str()) {
        Ok(o) => o,
        Err(e) => { return Err(e); },
    };
    Ok(build_patch(doc, &out, cfg.tag_id, cfg.field_id, cfg.currency.as_str()))
}

/// The ids of a history of recorded outcomes.
pub open spec fn outcome_ids(h: Seq<(usize, bool)>) -> Seq<usize> {
    h.map_values(|p: (usize, bool)| p.0)
}

/// The ids of the failed outcomes of a history, in completion order.
pub open spec fn failed_of(h: Seq<(usize, bool)>) -> Seq<usize> {
    outcome_ids(h.filter(|p: (usize, bool)| !p.1))
}

/// Run bookkeeping: which documents are still to start, how many pipelines
/// are in flight against the concurrency ceiling, and which ids have
/// failed. The I/O of each pipeline happens outside; this state decides
/// when a pipeline may start and records every outcome.
pub struct Orchestrator {
    /// All submitted document ids, in processing order.
    pub ids: Vec<usize>,
    /// How many of `ids` have been handed out.
    pub next: usize,
    /// Pipelines currently between start and finish.
    pub active: usize,
    /// Outcomes recorded so far.
    pub done: usize,
    /// Ids whose pipeline failed, in completion order.
    pub failed: Vec<usize>,
    /// The concurrency ceiling.
    pub limit: usize,
    /// History of recorded outcomes: (id, succeeded).
    pub history: Ghost<Seq<(usize, bool)>>,
    /// Ids handed out and not yet finished.
    pub inflight: Ghost<Multiset<usize>>,
}

impl Orchestrator {
    /// The run invariant. In particular: never more than `limit` pipelines
    /// in flight, every handed-out id is in flight or has exactly one
    /// recorded outcome, and the failure set is exactly the failed part of
    /// the history.
    pub open spec fn wf(&self) -> bool {
        &&& 1 <= self.limit
        &&& self.active <= self.limit
        &&& self.next <= self.ids@.len()
        &&& self.done == self.history@.len()
        &&& self.active == self.inflight@.len()
        &&& self.done + self.active == self.next
        &&& self.ids@.take(self.next as int).to_multiset() == self.inflight@.add(
            outcome_ids(self.history@).to_multiset(),
        )
        &&& self.failed@ == failed_of(self.history@)
    }

    /// A fresh run over `ids` with concurrency ceiling `limit`.
    pub fn new(ids: Vec<usize>, limit: usize) -> (r: Orchestrator)
        requires
            limit >= 1,
        ensures
            r.wf(),
            r.ids@ == ids@,
            r.limit == limit,
            r.next == 0,
            r.active == 0,
            r.history@ == Seq::<(usize, bool)>::empty(),
            r.failed@ == Seq::<usize>::empty(),
    {
        broadcast use vstd::seq_lib::group_to_multiset_ensures;

        let r = Orchestrator {
            ids,
            next: 0,
            active: 0,
            done: 0,
            failed: Vec::new(),
            limit,
            history: Ghost(Seq::empty()),
            inflight: Ghost(Multiset::empty()),
        };
        proof {
            assert(r.ids@.take(0) =~= Seq::<usize>::empty());
            assert(Seq::<usize>::empty().to_multiset() =~= Multiset::<usize>::empty());
            assert(outcome_ids(Seq::<(usize, bool)>::empty()) =~= Seq::<usize>::empty());
            assert(Multiset::<usize>::empty().add(Multiset::<usize>::empty())
                =~= Multiset::<usize>::empty());
            assert(failed_of(Seq::<(usize, bool)>::empty()) =~= Seq::<usize>::empty()) by {
                reveal(Seq::filter);
                assert(Seq::<(usize, bool)>::empty().filter(|p: (usize, bool)| !p.1)
                    =~= Seq::<(usize, bool)>::empty());
            }
        }
        r
    }

    /// Hands out the next document id when a slot is free and ids remain;
    /// never starts a pipeline at or above the ceiling.
    pub fn try_start(&mut self) -> (r: Option<usize>)
        requires
            old(self).wf(),
        ensures
            final(self).wf(),
            final(self).ids@ == old(self).ids@,
            final(self).limit == old(self).limit,
            final(self).history@ == old(self).history@,
            final(self).failed@ == old(self).failed@,
            final(self).done == old(self).done,
            r is Some <==> (old(self).active < old(self).limit && old(self).next < old(
                self,
            ).ids@.len()),
            r is Some ==> {
                &&& r->0 == old(self).ids@[old(self).next as int]
                &&& final(self).next == old(self).next + 1
                &&& final(self).active == old(self).active + 1
                &&& final(self).inflight@ == old(self).inflight@.insert(r->0)
            },
            r is None ==> *final(self) == *old(self),
    {
        broadcast use vstd::seq_lib::group_to_multiset_ensures;

        if self.active < self.limit && self.next < self.ids.len() {
            let id = self.ids[self.next];
            proof {
                assert(self.ids@.take(self.next + 1) =~= self.ids@.take(
                    self.next as int,
                ).push(id));
                assert(self.ids@.take(self.next as int).push(id).to_multiset()
                    == self.ids@.take(self.next as int).to_multiset().insert(id));
                assert(self.inflight@.add(outcome_ids(self.history@).to_multiset()).insert(id)
                    =~= self.inflight@.insert(id).add(outcome_ids(self.history@).to_multiset()));
            }
            self.next = self.next + 1;
            self.active = self.active + 1;
            self.inflight = Ghost(self.inflight@.insert(id));
            Some(id)
        } else {
            None
        }
    }

    /// Records the outcome of one in-flight pipeline: a failed id joins the
    /// failure set, a successful one only advances the progress counter.
    /// One pipeline's failure changes nothing else of the run's state.
    pub fn finish(&mut self, id: usize, ok: bool)
        requires
            old(self).wf(),
            old(self).inflight@.count(id) >= 1,
        ensures
            final(self).wf(),
            final(self).ids@ == old(self).ids@,
            final(self).limit == old(self).limit,
            final(self).next == old(self).next,
            final(self).active == old(self).active - 1,
            final(self).done == old(self).done + 1,
            final(self).history@ == old(self).history@.push((id, ok)),
            final(self).inflight@ == old(self).inflight@.remove(id),
            final(self).failed@ == if ok {
                old(self).failed@
            } else {
                old(self).failed@.push(id)
            },
    {
        broadcast use vstd::seq_lib::group_to_multiset_ensures;
        broadcast use Seq::lemma_filter_push;

        proof {
            assert(self.inflight@.len() >= 1) by {
                assert(self.inflight@.count(id) <= self.inflight@.len());
            }
        }
        if !ok {
            self.failed.push(id);
        }
        self.active = self.active - 1;
        self.done = self.done + 1;
        proof {
            let h = self.history@;
            let h2 = h.push((id, ok));
            assert(outcome_ids(h2) =~= outcome_ids(h).push(id));
            assert(h2.filter(|p: (usize, bool)| !p.1) == if !ok {
                h.filter(|p: (usize, bool)| !p.1).push((id, ok))
            } else {
                h.filter(|p: (usize, bool)| !p.1)
            });
            if !ok {
                assert(failed_of(h2) =~= failed_of(h).push(id));
            } else {
                assert(failed_of(h2) =~= failed_of(h));
            }
            assert(self.inflight@.remove(id).add(outcome_ids(h2).to_multiset()) =~= self.inflight@
                .add(outcome_ids(h).to_multiset()));
        }
        self.history = Ghost(self.history@.push((id, ok)));
        self.inflight = Ghost(self.inflight@.remove(id));
    }

    /// Whether every submitted id has reached an outcome.
    pub fn is_complete(&self) -> (r: bool)
        ensures
            r == (self.next == self.ids@.len() && self.active == 0),
    {
        self.next == self.ids.len() && self.active == 0
    }

    /// Outcomes recorded so far, for a progress indicator.
    pub fn processed(&self) -> (r: usize)
        ensures
            r == self.done,
    {
        self.done
    }

    /// Total number of submitted ids.
    pub fn total(&self) -> (r: usize)
        ensures
            r == self.ids@.len(),
    {
        self.ids.len()
    }

    /// The ids whose pipeline failed, in completion order.
    pub fn failed_ids(&self) -> (r: &Vec<usize>)
        ensures
            r@ == self.failed@,
    {
        &self.failed
    }
}

/// A completed run accounts for every submitted id exactly once: the
/// recorded outcomes' ids are the submitted ids (as a multiset), and the
/// failure set is exactly the ids of the failed outcomes. With K failures
/// among N submitted ids, the failure set holds those K and the other N - K
/// outcomes succeeded.
pub proof fn lemma_complete_run_accounts_for_all(o: Orchestrator)
    requires
        o.wf(),
        o.next == o.ids@.len(),
        o.active == 0,
    ensures
        outcome_ids(o.history@).to_multiset() == o.ids@.to_multiset(),
        o.history@.len() == o.ids@.len(),
        o.failed@ == failed_of(o.history@),
{
    broadcast use vstd::seq_lib::group_to_multiset_ensures;

    assert(o.ids@.take(o.next as int) =~= o.ids@);
    assert(o.inflight@ =~= Multiset::<usize>::empty()) by {
        if o.inflight@.len() > 0 {
            let x = o.inflight@.choose();
            assert(o.inflight@.count(x) > 0);
        }
    }
    assert(Multiset::<usize>::empty().add(outcome_ids(o.history@).to_multiset())
        =~= outcome_ids(o.history@).to_multiset());
    assert(outcome_ids(o.history@).len() == o.history@.len());
}

/// No id fails more often than it finished: the failed ids are a
/// sub-multiset of the recorded outcomes' ids.
pub proof fn lemma_failed_within_outcomes(h: Seq<(usize, bool)>)
    ensures
        forall|x: usize|
            failed_of(h).to_multiset().count(x) <= outcome_ids(h).to_multiset().count(x),
    decreases h.len(),
{
    broadcast use vstd::seq_lib::group_to_multiset_ensures;
    broadcast use Seq::lemma_filter_push;

    if h.len() == 0 {
        reveal(Seq::filter);
        assert(h.filter(|p: (usize, bool)| !p.1) =~= h);
        assert(failed_of(h) =~= Seq::<usize>::empty());
        assert(outcome_ids(h) =~= Seq::<usize>::empty());
        assert forall|x: usize| failed_of(h).to_multiset().count(x) <= outcome_ids(
            h,
        ).to_multiset().count(x) by {
            if failed_of(h).to_multiset().count(x) > 0 {
                assert(failed_of(h).contains(x));
            }
            if outcome_ids(h).to_multiset().count(x) > 0 {
                assert(outcome_ids(h).contains(x));
            }
        }
    } else {
        let d = h.drop_last();
        let e = h.last();
        lemma_failed_within_outcomes(d);
        assert(d.push(e) =~= h);
        assert(outcome_ids(h) =~= outcome_ids(d).push(e.0));
        if !e.1 {
            assert(failed_of(h) =~= failed_of(d).push(e.0));
        } else {
            assert(failed_of(h) =~= failed_of(d));
        }
    }
}

/// With pairwise-distinct submitted ids, a completed run's failure set
/// holds each failed id exactly once.
pub proof fn lemma_failed_ids_unique(o: Orchestrator)
    requires
        o.wf(),
        o.next == o.ids@.len(),
        o.active == 0,
        o.ids@.no_duplicates(),
    ensures
        o.failed@.no_duplicates(),
{
    broadcast use vstd::seq_lib::group_to_multiset_ensures;

    lemma_complete_run_accounts_for_all(o);
    lemma_failed_within_outcomes(o.history@);
    o.ids@.lemma_multiset_has_no_duplicates();
    assert forall|x: usize| o.failed@.to_multiset().contains(x) implies o.failed@
        .to_multiset().count(x) == 1 by {
        assert(o.failed@.to_multiset().count(x) >= 1);
        assert(outcome_ids(o.history@).to_multiset().count(x) >= 1);
        assert(o.ids@.to_multiset().count(x) >= 1);
        assert(o.ids@.to_multiset().contains(x));
    }
    o.failed@.lemma_multiset_has_no_duplicates_conv();
}

/// The concurrency ceiling is respected: a well-formed run never has more
/// than `limit` pipelines in flight, and a start is granted only below the
/// ceiling.
pub proof fn lemma_concurrency_ceiling(o: Orchestrator)
    requires
        o.wf(),
    ensures
        o.active <= o.limit,
{
}

} // verus!
