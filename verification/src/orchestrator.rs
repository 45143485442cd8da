//! The decisions of one build pass.
//!
//! A build discovers the units of the source tree and signs each, decides
//! from the previous cache which of them to render, renders those, gathers
//! what each unit came to, and commits a new cache. Reading, rendering and
//! writing are done by the caller; what is decided in between is done here:
//! [`plan`] before the units are rendered, [`collect`] and [`commit`] after.

use vstd::prelude::*;
use crate::cache::{
    distinct_paths, empty_cache, lemma_signatures_domain, lemma_signatures_value, signatures, stale,
    unit_views, BuildCache, CacheView, UnitSignature, UnitView,
};
use vstd::relations::{sorted_by, total_ordering};
use crate::order::{
    comes_before, is_arranged, key_views, lemma_insert_by_key_inserts, lemma_lex_antisymmetric,
    lemma_lex_reflexive, lemma_lex_total, lemma_lex_transitive, lemma_sorted_order,
    lemma_sorted_prefix, lex_le, sort_positions, sorted_order, sorted_prefix,
};
use crate::taxonomy::{
    lemma_summary_key_injective, summary_key, summary_keys, summary_views, PageSummary,
    SummaryView,
};

verus! {

/// What a build does with one unit.
#[derive(Debug, Clone, Copy, PartialEq, Eq, Structural)]
pub enum UnitAction {
    /// Render the unit and replace its output file.
    Render,
    /// Leave the unit's output file as it is.
    Skip,
}

/// The action for one unit: a stale unit is rendered, a fresh one skipped.
pub open spec fn action_for(cache: CacheView, templates_hash: Seq<char>, unit: UnitView) -> UnitAction {
    if stale(cache, templates_hash, unit.rel, unit.hash) {
        UnitAction::Render
    } else {
        UnitAction::Skip
    }
}

/// The action for each unit of a pass, in the order of the units.
pub open spec fn planned(cache: CacheView, templates_hash: Seq<char>, units: Seq<UnitView>) -> Seq<
    UnitAction,
> {
    Seq::new(units.len(), |i: int| action_for(cache, templates_hash, units[i]))
}

/// The cache that a pass over `units` commits: made of these units alone.
pub open spec fn committed(templates_hash: Seq<char>, units: Seq<UnitView>) -> CacheView {
    CacheView { templates_hash, pages: signatures(units) }
}

/// Decides what to do with the unit at `rel` whose signature is `hash`.
pub fn decide(cache: &BuildCache, templates_changed: bool, rel: &str, hash: &str) -> (action:
    UnitAction)
    ensures
        action == (if templates_changed || !cache@.pages.contains_key(rel@) || cache@.pages[rel@]
            != hash@ {
            UnitAction::Render
        } else {
            UnitAction::Skip
        }),
{
    if cache.is_stale(templates_changed, rel, hash) {
        UnitAction::Render
    } else {
        UnitAction::Skip
    }
}

/// Decides for every unit of a pass whether it is rendered: exactly the
/// units that are stale against `cache` and the current template signature.
pub fn plan(cache: &BuildCache, templates_hash: &str, units: &Vec<UnitSignature>) -> (actions: Vec<
    UnitAction,
>)
    ensures
        actions@ == planned(cache@, templates_hash@, unit_views(units@)),
{
    let changed = cache.templates_changed(templates_hash);
    let mut actions: Vec<UnitAction> = Vec::new();
    let mut i: usize = 0;
    while i < units.len()
        invariant
            i <= units.len(),
            changed == (cache@.templates_hash != templates_hash@),
            actions@.len() == i,
            forall|j: int|
                0 <= j < i ==> actions@[j] == action_for(
                    cache@,
                    templates_hash@,
                    #[trigger] units@[j]@,
                ),
        decreases units.len() - i,
    {
        let u = &units[i];
        actions.push(decide(cache, changed, u.rel.as_str(), u.hash.as_str()));
        i += 1;
    }
    assert(actions@ =~= planned(cache@, templates_hash@, unit_views(units@)));
    actions
}

/// The cache to persist after a pass: the current template signature and
/// the signatures of the units of this pass, and of no other unit.
pub fn commit(templates_hash: &str, units: &Vec<UnitSignature>) -> (cache: BuildCache)
    ensures
        cache@ == committed(templates_hash@, unit_views(units@)),
{
    let ghost uv = unit_views(units@);
    let mut cache = BuildCache::new();
    cache.set_templates_hash(templates_hash.to_owned());
    let mut i: usize = 0;
    assert(uv.take(0) =~= Seq::empty());
    while i < units.len()
        invariant
            i <= units.len(),
            uv == unit_views(units@),
            cache@.templates_hash == templates_hash@,
            cache@.pages == signatures(uv.take(i as int)),
        decreases units.len() - i,
    {
        let u = &units[i];
        cache.insert(u.rel.clone(), u.hash.clone());
        proof {
            let next = uv.take(i + 1);
            assert(next.drop_last() =~= uv.take(i as int));
            assert(next.last() == units@[i as int]@);
        }
        i += 1;
    }
    assert(uv.take(units.len() as int) =~= uv);
    cache
}

/// Full replacement. The committed cache holds a signature for each path of
/// this pass and for no other: what an earlier cache held of units that are
/// gone does not survive.
pub proof fn law_commit_holds_this_pass_only(
    templates_hash: Seq<char>,
    units: Seq<UnitView>,
    path: Seq<char>,
)
    ensures
        committed(templates_hash, units).pages.contains_key(path) <==> exists|i: int|
            0 <= i < units.len() && (#[trigger] units[i]).rel == path,
{
    lemma_signatures_domain(units, path);
}

/// Idempotence. A pass over the tree that the cache was committed from, with
/// the template set unchanged, skips every unit: no output file is written
/// again.
pub proof fn law_unchanged_tree_is_skipped(templates_hash: Seq<char>, units: Seq<UnitView>)
    requires
        distinct_paths(units),
    ensures
        forall|i: int|
            0 <= i < units.len() ==> #[trigger] planned(
                committed(templates_hash, units),
                templates_hash,
                units,
            )[i] == UnitAction::Skip,
{
    assert forall|i: int| 0 <= i < units.len() implies #[trigger] planned(
        committed(templates_hash, units),
        templates_hash,
        units,
    )[i] == UnitAction::Skip by {
        lemma_signatures_value(units, i);
    }
}

/// `units` with the signature of unit `i` replaced by `hash`.
pub open spec fn with_signature(units: Seq<UnitView>, i: int, hash: Seq<char>) -> Seq<UnitView> {
    units.update(i, UnitView { rel: units[i].rel, hash })
}

/// Change isolation. After the content of one unit changed, and nothing
/// else, the next pass renders that unit and skips every other.
pub proof fn law_change_is_isolated(
    templates_hash: Seq<char>,
    units: Seq<UnitView>,
    changed: int,
    hash: Seq<char>,
)
    requires
        distinct_paths(units),
        0 <= changed < units.len(),
        hash != units[changed].hash,
    ensures
        forall|i: int|
            0 <= i < units.len() ==> #[trigger] planned(
                committed(templates_hash, units),
                templates_hash,
                with_signature(units, changed, hash),
            )[i] == (if i == changed {
                UnitAction::Render
            } else {
                UnitAction::Skip
            }),
{
    let after = with_signature(units, changed, hash);
    assert forall|i: int| 0 <= i < units.len() implies #[trigger] planned(
        committed(templates_hash, units),
        templates_hash,
        after,
    )[i] == (if i == changed {
        UnitAction::Render
    } else {
        UnitAction::Skip
    }) by {
        lemma_signatures_value(units, i);
    }
}

/// Staleness is exact. Between two passes over the same paths, with the
/// template set unchanged, the second pass renders the units whose content
/// changed, and no other.
pub proof fn law_changed_units_are_rendered(
    templates_hash: Seq<char>,
    before: Seq<UnitView>,
    after: Seq<UnitView>,
)
    requires
        distinct_paths(before),
        before.len() == after.len(),
        forall|i: int| 0 <= i < before.len() ==> (#[trigger] before[i]).rel == after[i].rel,
    ensures
        forall|i: int|
            0 <= i < after.len() ==> #[trigger] planned(
                committed(templates_hash, before),
                templates_hash,
                after,
            )[i] == (if after[i].hash != before[i].hash {
                UnitAction::Render
            } else {
                UnitAction::Skip
            }),
{
    assert forall|i: int| 0 <= i < after.len() implies #[trigger] planned(
        committed(templates_hash, before),
        templates_hash,
        after,
    )[i] == (if after[i].hash != before[i].hash {
        UnitAction::Render
    } else {
        UnitAction::Skip
    }) by {
        lemma_signatures_value(before, i);
        assert(before[i].rel == after[i].rel);
    }
}

/// Template invalidation. Against a cache committed under another template
/// signature, every unit is rendered, whatever its own signature.
pub proof fn law_template_change_renders_all(
    cache: CacheView,
    templates_hash: Seq<char>,
    units: Seq<UnitView>,
)
    requires
        cache.templates_hash != templates_hash,
    ensures
        forall|i: int|
            0 <= i < units.len() ==> #[trigger] planned(cache, templates_hash, units)[i]
                == UnitAction::Render,
{
}

/// Cache resilience. Against the empty cache, which stands for a missing or
/// unreadable cache file, every unit is rendered.
pub proof fn law_empty_cache_renders_all(templates_hash: Seq<char>, units: Seq<UnitView>)
    ensures
        forall|i: int|
            0 <= i < units.len() ==> #[trigger] planned(empty_cache(), templates_hash, units)[i]
                == UnitAction::Render,
{
}

/// The step of a pass at which a unit failed.
#[derive(Debug, Clone, Copy, PartialEq, Eq, Structural)]
pub enum Stage {
    Hash,
    Load,
    Render,
    Write,
}

/// A unit that failed, and how. It fails alone: the pass goes on.
#[derive(Debug, PartialEq, Eq)]
pub struct UnitError {
    pub path: String,
    pub stage: Stage,
    pub message: String,
}

/// The content of a [`UnitError`].
pub struct ErrorView {
    pub path: Seq<char>,
    pub stage: Stage,
    pub message: Seq<char>,
}

impl View for UnitError {
    type V = ErrorView;

    open spec fn view(&self) -> ErrorView {
        ErrorView { path: self.path@, stage: self.stage, message: self.message@ }
    }
}

impl Clone for UnitError {
    fn clone(&self) -> (copy: UnitError)
        ensures
            copy@ == self@,
    {
        UnitError { path: self.path.clone(), stage: self.stage, message: self.message.clone() }
    }
}

/// The views of a list of errors.
pub open spec fn error_views(list: Seq<UnitError>) -> Seq<ErrorView> {
    Seq::new(list.len(), |i: int| list[i]@)
}

/// What one unit came to in a pass.
#[derive(Debug, PartialEq, Eq)]
pub enum UnitOutcome {
    /// The unit was rendered and its output file replaced.
    Built(PageSummary),
    /// The unit was fresh; its output file was not touched.
    Skipped(PageSummary),
    /// The unit failed and takes no part in the aggregate pages.
    Failed(UnitError),
}

/// The content of a [`UnitOutcome`].
pub enum OutcomeView {
    Built(SummaryView),
    Skipped(SummaryView),
    Failed(ErrorView),
}

impl View for UnitOutcome {
    type V = OutcomeView;

    open spec fn view(&self) -> OutcomeView {
        match self {
            UnitOutcome::Built(s) => OutcomeView::Built(s@),
            UnitOutcome::Skipped(s) => OutcomeView::Skipped(s@),
            UnitOutcome::Failed(e) => OutcomeView::Failed(e@),
        }
    }
}

/// The views of a list of outcomes.
pub open spec fn outcome_views(list: Seq<UnitOutcome>) -> Seq<OutcomeView> {
    Seq::new(list.len(), |i: int| list[i]@)
}

/// What a pass reports: how many units it rendered, how many it skipped, and
/// the units that failed.
#[derive(Debug, PartialEq, Eq)]
pub struct BuildReport {
    pub built: usize,
    pub skipped: usize,
    pub errors: Vec<UnitError>,
}

/// What a unit came to, given what was decided for it and how the work on
/// it ended: a unit that ended well was built if it was to be rendered and
/// skipped if not; a unit that ended in an error failed.
pub open spec fn outcome_for(action: UnitAction, result: Result<SummaryView, ErrorView>) -> OutcomeView {
    match result {
        Ok(summary) => match action {
            UnitAction::Render => OutcomeView::Built(summary),
            UnitAction::Skip => OutcomeView::Skipped(summary),
        },
        Err(error) => OutcomeView::Failed(error),
    }
}

/// Computes [`outcome_for`].
pub fn outcome_of(action: UnitAction, result: Result<PageSummary, UnitError>) -> (outcome: UnitOutcome)
    ensures
        outcome@ == outcome_for(
            action,
            match result {
                Ok(summary) => Ok(summary@),
                Err(error) => Err(error@),
            },
        ),
{
    match result {
        Ok(summary) => match action {
            UnitAction::Render => UnitOutcome::Built(summary),
            UnitAction::Skip => UnitOutcome::Skipped(summary),
        },
        Err(error) => UnitOutcome::Failed(error),
    }
}

/// The number of units that a plan renders.
pub open spec fn render_count(actions: Seq<UnitAction>) -> nat
    decreases actions.len(),
{
    if actions.len() == 0 {
        0
    } else {
        render_count(actions.drop_last()) + (if actions.last() == UnitAction::Render {
            1nat
        } else {
            0nat
        })
    }
}

/// The outcomes of a pass in which unit `i` was handled as `actions[i]` says
/// and ended as `results[i]`.
pub open spec fn outcomes_for(
    actions: Seq<UnitAction>,
    results: Seq<Result<SummaryView, ErrorView>>,
) -> Seq<OutcomeView> {
    Seq::new(actions.len(), |i: int| outcome_for(actions[i], results[i]))
}

/// The report follows the plan. A pass builds no more units than its plan
/// renders and skips no more than its plan skips; where no unit fails, it
/// builds exactly the units that the plan renders and skips all others.
pub proof fn law_report_follows_plan(
    actions: Seq<UnitAction>,
    results: Seq<Result<SummaryView, ErrorView>>,
)
    requires
        actions.len() == results.len(),
    ensures
        built_count(outcomes_for(actions, results)) <= render_count(actions),
        skipped_count(outcomes_for(actions, results)) <= actions.len() - render_count(actions),
        (forall|i: int| 0 <= i < results.len() ==> (#[trigger] results[i]) is Ok) ==> {
            &&& built_count(outcomes_for(actions, results)) == render_count(actions)
            &&& skipped_count(outcomes_for(actions, results)) == actions.len() - render_count(
                actions,
            )
            &&& failures(outcomes_for(actions, results)).len() == 0
        },
    decreases actions.len(),
{
    if actions.len() > 0 {
        let a = actions.drop_last();
        let r = results.drop_last();
        law_report_follows_plan(a, r);
        assert(outcomes_for(actions, results).drop_last() =~= outcomes_for(a, r));
        if forall|i: int| 0 <= i < results.len() ==> (#[trigger] results[i]) is Ok {
            assert forall|i: int| 0 <= i < r.len() implies (#[trigger] r[i]) is Ok by {
                assert(results[i] is Ok);
            }
            assert(results[results.len() - 1] is Ok);
        }
    }
}

/// A pass over an unchanged tree in which no unit fails builds nothing and
/// skips every unit.
pub proof fn law_unchanged_tree_builds_nothing(
    templates_hash: Seq<char>,
    units: Seq<UnitView>,
    results: Seq<Result<SummaryView, ErrorView>>,
)
    requires
        distinct_paths(units),
        results.len() == units.len(),
        forall|i: int| 0 <= i < results.len() ==> (#[trigger] results[i]) is Ok,
    ensures
        built_count(
            outcomes_for(planned(committed(templates_hash, units), templates_hash, units), results),
        ) == 0,
        skipped_count(
            outcomes_for(planned(committed(templates_hash, units), templates_hash, units), results),
        ) == units.len(),
{
    let actions = planned(committed(templates_hash, units), templates_hash, units);
    law_unchanged_tree_is_skipped(templates_hash, units);
    law_report_follows_plan(actions, results);
    lemma_no_render(actions);
}

proof fn lemma_no_render(actions: Seq<UnitAction>)
    requires
        forall|i: int| 0 <= i < actions.len() ==> #[trigger] actions[i] == UnitAction::Skip,
    ensures
        render_count(actions) == 0,
    decreases actions.len(),
{
    if actions.len() > 0 {
        assert(actions[actions.len() - 1] == UnitAction::Skip);
        assert forall|i: int| 0 <= i < actions.drop_last().len() implies #[trigger] actions.drop_last()[i]
            == UnitAction::Skip by {
            assert(actions[i] == UnitAction::Skip);
        }
        lemma_no_render(actions.drop_last());
    }
}

/// What ends a build before it touches the output tree.
#[derive(Debug)]
pub enum FatalError {
    /// The site configuration could not be read.
    Config(String),
    /// The template set could not be loaded.
    Templates(String),
}

/// How a build ended.
#[derive(Debug)]
pub enum BuildOutcome {
    /// Nothing was written: the build could not start.
    Aborted(FatalError),
    /// The pass ran to its end, whatever single units came to.
    Finished(BuildReport),
}

impl BuildOutcome {
    /// The report of the pass, if there was one.
    pub fn report(&self) -> (r: Option<&BuildReport>)
        ensures
            r == (match self {
                BuildOutcome::Finished(report) => Some(report),
                BuildOutcome::Aborted(_) => None,
            }),
    {
        match self {
            BuildOutcome::Finished(report) => Some(report),
            BuildOutcome::Aborted(_) => None,
        }
    }
}

/// The number of units that were rendered.
pub open spec fn built_count(outcomes: Seq<OutcomeView>) -> nat
    decreases outcomes.len(),
{
    if outcomes.len() == 0 {
        0
    } else {
        built_count(outcomes.drop_last()) + (if outcomes.last() is Built {
            1nat
        } else {
            0nat
        })
    }
}

/// The number of units that were skipped.
pub open spec fn skipped_count(outcomes: Seq<OutcomeView>) -> nat
    decreases outcomes.len(),
{
    if outcomes.len() == 0 {
        0
    } else {
        skipped_count(outcomes.drop_last()) + (if outcomes.last() is Skipped {
            1nat
        } else {
            0nat
        })
    }
}

/// The errors of the units that failed, in the order of the outcomes.
pub open spec fn failures(outcomes: Seq<OutcomeView>) -> Seq<ErrorView>
    decreases outcomes.len(),
{
    if outcomes.len() == 0 {
        Seq::empty()
    } else {
        match outcomes.last() {
            OutcomeView::Failed(e) => failures(outcomes.drop_last()).push(e),
            _ => failures(outcomes.drop_last()),
        }
    }
}

/// The summaries of the units that did not fail, in the order of the
/// outcomes.
pub open spec fn summaries(outcomes: Seq<OutcomeView>) -> Seq<SummaryView>
    decreases outcomes.len(),
{
    if outcomes.len() == 0 {
        Seq::empty()
    } else {
        match outcomes.last() {
            OutcomeView::Built(s) => summaries(outcomes.drop_last()).push(s),
            OutcomeView::Skipped(s) => summaries(outcomes.drop_last()).push(s),
            OutcomeView::Failed(_) => summaries(outcomes.drop_last()),
        }
    }
}

/// The entries of `list` at the positions `order`.
pub open spec fn arranged(list: Seq<SummaryView>, order: Seq<int>) -> Seq<SummaryView> {
    Seq::new(order.len(), |i: int| list[order[i]])
}

/// `list` ordered by URL, then by title, then by tags. Summaries that agree
/// in all three are the same summary.
pub open spec fn by_url_and_title(list: Seq<SummaryView>) -> Seq<SummaryView> {
    arranged(list, sorted_order(summary_keys(list)))
}

/// The summaries of a pass in the order in which the aggregate pages get
/// them: by URL, then by title, then by tags, whatever order the units
/// finished in.
pub open spec fn ordered_summaries(outcomes: Seq<OutcomeView>) -> Seq<SummaryView> {
    by_url_and_title(summaries(outcomes))
}

/// The summaries for the aggregate pages are the summaries of the pass, each
/// position once, every summary before all that have a greater URL, or the
/// same URL and a greater title, or the same of both and greater tags.
pub proof fn law_summaries_are_ordered(list: Seq<SummaryView>)
    ensures
        is_arranged(summary_keys(list), sorted_order(summary_keys(list)), list.len() as int),
        by_url_and_title(list).len() == list.len(),
{
    lemma_sorted_order(summary_keys(list));
}

/// The order of summaries: by their keys.
pub open spec fn summary_le() -> spec_fn(SummaryView, SummaryView) -> bool {
    |a: SummaryView, b: SummaryView| lex_le(summary_key(a), summary_key(b))
}

proof fn lemma_summary_order_is_total()
    ensures
        total_ordering(summary_le()),
{
    let le = summary_le();
    assert forall|x: SummaryView| #[trigger] le(x, x) by {
        lemma_lex_reflexive(summary_key(x));
    }
    assert forall|x: SummaryView, y: SummaryView| #[trigger] le(x, y) && #[trigger] le(y, x) implies x
        == y by {
        lemma_lex_antisymmetric(summary_key(x), summary_key(y));
        lemma_summary_key_injective(x, y);
    }
    assert forall|x: SummaryView, y: SummaryView, z: SummaryView| #[trigger]
        le(x, y) && #[trigger] le(y, z) implies le(x, z) by {
        lemma_lex_transitive(summary_key(x), summary_key(y), summary_key(z));
    }
    assert forall|x: SummaryView, y: SummaryView| #[trigger] le(x, y) || #[trigger] le(y, x) by {
        lemma_lex_total(summary_key(x), summary_key(y));
    }
}

proof fn lemma_insert_multiset(s: Seq<SummaryView>, p: int, v: SummaryView)
    requires
        0 <= p <= s.len(),
    ensures
        s.insert(p, v).to_multiset() == s.to_multiset().insert(v),
{
    broadcast use vstd::multiset::group_multiset_axioms;
    broadcast use vstd::seq_lib::group_to_multiset_ensures;

    let t = s.insert(p, v);
    assert(t[p] == v);
    assert(t.remove(p) =~= s);
    vstd::seq_lib::to_multiset_remove(t, p);
    assert(t.contains(v));
    assert(t.to_multiset().count(v) > 0);
    assert(t.to_multiset() =~= s.to_multiset().insert(v));
}

proof fn lemma_arranged_prefix(list: Seq<SummaryView>, n: int)
    requires
        0 <= n <= list.len(),
    ensures
        arranged(list, sorted_prefix(summary_keys(list), n)).to_multiset() == list.take(
            n,
        ).to_multiset(),
    decreases n,
{
    broadcast use vstd::seq_lib::group_to_multiset_ensures;

    let keys = summary_keys(list);
    if n <= 0 {
        assert(arranged(list, sorted_prefix(keys, n)) =~= list.take(n));
    } else {
        lemma_arranged_prefix(list, n - 1);
        let before = sorted_prefix(keys, n - 1);
        let p = lemma_insert_by_key_inserts(before, keys, n - 1);
        lemma_sorted_prefix(keys, n - 1);
        let shown = arranged(list, before);
        assert(arranged(list, before.insert(p, n - 1)) =~= shown.insert(p, list[n - 1]));
        lemma_insert_multiset(shown, p, list[n - 1]);
        assert(list.take(n) =~= list.take(n - 1).push(list[n - 1]));
    }
}

/// Ordering loses and adds nothing: the summaries for the aggregate pages
/// are the summaries of the pass, each as often as it came.
pub proof fn law_summaries_keep_every_summary(list: Seq<SummaryView>)
    ensures
        by_url_and_title(list).to_multiset() == list.to_multiset(),
        sorted_by(by_url_and_title(list), summary_le()),
{
    lemma_arranged_prefix(list, list.len() as int);
    assert(list.take(list.len() as int) =~= list);
    let keys = summary_keys(list);
    let order = sorted_order(keys);
    lemma_sorted_order(keys);
    let out = by_url_and_title(list);
    assert forall|i: int, j: int| 0 <= i < j < out.len() implies #[trigger] summary_le()(
        out[i],
        out[j],
    ) by {
        assert(comes_before(keys, order[i], order[j]));
    }
}

/// Determinism. The order in which the aggregate pages get the summaries
/// does not depend on the order in which the units finished: two lists of
/// the same summaries, however arranged, come out as one list.
pub proof fn law_summaries_ignore_completion_order(a: Seq<SummaryView>, b: Seq<SummaryView>)
    requires
        a.to_multiset() == b.to_multiset(),
    ensures
        by_url_and_title(a) == by_url_and_title(b),
{
    law_summaries_keep_every_summary(a);
    law_summaries_keep_every_summary(b);
    lemma_summary_order_is_total();
    vstd::seq_lib::lemma_sorted_unique(by_url_and_title(a), by_url_and_title(b), summary_le());
}

/// Every unit is counted once: as built, as skipped, or as failed.
pub proof fn law_every_unit_is_counted_once(outcomes: Seq<OutcomeView>)
    ensures
        built_count(outcomes) + skipped_count(outcomes) + failures(outcomes).len()
            == outcomes.len(),
        summaries(outcomes).len() == built_count(outcomes) + skipped_count(outcomes),
    decreases outcomes.len(),
{
    if outcomes.len() > 0 {
        law_every_unit_is_counted_once(outcomes.drop_last());
    }
}

/// Folds the outcomes of the units into the report of the pass and the
/// summaries for the aggregate pages.
pub fn collect(outcomes: &Vec<UnitOutcome>) -> (out: (BuildReport, Vec<PageSummary>))
    ensures
        out.0.built == built_count(outcome_views(outcomes@)),
        out.0.skipped == skipped_count(outcome_views(outcomes@)),
        error_views(out.0.errors@) == failures(outcome_views(outcomes@)),
        summary_views(out.1@) == ordered_summaries(outcome_views(outcomes@)),
{
    let ghost ov = outcome_views(outcomes@);
    let mut built: usize = 0;
    let mut skipped: usize = 0;
    let mut errors: Vec<UnitError> = Vec::new();
    let mut found: Vec<PageSummary> = Vec::new();
    let mut keys: Vec<Vec<u32>> = Vec::new();
    let mut i: usize = 0;
    assert(ov.take(0) =~= Seq::empty());
    while i < outcomes.len()
        invariant
            i <= outcomes.len(),
            ov == outcome_views(outcomes@),
            built == built_count(ov.take(i as int)),
            skipped == skipped_count(ov.take(i as int)),
            built + skipped <= i,
            error_views(errors@) == failures(ov.take(i as int)),
            summary_views(found@) == summaries(ov.take(i as int)),
            key_views(keys@) == summary_keys(summaries(ov.take(i as int))),
        decreases outcomes.len() - i,
    {
        proof {
            let next = ov.take(i + 1);
            assert(next.drop_last() =~= ov.take(i as int));
            assert(next.last() == outcomes@[i as int]@);
        }
        let ghost old_errors = error_views(errors@);
        let ghost old_found = summary_views(found@);
        let ghost old_keys = key_views(keys@);
        match &outcomes[i] {
            UnitOutcome::Built(s) => {
                built += 1;
                keys.push(s.order_key());
                found.push(s.clone());
                assert(summary_views(found@) =~= old_found.push(s@));
                assert(key_views(keys@) =~= old_keys.push(summary_key(s@)));
                assert(summary_keys(old_found).push(summary_key(s@)) =~= summary_keys(
                    old_found.push(s@),
                ));
            },
            UnitOutcome::Skipped(s) => {
                skipped += 1;
                keys.push(s.order_key());
                found.push(s.clone());
                assert(summary_views(found@) =~= old_found.push(s@));
                assert(key_views(keys@) =~= old_keys.push(summary_key(s@)));
                assert(summary_keys(old_found).push(summary_key(s@)) =~= summary_keys(
                    old_found.push(s@),
                ));
            },
            UnitOutcome::Failed(e) => {
                errors.push(e.clone());
                assert(error_views(errors@) =~= old_errors.push(e@));
            },
        }
        i += 1;
    }
    assert(ov.take(outcomes.len() as int) =~= ov);
    let order = sort_positions(&keys);
    let mut sorted: Vec<PageSummary> = Vec::new();
    let mut n: usize = 0;
    while n < order.len()
        invariant
            n <= order.len(),
            order@.len() == found@.len(),
            forall|j: int| 0 <= j < order@.len() ==> #[trigger] order@[j] < found@.len(),
            sorted@.len() == n,
            forall|j: int| 0 <= j < n ==> (#[trigger] sorted@[j])@ == found@[order@[j] as int]@,
        decreases order.len() - n,
    {
        sorted.push(found[order[n]].clone());
        n += 1;
    }
    proof {
        let positions = order@.map_values(|p: usize| p as int);
        assert(summary_views(sorted@) =~= arranged(summary_views(found@), positions));
    }
    (BuildReport { built, skipped, errors }, sorted)
}

} // verus!
