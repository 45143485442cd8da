use ssg::orchestrator::{BuildOutcome, BuildReport, FatalError};
use ssg::cache::{file_hash, templates_hash, BuildCache, TreeFile, UnitSignature};
use ssg::orchestrator::{
    collect, commit, decide, plan, Stage, UnitAction, UnitError, UnitOutcome,
};
use ssg::taxonomy::PageSummary;

fn unit(rel: &str, content: &str) -> UnitSignature {
    UnitSignature { rel: rel.into(), hash: file_hash(content.as_bytes()) }
}

fn templates(base: &str) -> String {
    templates_hash(&vec![TreeFile {
        path: "templates/base.html".into(),
        content: Some(base.as_bytes().to_vec()),
    }])
}

fn summary(title: &str, url: &str) -> PageSummary {
    PageSummary { title: title.into(), url: url.into(), tags: Vec::new() }
}

fn failed(path: &str, stage: Stage) -> UnitOutcome {
    UnitOutcome::Failed(UnitError { path: path.into(), stage, message: "no".into() })
}

fn count(actions: &[UnitAction], wanted: UnitAction) -> usize {
    actions.iter().filter(|a| **a == wanted).count()
}

#[test]
fn build_then_skip_when_unchanged() {
    let tpl = templates("<!doctype html>");
    let units = vec![unit("index.md", "# Hello"), unit("posts/first.md", "# First")];

    let first = plan(&BuildCache::new(), &tpl, &units);
    assert_eq!(first, vec![UnitAction::Render, UnitAction::Render]);
    let cache = commit(&tpl, &units);

    let second = plan(&cache, &tpl, &units);
    assert_eq!(second, vec![UnitAction::Skip, UnitAction::Skip], "content page should be skipped");
    assert_eq!(cache.len(), 2);
}

#[test]
fn template_change_triggers_rebuild() {
    let units = vec![unit("index.md", "# Hello"), unit("posts/first.md", "# First")];
    let cache = commit(&templates("<!doctype html>"), &units);

    let changed = templates("<!doctype html>CHANGED{% block content %}{% endblock %}");
    let actions = plan(&cache, &changed, &units);
    assert_eq!(
        actions,
        vec![UnitAction::Render, UnitAction::Render],
        "page should be rebuilt after template change"
    );
}

#[test]
fn changed_unit_is_built_and_its_sibling_skipped() {
    let tpl = templates("t");
    let before = vec![unit("a.md", "A"), unit("b.md", "B")];
    let cache = commit(&tpl, &before);

    let after = vec![unit("a.md", "A"), unit("b.md", "B changed")];
    let actions = plan(&cache, &tpl, &after);
    assert_eq!(actions, vec![UnitAction::Skip, UnitAction::Render]);

    let outcomes: Vec<UnitOutcome> = vec![
        UnitOutcome::Skipped(summary("A", "/a/")),
        UnitOutcome::Built(summary("B", "/b/")),
    ];
    let (report, _) = collect(&outcomes);
    assert_eq!(report.built, 1);
    assert_eq!(report.skipped, 1);
    assert!(report.errors.is_empty());
}

#[test]
fn rebuild_of_unchanged_tree_renders_nothing() {
    let tpl = templates("t");
    let units: Vec<UnitSignature> =
        (0..20).map(|i| unit(&format!("p{i}.md"), &format!("body {i}"))).collect();
    let cache = commit(&tpl, &units);
    let actions = plan(&cache, &tpl, &units);
    assert_eq!(count(&actions, UnitAction::Skip), 20);
    // The cache committed by the second pass is the one of the first.
    let again = commit(&tpl, &units);
    assert_eq!(again.entries(), cache.entries());
    assert_eq!(again.templates_hash(), cache.templates_hash());
}

#[test]
fn empty_cache_renders_every_unit() {
    let units = vec![unit("a.md", "A"), unit("b.md", "B"), unit("c.md", "C")];
    let recovered = BuildCache::recover(None);
    let actions = plan(&recovered, &templates("t"), &units);
    assert_eq!(count(&actions, UnitAction::Render), 3);
    // Also where the template set is empty: its signature is not the empty text.
    let actions = plan(&BuildCache::new(), &templates_hash(&Vec::new()), &units);
    assert_eq!(count(&actions, UnitAction::Render), 3);
}

#[test]
fn new_unit_is_rendered() {
    let tpl = templates("t");
    let cache = commit(&tpl, &vec![unit("a.md", "A")]);
    let actions = plan(&cache, &tpl, &vec![unit("a.md", "A"), unit("new.md", "N")]);
    assert_eq!(actions, vec![UnitAction::Skip, UnitAction::Render]);
}

#[test]
fn commit_drops_units_that_are_gone() {
    let tpl = templates("t");
    let first = commit(&tpl, &vec![unit("a.md", "A"), unit("b.md", "B")]);
    assert!(first.get("b.md").is_some());
    let second = commit(&tpl, &vec![unit("a.md", "A")]);
    assert_eq!(second.len(), 1);
    assert!(second.get("b.md").is_none());
    assert_eq!(second.get("a.md").unwrap(), &file_hash(b"A"));
    assert_eq!(second.templates_hash(), &tpl);
}

#[test]
fn commit_of_nothing_keeps_the_template_signature() {
    let c = commit("tpl", &Vec::new());
    assert_eq!(c.templates_hash(), "tpl");
    assert_eq!(c.len(), 0);
}

#[test]
fn decide_follows_the_staleness_rule() {
    let mut c = BuildCache::new();
    c.insert("a.md".into(), "h".into());
    assert_eq!(decide(&c, false, "a.md", "h"), UnitAction::Skip);
    assert_eq!(decide(&c, true, "a.md", "h"), UnitAction::Render);
    assert_eq!(decide(&c, false, "a.md", "other"), UnitAction::Render);
    assert_eq!(decide(&c, false, "b.md", "h"), UnitAction::Render);
}

#[test]
fn plan_of_no_units_is_empty() {
    assert!(plan(&BuildCache::new(), "t", &Vec::new()).is_empty());
}

#[test]
fn report_counts_each_unit_once() {
    let outcomes = vec![
        UnitOutcome::Built(summary("A", "/a/")),
        failed("b.md", Stage::Render),
        UnitOutcome::Skipped(summary("C", "/c/")),
        UnitOutcome::Built(summary("D", "/d/")),
        failed("e.md", Stage::Hash),
    ];
    let (report, summaries) = collect(&outcomes);
    assert_eq!(report.built, 2);
    assert_eq!(report.skipped, 1);
    assert_eq!(report.errors.len(), 2);
    assert_eq!(report.errors[0].path, "b.md");
    assert_eq!(report.errors[0].stage, Stage::Render);
    assert_eq!(report.errors[0].message, "no");
    assert_eq!(report.errors[1].path, "e.md");
    assert_eq!(report.errors[1].stage, Stage::Hash);
    assert_eq!(summaries.len(), 3);
}

#[test]
fn report_of_no_units_is_empty() {
    let (report, summaries) = collect(&Vec::new());
    assert_eq!(report.built, 0);
    assert_eq!(report.skipped, 0);
    assert!(report.errors.is_empty());
    assert!(summaries.is_empty());
}

#[test]
fn summaries_come_out_in_a_stable_order() {
    let one = vec![
        UnitOutcome::Built(summary("Zed", "/z/")),
        UnitOutcome::Skipped(summary("B", "/a/")),
        failed("x.md", Stage::Load),
        UnitOutcome::Built(summary("A", "/a/")),
        UnitOutcome::Built(summary("Home", "/")),
    ];
    let two = vec![
        UnitOutcome::Built(summary("Home", "/")),
        UnitOutcome::Built(summary("A", "/a/")),
        UnitOutcome::Built(summary("Zed", "/z/")),
        failed("x.md", Stage::Write),
        UnitOutcome::Skipped(summary("B", "/a/")),
    ];
    let titles = |outcomes: &Vec<UnitOutcome>| -> Vec<String> {
        collect(outcomes).1.into_iter().map(|s| s.title).collect()
    };
    assert_eq!(titles(&one), vec!["Home", "A", "B", "Zed"]);
    assert_eq!(titles(&two), titles(&one));
}

#[test]
fn aborted_build_has_no_report() {
    let aborted = BuildOutcome::Aborted(FatalError::Config("bad".into()));
    assert!(aborted.report().is_none());
    assert!(BuildOutcome::Aborted(FatalError::Templates("bad".into())).report().is_none());
    let finished =
        BuildOutcome::Finished(BuildReport { built: 2, skipped: 1, errors: Vec::new() });
    assert_eq!(finished.report().unwrap().built, 2);
    assert_eq!(finished.report().unwrap().skipped, 1);
}

#[test]
fn outcome_follows_action_and_result() {
    use_outcome(UnitAction::Render, true, "built");
    use_outcome(UnitAction::Skip, true, "skipped");
    use_outcome(UnitAction::Render, false, "failed");
    use_outcome(UnitAction::Skip, false, "failed");
}

fn use_outcome(action: UnitAction, ok: bool, expected: &str) {
    let result = if ok {
        Ok(summary("A", "/a/"))
    } else {
        Err(UnitError { path: "a.md".into(), stage: Stage::Load, message: "no".into() })
    };
    let got = match ssg::orchestrator::outcome_of(action, result) {
        UnitOutcome::Built(s) => {
            assert_eq!(s.title, "A");
            "built"
        }
        UnitOutcome::Skipped(s) => {
            assert_eq!(s.url, "/a/");
            "skipped"
        }
        UnitOutcome::Failed(e) => {
            assert_eq!(e.path, "a.md");
            "failed"
        }
    };
    assert_eq!(got, expected);
}

#[test]
fn second_build_reports_one_built_and_one_skipped() {
    // Units A (unchanged) and B (content changed) between two builds,
    // templates unchanged.
    let tpl = templates("t");
    let cache = commit(&tpl, &vec![unit("A.md", "a"), unit("B.md", "b")]);
    let now = vec![unit("A.md", "a"), unit("B.md", "b2")];
    let actions = plan(&cache, &tpl, &now);
    let outcomes: Vec<UnitOutcome> = actions
        .iter()
        .zip(["A", "B"])
        .map(|(action, title)| {
            ssg::orchestrator::outcome_of(*action, Ok(summary(title, &format!("/{title}/"))))
        })
        .collect();
    let (report, summaries) = collect(&outcomes);
    assert_eq!(report.built, 1);
    assert_eq!(report.skipped, 1);
    assert!(report.errors.is_empty());
    assert!(matches!(&outcomes[0], UnitOutcome::Skipped(s) if s.title == "A"));
    assert!(matches!(&outcomes[1], UnitOutcome::Built(s) if s.title == "B"));
    assert_eq!(summaries.len(), 2);
}

#[test]
fn cache_made_of_its_entries_is_the_same_cache() {
    let tpl = templates("t");
    let cache = commit(&tpl, &vec![unit("b.md", "B"), unit("a.md", "A"), unit("b.md", "B2")]);
    let entries = cache.entries();
    assert_eq!(entries, vec![unit("b.md", "B2"), unit("a.md", "A")]);
    let again = commit(cache.templates_hash(), &entries);
    assert_eq!(again.templates_hash(), cache.templates_hash());
    assert_eq!(again.entries(), entries);
    // In any order.
    let reversed: Vec<UnitSignature> = entries.into_iter().rev().collect();
    let other = commit(cache.templates_hash(), &reversed);
    assert_eq!(other.len(), 2);
    assert_eq!(other.get("a.md"), cache.get("a.md"));
    assert_eq!(other.get("b.md"), cache.get("b.md"));
}

#[test]
fn summaries_with_one_url_and_title_come_out_in_one_order() {
    let tagged = |tags: &[&str]| PageSummary {
        title: "T".into(),
        url: "/a/".into(),
        tags: tags.iter().map(|t| t.to_string()).collect(),
    };
    let one = vec![
        UnitOutcome::Built(tagged(&["b"])),
        UnitOutcome::Skipped(tagged(&["a"])),
        UnitOutcome::Built(tagged(&[])),
        UnitOutcome::Built(tagged(&["a"])),
    ];
    let two = vec![
        UnitOutcome::Built(tagged(&["a"])),
        UnitOutcome::Built(tagged(&[])),
        UnitOutcome::Built(tagged(&["b"])),
        UnitOutcome::Skipped(tagged(&["a"])),
    ];
    let first = collect(&one).1;
    assert_eq!(first, collect(&two).1);
    let tags: Vec<Vec<String>> = first.into_iter().map(|s| s.tags).collect();
    assert_eq!(tags, vec![vec![], vec!["a".to_string()], vec!["a".to_string()], vec!["b".to_string()]]);
}
