use std::rc::Rc;

use wotw_seedgen_stats::analyzers::{
    analyze_chain, chain_keys, chain_titles, classify, Analyzer, ChainedAnalyzers, FnAnalyzer,
};
use wotw_seedgen_stats::errors::StatsError;
use wotw_seedgen_stats::seed_storage::{FileAccess, Generator};
use wotw_seedgen_stats::{aggregate, stats, Stats, StatsArgs};

/// A seed of the test engine: its configured goal and its spawn.
#[derive(Clone, Debug, PartialEq)]
struct Seed {
    goal: String,
    spawn: u32,
}

fn seed(goal: &str, spawn: u32) -> Seed {
    Seed { goal: goal.to_string(), spawn }
}

fn goal_stats() -> Box<dyn Analyzer<Seed>> {
    Box::new(FnAnalyzer::new("Goal".to_string(), |seed: &Seed| vec![seed.goal.clone()]))
}

fn spawn_stats() -> Box<dyn Analyzer<Seed>> {
    Box::new(FnAnalyzer::new("Spawn".to_string(), |seed: &Seed| vec![seed.spawn.to_string()]))
}

/// Gives every seed both its goal and the label `any`.
fn ambiguous_goal_stats() -> Box<dyn Analyzer<Seed>> {
    Box::new(FnAnalyzer::new("Goal or any".to_string(), |seed: &Seed| {
        vec![seed.goal.clone(), "any".to_string()]
    }))
}

/// Plays back a script of generation attempts and counts the calls.
struct ScriptedGenerator {
    script: Vec<Result<Seed, String>>,
    calls: usize,
}

impl ScriptedGenerator {
    fn new(script: Vec<Result<Seed, String>>) -> Self {
        ScriptedGenerator { script, calls: 0 }
    }
}

impl Generator<String, Seed> for ScriptedGenerator {
    fn generate(&mut self, _settings: &String) -> Result<Seed, String> {
        let outcome = self.script.get(self.calls).cloned();
        self.calls += 1;
        outcome.unwrap_or_else(|| Err("script ran out".to_string()))
    }
}

/// Keeps seeds in memory, filed under their settings.
struct MemoryStore {
    kept: Vec<(String, Seed)>,
    broken: bool,
}

impl MemoryStore {
    fn new() -> Self {
        MemoryStore { kept: Vec::new(), broken: false }
    }
}

impl FileAccess<String, Seed> for MemoryStore {
    fn read_seeds(&mut self, settings: &String, limit: usize) -> Result<Vec<Seed>, String> {
        if self.broken {
            return Err("cannot read the store".to_string());
        }
        Ok(self
            .kept
            .iter()
            .filter(|(kept_for, _)| kept_for == settings)
            .map(|(_, seed)| seed.clone())
            .take(limit)
            .collect())
    }

    fn write_seed(&mut self, settings: &String, seed: &Seed) -> Result<(), String> {
        if self.broken {
            return Err("cannot write to the store".to_string());
        }
        self.kept.push((settings.clone(), seed.clone()));
        Ok(())
    }

    fn clean_seeds(&mut self, settings: &String) -> Result<(), String> {
        if self.broken {
            return Err("cannot clean the store".to_string());
        }
        self.kept.retain(|(kept_for, _)| kept_for != settings);
        Ok(())
    }
}

fn key(labels: &[&str]) -> Vec<Rc<String>> {
    labels.iter().map(|label| Rc::new(label.to_string())).collect()
}

fn labels(lists: &[&[&str]]) -> Vec<Vec<Rc<String>>> {
    lists.iter().map(|list| key(list)).collect()
}

fn total(report: &Stats) -> u64 {
    report.data.values().map(|count| *count as u64).sum()
}

fn args(
    sample_size: usize,
    analyzers: Vec<ChainedAnalyzers<Seed>>,
    script: Vec<Result<Seed, String>>,
) -> StatsArgs<String, Seed, ScriptedGenerator> {
    StatsArgs {
        settings: "C".to_string(),
        sample_size,
        analyzers,
        generator: ScriptedGenerator::new(script),
        tolerated_errors: None,
        error_message_limit: None,
        overwrite_seed_storage: false,
    }
}

fn five_goals() -> Vec<Result<Seed, String>> {
    vec![
        Ok(seed("trees", 1)),
        Ok(seed("trees", 2)),
        Ok(seed("wisps", 10)),
        Ok(seed("quests", 2)),
        Ok(seed("trees", 1)),
    ]
}

#[test]
fn goal_scenario_counts_each_goal() {
    let mut store = MemoryStore::new();
    let chain: ChainedAnalyzers<Seed> = vec![goal_stats()];
    let reports = match stats(args(5, vec![chain], five_goals()), &mut store) {
        Ok(reports) => reports,
        Err(error) => panic!("{:?}", error),
    };
    assert_eq!(reports.len(), 1);
    let report = &reports[0];
    assert_eq!(report.title(), "Goal");
    assert_eq!(report.data.len(), 3);
    assert_eq!(report.count(&key(&["trees"])), 3);
    assert_eq!(report.count(&key(&["wisps"])), 1);
    assert_eq!(report.count(&key(&["quests"])), 1);
    assert_eq!(report.count(&key(&["relics"])), 0);
    assert_eq!(total(report), 5);
    assert_eq!(report.csv(), "Goal, Count\nquests, 1\ntrees, 3\nwisps, 1");
}

#[test]
fn unambiguous_counts_add_up_to_the_corpus_size() {
    let mut store = MemoryStore::new();
    let goals: ChainedAnalyzers<Seed> = vec![goal_stats()];
    let both: ChainedAnalyzers<Seed> = vec![spawn_stats(), goal_stats()];
    let reports = match stats(args(5, vec![goals, both], five_goals()), &mut store) {
        Ok(reports) => reports,
        Err(error) => panic!("{:?}", error),
    };
    assert_eq!(reports.len(), 2);
    assert_eq!(total(&reports[0]), 5);
    assert_eq!(total(&reports[1]), 5);
    assert_eq!(reports[1].title(), "Spawn and Goal");
    assert_eq!(
        reports[1].csv(),
        "Spawn, Goal, Count\n1, trees, 2\n2, quests, 1\n2, trees, 1\n10, wisps, 1"
    );
    for (labels, _) in reports[1].data.iter() {
        assert_eq!(labels.len(), 2);
    }
}

#[test]
fn ambiguous_label_counts_once_for_each_label() {
    let chain: ChainedAnalyzers<Seed> = vec![spawn_stats(), ambiguous_goal_stats()];
    let seeds = vec![seed("trees", 7)];
    let reports = match aggregate(&vec![chain], &seeds) {
        Ok(reports) => reports,
        Err(error) => panic!("{:?}", error),
    };
    assert_eq!(total(&reports[0]), 2);
    assert_eq!(reports[0].count(&key(&["7", "trees"])), 1);
    assert_eq!(reports[0].count(&key(&["7", "any"])), 1);
}

#[test]
fn ambiguity_multiplies_across_axes() {
    let keys = chain_keys(labels(&[&["a", "b"], &["x"], &["1", "2", "3"]]));
    let expected: Vec<Vec<Rc<String>>> = vec![
        key(&["a", "x", "1"]),
        key(&["a", "x", "2"]),
        key(&["a", "x", "3"]),
        key(&["b", "x", "1"]),
        key(&["b", "x", "2"]),
        key(&["b", "x", "3"]),
    ];
    assert_eq!(keys, expected);
}

#[test]
fn chain_keys_of_one_list_are_its_labels() {
    assert_eq!(chain_keys(labels(&[&["a", "b"]])), vec![key(&["a"]), key(&["b"])]);
}

#[test]
fn chain_without_labels_along_one_axis_has_no_key() {
    assert_eq!(chain_keys(labels(&[&["a", "b"], &[]])), Vec::<Vec<Rc<String>>>::new());
}

#[test]
fn chain_without_analyzers_has_no_key() {
    assert_eq!(chain_keys(Vec::new()), Vec::<Vec<Rc<String>>>::new());
    let chain: ChainedAnalyzers<Seed> = Vec::new();
    let reports = match aggregate(&vec![chain], &vec![seed("trees", 1)]) {
        Ok(reports) => reports,
        Err(error) => panic!("{:?}", error),
    };
    assert_eq!(total(&reports[0]), 0);
    assert_eq!(reports[0].title(), "");
    assert_eq!(reports[0].csv(), ", Count\n");
}

#[test]
fn classify_asks_every_analyzer_in_chain_order() {
    let chain: ChainedAnalyzers<Seed> = vec![ambiguous_goal_stats(), spawn_stats()];
    assert_eq!(chain_titles(&chain), vec!["Goal or any".to_string(), "Spawn".to_string()]);
    assert_eq!(classify(&chain, &seed("wisps", 3)), labels(&[&["wisps", "any"], &["3"]]));
    assert_eq!(
        analyze_chain(&chain, &seed("wisps", 3)),
        vec![key(&["wisps", "3"]), key(&["any", "3"])]
    );
}

#[test]
fn same_key_from_one_seed_counts_every_time() {
    let mut report = Stats::new(vec!["Goal".to_string()]);
    assert!(report.record_seed(labels(&[&["trees", "trees", "wisps"]])).is_ok());
    assert_eq!(report.count(&key(&["trees"])), 2);
    assert_eq!(report.count(&key(&["wisps"])), 1);
    assert_eq!(total(&report), 3);
}

#[test]
fn record_counts_up_to_the_largest_count_and_no_further() {
    let mut report = Stats::new(vec!["Goal".to_string()]);
    assert!(report.record(key(&["trees"])));
    assert!(report.record(key(&["trees"])));
    assert_eq!(report.count(&key(&["trees"])), 2);
    report.data.insert(key(&["wisps"]), u32::MAX);
    assert!(!report.record(key(&["wisps"])));
    assert_eq!(report.count(&key(&["wisps"])), u32::MAX);
    assert_eq!(report.count(&key(&["trees"])), 2);
    match report.record_seed(labels(&[&["trees", "wisps"]])) {
        Err(StatsError::CountOverflow) => {},
        other => panic!("{:?}", other),
    }
}

#[test]
fn natural_order_puts_numbers_by_value_before_text() {
    let mut report = Stats::new(vec!["Label".to_string()]);
    for label in ["apple", "10", "2"] {
        assert!(report.record(key(&[label])));
    }
    assert_eq!(report.csv(), "Label, Count\n2, 1\n10, 1\napple, 1");
}

#[test]
fn natural_order_knows_no_largest_number() {
    let mut report = Stats::new(vec!["N".to_string()]);
    for label in ["10000000000", "1x", "4294967296", "340282366920938463463374607431768211456", "9"] {
        assert!(report.record(key(&[label])));
    }
    assert_eq!(
        report.csv(),
        "N, Count\n9, 1\n4294967296, 1\n10000000000, 1\n\
         340282366920938463463374607431768211456, 1\n1x, 1"
    );
}

#[test]
fn natural_order_goes_label_by_label() {
    let mut report = Stats::new(vec!["Zone".to_string(), "Item".to_string()]);
    for labels in [
        ["b", "2"],
        ["a", "10"],
        ["a", "9"],
        ["4294967296", "1"],
        ["4294967295", "1"],
        ["a", "Zebra"],
        ["a", "apple"],
        ["", "0"],
        ["-1", "0"],
        ["A", "0"],
    ] {
        assert!(report.record(key(&labels)));
    }
    assert!(report.record(key(&["a", "9"])));
    assert_eq!(
        report.csv(),
        "Zone, Item, Count\n\
         4294967295, 1, 1\n\
         4294967296, 1, 1\n\
         , 0, 1\n\
         -1, 0, 1\n\
         A, 0, 1\n\
         a, 9, 2\n\
         a, 10, 1\n\
         a, Zebra, 1\n\
         a, apple, 1\n\
         b, 2, 1"
    );
}

#[test]
fn empty_report_renders_its_header_only() {
    let report = Stats::new(vec!["Spawn".to_string(), "Goal".to_string()]);
    assert_eq!(report.title(), "Spawn and Goal");
    assert_eq!(report.csv(), "Spawn, Goal, Count\n");
    assert_eq!(report.data.len(), 0);
}

#[test]
fn corpus_is_reused_from_the_store_without_generating() {
    let mut store = MemoryStore::new();
    let first = args(5, vec![vec![goal_stats()]], five_goals());
    assert!(stats(first, &mut store).is_ok());
    assert_eq!(store.kept.len(), 5);

    // the second run has a generator that would fail at once
    let second = args(5, vec![vec![goal_stats()]], Vec::new());
    let reports = match stats(second, &mut store) {
        Ok(reports) => reports,
        Err(error) => panic!("{:?}", error),
    };
    assert_eq!(reports[0].count(&key(&["trees"])), 3);
    assert_eq!(total(&reports[0]), 5);
    assert_eq!(store.kept.len(), 5);
}

#[test]
fn overwrite_cleans_the_store_for_these_settings_only() {
    let mut store = MemoryStore::new();
    store.kept.push(("C".to_string(), seed("relics", 0)));
    store.kept.push(("other".to_string(), seed("relics", 0)));
    let mut request = args(1, vec![vec![goal_stats()]], five_goals());
    request.overwrite_seed_storage = true;
    let reports = match stats(request, &mut store) {
        Ok(reports) => reports,
        Err(error) => panic!("{:?}", error),
    };
    assert_eq!(reports[0].count(&key(&["relics"])), 0);
    assert_eq!(reports[0].count(&key(&["trees"])), 1);
    assert_eq!(
        store.kept,
        vec![("other".to_string(), seed("relics", 0)), ("C".to_string(), seed("trees", 1))]
    );
}

#[test]
fn store_failure_is_fatal() {
    let mut store = MemoryStore::new();
    store.broken = true;
    let request = args(1, vec![vec![goal_stats()]], five_goals());
    match stats(request, &mut store) {
        Err(StatsError::Storage(message)) => assert_eq!(message, "cannot read the store"),
        Err(other) => panic!("{:?}", other),
        Ok(_) => panic!("a broken store gave reports"),
    }
    let mut request = args(1, vec![vec![goal_stats()]], five_goals());
    request.overwrite_seed_storage = true;
    match stats(request, &mut store) {
        Err(StatsError::Storage(message)) => assert_eq!(message, "cannot clean the store"),
        Err(other) => panic!("{:?}", other),
        Ok(_) => panic!("a broken store gave reports"),
    }
}

#[test]
fn too_many_failures_abort_the_stats() {
    let mut store = MemoryStore::new();
    let mut request = args(
        2,
        vec![vec![goal_stats()]],
        vec![
            Err("first".to_string()),
            Ok(seed("trees", 1)),
            Err("second".to_string()),
            Err("third".to_string()),
            Ok(seed("wisps", 1)),
        ],
    );
    request.tolerated_errors = Some(2);
    request.error_message_limit = Some(2);
    match stats(request, &mut store) {
        Err(StatsError::SeedGeneration { failures, messages }) => {
            assert_eq!(failures, 3);
            assert_eq!(messages, vec!["first".to_string(), "second".to_string()]);
        },
        Err(other) => panic!("{:?}", other),
        Ok(_) => panic!("an exhausted corpus gave reports"),
    }
    // the seed that was generated before the abort is kept for the next run
    assert_eq!(store.kept, vec![("C".to_string(), seed("trees", 1))]);
}

#[test]
fn tabulate_counts_every_combination_of_labels() {
    let observed = vec![
        labels(&[&["1"], &["trees"]]),
        labels(&[&["2"], &["trees", "wisps"]]),
        labels(&[&["1", "2"], &["trees", "quests"]]),
        labels(&[&["3"], &[]]),
    ];
    let report = match Stats::tabulate(vec!["Spawn".to_string(), "Goal".to_string()], observed) {
        Ok(report) => report,
        Err(error) => panic!("{:?}", error),
    };
    assert_eq!(report.title(), "Spawn and Goal");
    assert_eq!(total(&report), 1 + 2 + 4);
    assert_eq!(
        report.csv(),
        "Spawn, Goal, Count\n1, quests, 1\n1, trees, 2\n2, quests, 1\n2, trees, 2\n2, wisps, 1"
    );
}

#[test]
fn tabulate_of_unambiguous_labels_adds_up_to_the_corpus_size() {
    let observed: Vec<Vec<Vec<Rc<String>>>> =
        (0..100).map(|n| labels(&[&[["a", "b", "c"][n % 3]], &[["x", "y"][n % 2]]])).collect();
    let report = match Stats::tabulate(vec!["First".to_string(), "Second".to_string()], observed) {
        Ok(report) => report,
        Err(error) => panic!("{:?}", error),
    };
    assert_eq!(total(&report), 100);
    assert_eq!(report.data.len(), 6);
    assert_eq!(report.count(&key(&["a", "x"])), 17);
}

#[test]
fn tabulate_of_no_seeds_is_an_empty_report() {
    let report = match Stats::tabulate(vec!["Goal".to_string()], Vec::new()) {
        Ok(report) => report,
        Err(error) => panic!("{:?}", error),
    };
    assert_eq!(report.csv(), "Goal, Count\n");
}
