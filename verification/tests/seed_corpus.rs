use wotw_seedgen_stats::errors::StatsError;
use wotw_seedgen_stats::seed_storage::{
    Action, FileAccess, Generator, Phase, Sampler, Seeds, DEFAULT_ERROR_MESSAGE_LIMIT,
};

/// Fails a number of times, then counts up from zero.
struct Flaky {
    failures_left: usize,
    next: u32,
    calls: usize,
}

impl Flaky {
    fn failing(failures: usize) -> Self {
        Flaky { failures_left: failures, next: 0, calls: 0 }
    }
}

impl Generator<(), u32> for Flaky {
    fn generate(&mut self, _settings: &()) -> Result<u32, String> {
        self.calls += 1;
        if self.failures_left > 0 {
            self.failures_left -= 1;
            Err(format!("failure {}", self.calls))
        } else {
            self.next += 1;
            Ok(self.next - 1)
        }
    }
}

struct Shelf {
    kept: Vec<u32>,
    reads: usize,
}

impl Shelf {
    fn holding(kept: Vec<u32>) -> Self {
        Shelf { kept, reads: 0 }
    }
}

impl FileAccess<(), u32> for Shelf {
    fn read_seeds(&mut self, _settings: &(), limit: usize) -> Result<Vec<u32>, String> {
        self.reads += 1;
        Ok(self.kept.iter().copied().take(limit).collect())
    }

    fn write_seed(&mut self, _settings: &(), seed: &u32) -> Result<(), String> {
        self.kept.push(*seed);
        Ok(())
    }

    fn clean_seeds(&mut self, _settings: &()) -> Result<(), String> {
        self.kept.clear();
        Ok(())
    }
}

/// A shelf that reads nothing and refuses every write.
struct ReadOnly;

impl FileAccess<(), u32> for ReadOnly {
    fn read_seeds(&mut self, _settings: &(), _limit: usize) -> Result<Vec<u32>, String> {
        Ok(Vec::new())
    }

    fn write_seed(&mut self, _settings: &(), _seed: &u32) -> Result<(), String> {
        Err("read only".to_string())
    }

    fn clean_seeds(&mut self, _settings: &()) -> Result<(), String> {
        Ok(())
    }
}

fn seeds_of(result: Result<Seeds<u32>, StatsError>) -> Vec<u32> {
    match result {
        Ok(corpus) => match corpus.into_seeds() {
            Ok(seeds) => seeds,
            Err(error) => panic!("{:?}", error),
        },
        Err(error) => panic!("{:?}", error),
    }
}

#[test]
fn one_failure_more_than_tolerated_exhausts_the_corpus() {
    let mut generator = Flaky::failing(4);
    let mut shelf = Shelf::holding(Vec::new());
    match Seeds::new(&(), 2, Some(3), None, &mut generator, &mut shelf) {
        Err(StatsError::SeedGeneration { failures, messages }) => {
            assert_eq!(failures, 4);
            assert_eq!(messages, vec!["failure 1", "failure 2", "failure 3", "failure 4"]);
        },
        Err(other) => panic!("{:?}", other),
        Ok(_) => panic!("four failures were tolerated"),
    }
    assert_eq!(generator.calls, 4);
    assert!(shelf.kept.is_empty());
}

#[test]
fn tolerated_failures_then_successes_complete_the_corpus() {
    let mut generator = Flaky::failing(3);
    let mut shelf = Shelf::holding(Vec::new());
    let corpus = match Seeds::new(&(), 2, Some(3), None, &mut generator, &mut shelf) {
        Ok(corpus) => corpus,
        Err(error) => panic!("{:?}", error),
    };
    assert_eq!(corpus.phase(), Phase::Complete);
    assert_eq!(corpus.len(), 2);
    assert_eq!(corpus.reused(), 0);
    assert_eq!(corpus.failures(), 3);
    assert_eq!(corpus.into_seeds().ok(), Some(vec![0, 1]));
    assert_eq!(generator.calls, 5);
    assert_eq!(shelf.kept, vec![0, 1]);
}

#[test]
fn no_failure_is_tolerated_with_a_budget_of_zero() {
    let mut generator = Flaky::failing(1);
    let mut shelf = Shelf::holding(Vec::new());
    match Seeds::new(&(), 1, Some(0), Some(0), &mut generator, &mut shelf) {
        Err(StatsError::SeedGeneration { failures, messages }) => {
            assert_eq!(failures, 1);
            assert!(messages.is_empty());
        },
        Err(other) => panic!("{:?}", other),
        Ok(_) => panic!("a failure was tolerated"),
    }
}

#[test]
fn full_store_needs_no_generation() {
    let mut generator = Flaky::failing(100);
    let mut shelf = Shelf::holding(vec![7, 8, 9, 10]);
    let corpus = match Seeds::new(&(), 3, Some(0), None, &mut generator, &mut shelf) {
        Ok(corpus) => corpus,
        Err(error) => panic!("{:?}", error),
    };
    assert_eq!(corpus.reused(), 3);
    assert_eq!(corpus.failures(), 0);
    assert_eq!(corpus.into_seeds().ok(), Some(vec![7, 8, 9]));
    assert_eq!(generator.calls, 0);
    assert_eq!(shelf.kept, vec![7, 8, 9, 10]);
    assert_eq!(shelf.reads, 1);
}

#[test]
fn second_run_reuses_what_the_first_run_kept() {
    let mut shelf = Shelf::holding(Vec::new());
    let mut first = Flaky::failing(2);
    assert_eq!(seeds_of(Seeds::new(&(), 4, None, None, &mut first, &mut shelf)), vec![0, 1, 2, 3]);
    assert_eq!(first.calls, 6);
    let mut second = Flaky::failing(0);
    assert_eq!(seeds_of(Seeds::new(&(), 4, None, None, &mut second, &mut shelf)), vec![0, 1, 2, 3]);
    assert_eq!(second.calls, 0);
}

#[test]
fn partly_filled_store_is_topped_up() {
    let mut generator = Flaky::failing(1);
    let mut shelf = Shelf::holding(vec![40, 41]);
    let corpus = match Seeds::new(&(), 4, Some(1), None, &mut generator, &mut shelf) {
        Ok(corpus) => corpus,
        Err(error) => panic!("{:?}", error),
    };
    assert_eq!(corpus.reused(), 2);
    assert_eq!(corpus.into_seeds().ok(), Some(vec![40, 41, 0, 1]));
    assert_eq!(shelf.kept, vec![40, 41, 0, 1]);
}

#[test]
fn empty_sample_is_complete_at_once() {
    let mut generator = Flaky::failing(1);
    let mut shelf = Shelf::holding(vec![1]);
    assert_eq!(seeds_of(Seeds::new(&(), 0, Some(0), None, &mut generator, &mut shelf)), Vec::<u32>::new());
    assert_eq!(generator.calls, 0);
}

#[test]
fn write_failure_ends_the_construction() {
    let mut generator = Flaky::failing(0);
    match Seeds::new(&(), 1, None, None, &mut generator, &mut ReadOnly) {
        Err(StatsError::Storage(message)) => assert_eq!(message, "read only"),
        Err(other) => panic!("{:?}", other),
        Ok(_) => panic!("a seed that could not be kept was accepted"),
    }
    assert_eq!(generator.calls, 1);
}

#[test]
fn default_budget_goes_by_the_sample_size() {
    // ten failures are tolerated for a small sample, the eleventh is not
    let mut generator = Flaky::failing(10);
    let mut shelf = Shelf::holding(Vec::new());
    assert_eq!(seeds_of(Seeds::new(&(), 1, None, None, &mut generator, &mut shelf)), vec![0]);
    let mut generator = Flaky::failing(11);
    let mut shelf = Shelf::holding(Vec::new());
    match Seeds::new(&(), 1, None, None, &mut generator, &mut shelf) {
        Err(StatsError::SeedGeneration { failures, messages }) => {
            assert_eq!(failures, 11);
            assert_eq!(messages.len(), DEFAULT_ERROR_MESSAGE_LIMIT);
            assert_eq!(messages[9], "failure 10");
        },
        Err(other) => panic!("{:?}", other),
        Ok(_) => panic!("eleven failures were tolerated"),
    }
    // a tenth of a large sample is tolerated
    let mut generator = Flaky::failing(25);
    let mut shelf = Shelf::holding(Vec::new());
    assert_eq!(seeds_of(Seeds::new(&(), 250, None, None, &mut generator, &mut shelf)).len(), 250);
    let mut generator = Flaky::failing(26);
    let mut shelf = Shelf::holding(Vec::new());
    assert!(Seeds::new(&(), 250, None, None, &mut generator, &mut shelf).is_err());
}

#[test]
fn corpus_steps_by_hand() {
    let mut corpus: Seeds<u32> = Seeds::start(2, Some(1), Some(1), vec![5, 6, 7]);
    assert_eq!(corpus.phase(), Phase::Complete);
    assert_eq!(corpus.len(), 2);
    corpus.accept(9);
    corpus.reject("late".to_string());
    assert_eq!(corpus.failures(), 0);
    assert_eq!(corpus.into_seeds().ok(), Some(vec![5, 6]));

    let mut corpus: Seeds<u32> = Seeds::start(2, Some(1), Some(1), vec![5]);
    assert_eq!(corpus.phase(), Phase::Generating);
    corpus.reject("one".to_string());
    assert_eq!(corpus.phase(), Phase::Generating);
    corpus.reject("two".to_string());
    assert_eq!(corpus.phase(), Phase::Exhausted);
    corpus.accept(9);
    corpus.reject("three".to_string());
    assert_eq!(corpus.len(), 1);
    assert_eq!(corpus.failures(), 2);
    match corpus.into_seeds() {
        Err(StatsError::SeedGeneration { failures, messages }) => {
            assert_eq!(failures, 2);
            assert_eq!(messages, vec!["one"]);
        },
        other => panic!("{:?}", other),
    }

    // a corpus that is still waiting for seeds hands none out
    let corpus: Seeds<u32> = Seeds::start(2, None, None, vec![5]);
    match corpus.into_seeds() {
        Err(StatsError::SeedGeneration { failures, messages }) => {
            assert_eq!(failures, 0);
            assert!(messages.is_empty());
        },
        other => panic!("{:?}", other),
    }
}

#[test]
fn errors_describe_themselves() {
    assert_eq!(StatsError::Storage("disk full".to_string()).message(), "disk full");
    assert_eq!(
        StatsError::SeedGeneration { failures: 3, messages: vec!["a".to_string(), "b".to_string()] }
            .message(),
        "3 errors while generating seeds:\na\nb"
    );
    assert_eq!(
        StatsError::SeedGeneration { failures: 1, messages: Vec::new() }.message(),
        "1 errors while generating seeds"
    );
    assert_eq!(
        StatsError::CountOverflow.message(),
        "a key occurred more often than a count can hold"
    );
}

/// A store that writes down what it is asked for and fails when told to.
struct Ledger {
    kept: Vec<u32>,
    calls: Vec<String>,
    fail_on: Option<&'static str>,
}

impl Ledger {
    fn holding(kept: Vec<u32>) -> Self {
        Ledger { kept, calls: Vec::new(), fail_on: None }
    }

    fn answer(&self, call: &'static str) -> Result<(), String> {
        if self.fail_on == Some(call) {
            Err(format!("cannot {}", call))
        } else {
            Ok(())
        }
    }
}

impl FileAccess<(), u32> for Ledger {
    fn read_seeds(&mut self, _settings: &(), limit: usize) -> Result<Vec<u32>, String> {
        self.calls.push(format!("read {}", limit));
        self.answer("read")?;
        Ok(self.kept.iter().copied().take(limit).collect())
    }

    fn write_seed(&mut self, _settings: &(), seed: &u32) -> Result<(), String> {
        self.calls.push(format!("write {}", seed));
        self.answer("write")?;
        self.kept.push(*seed);
        Ok(())
    }

    fn clean_seeds(&mut self, _settings: &()) -> Result<(), String> {
        self.calls.push("clean".to_string());
        self.answer("clean")?;
        self.kept.clear();
        Ok(())
    }
}

fn sample(
    sample_size: usize,
    overwrite: bool,
    generator: &mut Flaky,
    ledger: &mut Ledger,
) -> Result<Vec<u32>, StatsError> {
    Sampler::begin(sample_size, Some(1), None, overwrite).drive(&(), generator, ledger).finish()
}

#[test]
fn store_is_cleaned_first_and_only_when_told_to() {
    let mut ledger = Ledger::holding(vec![7, 8]);
    let mut generator = Flaky::failing(0);
    assert_eq!(sample(2, true, &mut generator, &mut ledger).ok(), Some(vec![0, 1]));
    assert_eq!(ledger.calls, vec!["clean", "read 2", "write 0", "write 1"]);
    assert_eq!(ledger.kept, vec![0, 1]);
    assert_eq!(generator.calls, 2);

    let mut ledger = Ledger::holding(vec![7, 8]);
    let mut generator = Flaky::failing(0);
    assert_eq!(sample(3, false, &mut generator, &mut ledger).ok(), Some(vec![7, 8, 0]));
    assert_eq!(ledger.calls, vec!["read 3", "write 0"]);
    assert_eq!(generator.calls, 1);
}

#[test]
fn generated_seeds_are_kept_at_once_even_if_the_corpus_is_exhausted_later() {
    let mut ledger = Ledger::holding(Vec::new());
    let mut generator = Flaky { failures_left: 0, next: 0, calls: 0 };
    // one seed, then nothing but failures
    let mut sampler: Sampler<u32> = Sampler::begin(3, Some(1), None, false);
    let mut script = vec![Err("c".to_string()), Err("b".to_string()), Ok(5u32)];
    loop {
        match sampler.action() {
            Action::Clean => panic!("cleaning was not asked for"),
            Action::Read => {
                let answer = ledger.read_seeds(&(), sampler.sample_size());
                sampler.read(answer)
            },
            Action::Generate => {
                generator.calls += 1;
                sampler.generated(script.pop().unwrap_or(Err("z".to_string())))
            },
            Action::Store => {
                let answer = ledger.write_seed(&(), sampler.pending());
                sampler.stored(answer)
            },
            Action::Finish => break,
        }
    }
    match sampler.finish() {
        Err(StatsError::SeedGeneration { failures, messages }) => {
            assert_eq!(failures, 2);
            assert_eq!(messages, vec!["b", "c"]);
        },
        other => panic!("{:?}", other),
    }
    assert_eq!(ledger.calls, vec!["read 3", "write 5"]);
    assert_eq!(ledger.kept, vec![5]);
    assert_eq!(generator.calls, 3);
}

#[test]
fn failure_to_clean_ends_the_sampling_before_anything_else() {
    let mut ledger = Ledger::holding(vec![7]);
    ledger.fail_on = Some("clean");
    let mut generator = Flaky::failing(0);
    match sample(1, true, &mut generator, &mut ledger) {
        Err(StatsError::Storage(message)) => assert_eq!(message, "cannot clean"),
        other => panic!("{:?}", other),
    }
    assert_eq!(ledger.calls, vec!["clean"]);
    assert_eq!(generator.calls, 0);
    assert_eq!(ledger.kept, vec![7]);
}

#[test]
fn failure_to_read_or_write_ends_the_sampling_at_once() {
    let mut ledger = Ledger::holding(vec![7]);
    ledger.fail_on = Some("read");
    let mut generator = Flaky::failing(0);
    match sample(2, false, &mut generator, &mut ledger) {
        Err(StatsError::Storage(message)) => assert_eq!(message, "cannot read"),
        other => panic!("{:?}", other),
    }
    assert_eq!(ledger.calls, vec!["read 2"]);
    assert_eq!(generator.calls, 0);

    let mut ledger = Ledger::holding(vec![7]);
    ledger.fail_on = Some("write");
    let mut generator = Flaky::failing(1);
    match sample(3, false, &mut generator, &mut ledger) {
        Err(StatsError::Storage(message)) => assert_eq!(message, "cannot write"),
        other => panic!("{:?}", other),
    }
    assert_eq!(ledger.calls, vec!["read 3", "write 0"]);
    assert_eq!(generator.calls, 2);
}

#[test]
fn sampler_ignores_answers_it_did_not_ask_for() {
    let mut sampler: Sampler<u32> = Sampler::begin(1, None, None, true);
    assert_eq!(sampler.action(), Action::Clean);
    sampler.read(Ok(vec![1]));
    sampler.generated(Ok(2));
    sampler.stored(Ok(()));
    assert_eq!(sampler.action(), Action::Clean);
    sampler.cleaned(Ok(()));
    assert_eq!(sampler.action(), Action::Read);
    sampler.cleaned(Err("late".to_string()));
    assert_eq!(sampler.action(), Action::Read);
    sampler.read(Ok(Vec::new()));
    assert_eq!(sampler.action(), Action::Generate);
    sampler.generated(Ok(9));
    assert_eq!(sampler.action(), Action::Store);
    assert_eq!(*sampler.pending(), 9);
    sampler.generated(Ok(10));
    assert_eq!(*sampler.pending(), 9);
    sampler.stored(Ok(()));
    assert_eq!(sampler.action(), Action::Finish);
    assert_eq!(sampler.finish().ok(), Some(vec![9]));
}
