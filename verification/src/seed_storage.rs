//! The seed corpus: exactly as many seeds as were asked for, taken from the
//! store first and generated for the rest, with a bound on failed attempts.
//!
//! `Corpus` says what a corpus makes of seeds and failed attempts. `Sampling`
//! says what is asked of store and generator, in which order, and what each of
//! their answers leads to. `Seeds` and `Sampler` are the two at run time.

use vstd::prelude::*;
use crate::errors::StatsError;

verus! {

/// How many error messages are kept where the caller names no limit.
pub const DEFAULT_ERROR_MESSAGE_LIMIT: usize = 10;

/// Generates seeds for settings of type `C`.
pub trait Generator<C, S> {
    /// One attempt to generate a seed: the seed, or the reason it failed.
    fn generate(&mut self, settings: &C) -> Result<S, String>;
}

/// Keeps generated seeds between runs, filed under the settings they were
/// generated with.
pub trait FileAccess<C, S> {
    /// Up to `limit` of the seeds kept for `settings`.
    fn read_seeds(&mut self, settings: &C, limit: usize) -> Result<Vec<S>, String>;

    /// Keeps `seed` for `settings`.
    fn write_seed(&mut self, settings: &C, seed: &S) -> Result<(), String>;

    /// Forgets every seed kept for `settings`.
    fn clean_seeds(&mut self, settings: &C) -> Result<(), String>;
}

/// How many failed attempts are tolerated for a sample of `sample_size` seeds
/// where the caller names no number: a tenth of the sample, and ten at least.
pub open spec fn default_tolerated_errors(sample_size: nat) -> nat {
    if sample_size / 10 < 10 {
        10
    } else {
        sample_size / 10
    }
}

/// What a corpus under construction waits for.
#[derive(Clone, Copy, Debug, PartialEq, Eq, Structural)]
pub enum Phase {
    /// Seeds are missing and failures are within the budget: generate one.
    Generating,
    /// The corpus holds every seed that was asked for.
    Complete,
    /// More attempts failed than are tolerated.
    Exhausted,
}

/// One attempt to generate a seed: the seed, or the message of the failure.
pub enum Outcome<S> {
    Generated(S),
    Failed(Seq<char>),
}

/// The state of a corpus under construction.
pub struct Corpus<S> {
    /// How many seeds are asked for.
    pub sample_size: nat,
    /// How many failed attempts are tolerated.
    pub tolerated_errors: nat,
    /// How many error messages are kept.
    pub error_message_limit: nat,
    /// The seeds held so far: those from the store first.
    pub seeds: Seq<S>,
    /// How many of the seeds came from the store.
    pub reused: nat,
    /// How many attempts failed.
    pub failures: nat,
    /// The messages of the first failures, up to the limit.
    pub messages: Seq<Seq<char>>,
}

impl<S> Corpus<S> {
    /// The corpus before the first attempt: it holds the seeds from the
    /// store, cut down to the sample size.
    pub open spec fn start(
        sample_size: nat,
        tolerated_errors: nat,
        error_message_limit: nat,
        cached: Seq<S>,
    ) -> Corpus<S> {
        let reused = if cached.len() <= sample_size {
            cached.len()
        } else {
            sample_size
        };
        Corpus {
            sample_size,
            tolerated_errors,
            error_message_limit,
            seeds: cached.take(reused as int),
            reused,
            failures: 0,
            messages: Seq::empty(),
        }
    }

    /// What the corpus waits for: nothing more once more attempts failed than
    /// are tolerated, or once it holds every seed that was asked for.
    pub open spec fn phase(self) -> Phase {
        if self.failures > self.tolerated_errors {
            Phase::Exhausted
        } else if self.seeds.len() >= self.sample_size {
            Phase::Complete
        } else {
            Phase::Generating
        }
    }

    /// The corpus after a successful attempt. Outside the generating phase
    /// nothing is taken.
    pub open spec fn accept(self, seed: S) -> Corpus<S> {
        if self.phase() == Phase::Generating {
            Corpus { seeds: self.seeds.push(seed), ..self }
        } else {
            self
        }
    }

    /// The corpus after a failed attempt: the failure counts, and its message
    /// is kept while the limit allows. Outside the generating phase nothing
    /// is counted.
    pub open spec fn reject(self, message: Seq<char>) -> Corpus<S> {
        if self.phase() == Phase::Generating {
            Corpus {
                failures: self.failures + 1,
                messages: if self.messages.len() < self.error_message_limit {
                    self.messages.push(message)
                } else {
                    self.messages
                },
                ..self
            }
        } else {
            self
        }
    }

    /// The corpus after one attempt.
    pub open spec fn feed(self, outcome: Outcome<S>) -> Corpus<S> {
        match outcome {
            Outcome::Generated(seed) => self.accept(seed),
            Outcome::Failed(message) => self.reject(message),
        }
    }

    /// The corpus after the attempts `outcomes`, in order.
    pub open spec fn run(self, outcomes: Seq<Outcome<S>>) -> Corpus<S>
        decreases outcomes.len(),
    {
        if outcomes.len() == 0 {
            self
        } else {
            self.run(outcomes.drop_last()).feed(outcomes.last())
        }
    }

    /// How many attempts the corpus has taken note of.
    pub open spec fn attempts(self) -> nat {
        (self.seeds.len() - self.reused + self.failures) as nat
    }

    /// What holds of every corpus that was started and fed.
    pub open spec fn well_formed(self) -> bool {
        &&& self.reused <= self.seeds.len() <= self.sample_size
        &&& self.failures <= self.tolerated_errors + 1
        &&& self.failures > self.tolerated_errors ==> self.seeds.len() < self.sample_size
        &&& self.messages.len() == if self.failures <= self.error_message_limit {
            self.failures
        } else {
            self.error_message_limit
        }
    }
}


/// The text of a list of messages.
pub open spec fn messages_view(messages: Seq<String>) -> Seq<Seq<char>> {
    messages.map_values(|message: String| message@)
}

/// The number of tolerated failures that a caller's choice stands for.
pub open spec fn tolerated_errors_or_default(sample_size: usize, choice: Option<usize>) -> nat {
    match choice {
        Some(tolerated) => tolerated as nat,
        None => default_tolerated_errors(sample_size as nat),
    }
}

/// The limit on kept messages that a caller's choice stands for.
pub open spec fn error_message_limit_or_default(choice: Option<usize>) -> nat {
    match choice {
        Some(limit) => limit as nat,
        None => DEFAULT_ERROR_MESSAGE_LIMIT as nat,
    }
}

/// A corpus stays as it is once it has left the generating phase.
pub proof fn lemma_run_settled<S>(corpus: Corpus<S>, outcomes: Seq<Outcome<S>>)
    requires
        corpus.phase() != Phase::Generating,
    ensures
        corpus.run(outcomes) == corpus,
    decreases outcomes.len(),
{
    if outcomes.len() > 0 {
        lemma_run_settled(corpus, outcomes.drop_last());
    }
}

/// Feeding attempts one run after another is feeding them all at once.
pub proof fn lemma_run_in_parts<S>(corpus: Corpus<S>, first: Seq<Outcome<S>>, second: Seq<Outcome<S>>)
    ensures
        corpus.run(first + second) == corpus.run(first).run(second),
    decreases second.len(),
{
    if second.len() == 0 {
        assert(first + second =~= first);
    } else {
        lemma_run_in_parts(corpus, first, second.drop_last());
        assert((first + second).drop_last() =~= first + second.drop_last());
        assert((first + second).last() == second.last());
    }
}

/// Feeding keeps a corpus well formed.
pub proof fn lemma_run_well_formed<S>(corpus: Corpus<S>, outcomes: Seq<Outcome<S>>)
    requires
        corpus.well_formed(),
    ensures
        corpus.run(outcomes).well_formed(),
        corpus.run(outcomes).sample_size == corpus.sample_size,
        corpus.run(outcomes).tolerated_errors == corpus.tolerated_errors,
        corpus.run(outcomes).error_message_limit == corpus.error_message_limit,
        corpus.run(outcomes).reused == corpus.reused,
    decreases outcomes.len(),
{
    if outcomes.len() > 0 {
        lemma_run_well_formed(corpus, outcomes.drop_last());
    }
}

/// While every attempt fails and the budget holds, a corpus that misses seeds
/// takes no seed and counts every failure.
pub proof fn lemma_run_failures<S>(corpus: Corpus<S>, outcomes: Seq<Outcome<S>>)
    requires
        corpus.seeds.len() < corpus.sample_size,
        corpus.failures + outcomes.len() <= corpus.tolerated_errors + 1,
        forall|i: int| 0 <= i < outcomes.len() ==> (#[trigger] outcomes[i]) is Failed,
    ensures
        corpus.run(outcomes).seeds == corpus.seeds,
        corpus.run(outcomes).failures == corpus.failures + outcomes.len(),
        corpus.run(outcomes).sample_size == corpus.sample_size,
        corpus.run(outcomes).tolerated_errors == corpus.tolerated_errors,
        corpus.run(outcomes).reused == corpus.reused,
    decreases outcomes.len(),
{
    if outcomes.len() > 0 {
        lemma_run_failures(corpus, outcomes.drop_last());
        assert(outcomes.last() == outcomes[outcomes.len() - 1]);
    }
}

/// While every attempt succeeds and seeds are missing, a corpus within its
/// budget takes every seed in order and counts no failure.
pub proof fn lemma_run_successes<S>(corpus: Corpus<S>, outcomes: Seq<Outcome<S>>)
    requires
        corpus.failures <= corpus.tolerated_errors,
        corpus.seeds.len() + outcomes.len() <= corpus.sample_size,
        forall|i: int| 0 <= i < outcomes.len() ==> (#[trigger] outcomes[i]) is Generated,
    ensures
        corpus.run(outcomes).seeds == corpus.seeds + outcomes.map_values(
            |outcome: Outcome<S>| outcome->Generated_0,
        ),
        corpus.run(outcomes).failures == corpus.failures,
        corpus.run(outcomes).sample_size == corpus.sample_size,
        corpus.run(outcomes).tolerated_errors == corpus.tolerated_errors,
        corpus.run(outcomes).reused == corpus.reused,
    decreases outcomes.len(),
{
    let taken = outcomes.map_values(|outcome: Outcome<S>| outcome->Generated_0);
    if outcomes.len() == 0 {
        assert(corpus.seeds + taken =~= corpus.seeds);
    } else {
        let shorter = outcomes.drop_last();
        lemma_run_successes(corpus, shorter);
        assert(outcomes.last() == outcomes[outcomes.len() - 1]);
        assert(corpus.seeds + taken =~= (corpus.seeds + shorter.map_values(
            |outcome: Outcome<S>| outcome->Generated_0,
        )).push(outcomes.last()->Generated_0));
    }
}

/// A corpus that has to generate at least one seed, with a budget of
/// `tolerated_errors` failures, is exhausted by a generator whose first
/// `tolerated_errors + 1` attempts all fail: it exposes no seed beyond those of
/// the store, has counted `tolerated_errors + 1` failures, and ignores whatever
/// the generator does later.
pub proof fn lemma_failures_exhaust<S>(
    sample_size: nat,
    tolerated_errors: nat,
    error_message_limit: nat,
    cached: Seq<S>,
    outcomes: Seq<Outcome<S>>,
)
    requires
        cached.len() < sample_size,
        outcomes.len() > tolerated_errors,
        forall|i: int| 0 <= i <= tolerated_errors ==> (#[trigger] outcomes[i]) is Failed,
    ensures
        ({
            let end = Corpus::start(sample_size, tolerated_errors, error_message_limit, cached).run(
                outcomes,
            );
            &&& end.phase() == Phase::Exhausted
            &&& end.failures == tolerated_errors + 1
            &&& end.seeds == cached
        }),
{
    let begin = Corpus::start(sample_size, tolerated_errors, error_message_limit, cached);
    let failing = outcomes.take(tolerated_errors as int + 1);
    let later = outcomes.skip(tolerated_errors as int + 1);
    assert(outcomes =~= failing + later);
    assert(begin.seeds =~= cached);
    lemma_run_failures(begin, failing);
    lemma_run_in_parts(begin, failing, later);
    lemma_run_settled(begin.run(failing), later);
}

/// A corpus with a budget of `tolerated_errors` failures survives a generator
/// that fails exactly that often and then succeeds once for every seed that
/// the store did not supply: it is complete with exactly `sample_size` seeds,
/// those of the store first and the generated ones after them in order.
pub proof fn lemma_tolerated_failures_then_seeds<S>(
    sample_size: nat,
    tolerated_errors: nat,
    error_message_limit: nat,
    cached: Seq<S>,
    outcomes: Seq<Outcome<S>>,
)
    requires
        cached.len() < sample_size,
        outcomes.len() == tolerated_errors + (sample_size - cached.len()),
        forall|i: int| 0 <= i < tolerated_errors ==> (#[trigger] outcomes[i]) is Failed,
        forall|i: int| tolerated_errors <= i < outcomes.len() ==> (#[trigger] outcomes[i]) is Generated,
    ensures
        ({
            let end = Corpus::start(sample_size, tolerated_errors, error_message_limit, cached).run(
                outcomes,
            );
            &&& end.phase() == Phase::Complete
            &&& end.seeds.len() == sample_size
            &&& end.failures == tolerated_errors
            &&& end.seeds == cached + outcomes.skip(tolerated_errors as int).map_values(
                |outcome: Outcome<S>| outcome->Generated_0,
            )
        }),
{
    let begin = Corpus::start(sample_size, tolerated_errors, error_message_limit, cached);
    let failing = outcomes.take(tolerated_errors as int);
    let succeeding = outcomes.skip(tolerated_errors as int);
    assert(outcomes =~= failing + succeeding);
    assert(begin.seeds =~= cached);
    lemma_run_failures(begin, failing);
    lemma_run_in_parts(begin, failing, succeeding);
    lemma_run_successes(begin.run(failing), succeeding);
}

/// Where the store holds at least as many seeds as are asked for, the corpus
/// is complete from the start with the first `sample_size` of them, and takes
/// note of no attempt, whatever the generator would do.
pub proof fn lemma_full_store_needs_no_generation<S>(
    sample_size: nat,
    tolerated_errors: nat,
    error_message_limit: nat,
    cached: Seq<S>,
    outcomes: Seq<Outcome<S>>,
)
    requires
        cached.len() >= sample_size,
    ensures
        ({
            let begin = Corpus::start(sample_size, tolerated_errors, error_message_limit, cached);
            &&& begin.phase() == Phase::Complete
            &&& begin.seeds == cached.take(sample_size as int)
            &&& begin.attempts() == 0
            &&& begin.run(outcomes) == begin
        }),
{
    let begin = Corpus::start(sample_size, tolerated_errors, error_message_limit, cached);
    lemma_run_settled(begin, outcomes);
}

/// The default budget never shrinks when the sample grows.
pub proof fn lemma_default_tolerated_errors_monotone(smaller: nat, larger: nat)
    requires
        smaller <= larger,
    ensures
        default_tolerated_errors(smaller) <= default_tolerated_errors(larger),
        default_tolerated_errors(smaller) >= 10,
{
}


/// A corpus of seeds under construction, and the finished corpus once it is
/// complete. It never hands out fewer seeds than were asked for.
pub struct Seeds<S> {
    sample_size: usize,
    tolerated_errors: usize,
    error_message_limit: usize,
    seeds: Vec<S>,
    reused: usize,
    /// The failures within the budget; the one that exceeds it is `exhausted`.
    error_count: usize,
    errors: Vec<String>,
    exhausted: bool,
}

impl<S> View for Seeds<S> {
    type V = Corpus<S>;

    closed spec fn view(&self) -> Corpus<S> {
        Corpus {
            sample_size: self.sample_size as nat,
            tolerated_errors: self.tolerated_errors as nat,
            error_message_limit: self.error_message_limit as nat,
            seeds: self.seeds@,
            reused: self.reused as nat,
            failures: if self.exhausted {
                self.error_count as nat + 1
            } else {
                self.error_count as nat
            },
            messages: messages_view(self.errors@),
        }
    }
}

/// The default number of tolerated failures for a sample of `sample_size`.
fn tolerated_by_default(sample_size: usize) -> (tolerated: usize)
    ensures
        tolerated == default_tolerated_errors(sample_size as nat),
{
    if sample_size / 10 < 10 {
        10
    } else {
        sample_size / 10
    }
}

impl<S> Seeds<S> {
    /// What `start` establishes and every method keeps.
    pub closed spec fn wf(&self) -> bool {
        &&& self@.well_formed()
        &&& self.error_count <= self.tolerated_errors
        &&& self.exhausted ==> self.error_count == self.tolerated_errors
    }

    /// A corpus that holds the seeds read from the store, cut down to
    /// `sample_size`, and has seen no attempt yet.
    pub fn start(
        sample_size: usize,
        tolerated_errors: Option<usize>,
        error_message_limit: Option<usize>,
        cached: Vec<S>,
    ) -> (corpus: Seeds<S>)
        ensures
            corpus.wf(),
            corpus@ == Corpus::start(
                sample_size as nat,
                tolerated_errors_or_default(sample_size, tolerated_errors),
                error_message_limit_or_default(error_message_limit),
                cached@,
            ),
    {
        let tolerated_errors = match tolerated_errors {
            Some(tolerated) => tolerated,
            None => tolerated_by_default(sample_size),
        };
        let error_message_limit = match error_message_limit {
            Some(limit) => limit,
            None => DEFAULT_ERROR_MESSAGE_LIMIT,
        };
        let mut seeds = cached;
        if seeds.len() > sample_size {
            seeds.truncate(sample_size);
        }
        let reused = seeds.len();
        proof {
            assert(seeds@ =~= cached@.take(reused as int));
            assert(messages_view(Seq::<String>::empty()) =~= Seq::<Seq<char>>::empty());
        }
        Seeds {
            sample_size,
            tolerated_errors,
            error_message_limit,
            seeds,
            reused,
            error_count: 0,
            errors: Vec::new(),
            exhausted: false,
        }
    }

    /// Builds the corpus for `settings` by a sampling that leaves the store as
    /// it is: reads up to `sample_size` seeds from the store, then generates
    /// the missing ones, writing each to the store as soon as it exists. A
    /// failed attempt takes no place in the corpus; it is counted, and one
    /// failure more than tolerated ends the construction. A failure of the
    /// store ends it at once.
    ///
    /// Whatever store and generator do, a corpus that comes back is complete,
    /// and both it and a report of too many failures are what `start`,
    /// `accept` and `reject` make of the seeds that were read and the attempts
    /// that were made.
    pub fn new<C, G: Generator<C, S>, F: FileAccess<C, S>>(
        settings: &C,
        sample_size: usize,
        tolerated_errors: Option<usize>,
        error_message_limit: Option<usize>,
        generator: &mut G,
        files: &mut F,
    ) -> (result: Result<Seeds<S>, StatsError>)
        ensures
            match result {
                Ok(corpus) => {
                    &&& corpus.wf()
                    &&& corpus@.phase() == Phase::Complete
                    &&& corpus@.seeds.len() == sample_size
                    &&& exists|cached: Seq<S>, outcomes: Seq<Outcome<S>>|
                        corpus@ == #[trigger] Corpus::start(
                            sample_size as nat,
                            tolerated_errors_or_default(sample_size, tolerated_errors),
                            error_message_limit_or_default(error_message_limit),
                            cached,
                        ).run(outcomes)
                },
                Err(StatsError::SeedGeneration { failures, messages }) => {
                    let tolerated = tolerated_errors_or_default(sample_size, tolerated_errors);
                    let limit = error_message_limit_or_default(error_message_limit);
                    &&& failures == if tolerated + 1 <= usize::MAX {
                        tolerated + 1
                    } else {
                        usize::MAX as nat
                    }
                    &&& messages@.len() == if tolerated + 1 <= limit {
                        tolerated + 1
                    } else {
                        limit
                    }
                    &&& exists|cached: Seq<S>, outcomes: Seq<Outcome<S>>|
                        {
                            let end = #[trigger] Corpus::start(
                                sample_size as nat,
                                tolerated_errors_or_default(sample_size, tolerated_errors),
                                error_message_limit_or_default(error_message_limit),
                                cached,
                            ).run(outcomes);
                            &&& end.phase() == Phase::Exhausted
                            &&& end.well_formed()
                            &&& failures == if end.failures <= usize::MAX {
                                end.failures
                            } else {
                                usize::MAX as nat
                            }
                            &&& messages_view(messages@) == end.messages
                        }
                },
                Err(StatsError::Storage(message)) => exists|events: Seq<Event<S>>|
                    (#[trigger] Sampling::<S>::begin(
                        sample_size as nat,
                        tolerated_errors_or_default(sample_size, tolerated_errors),
                        error_message_limit_or_default(error_message_limit),
                        false,
                    ).follow(events)).storage_failure == Some(message@),
                Err(StatsError::CountOverflow) => false,
            },
    {
        Sampler::begin(sample_size, tolerated_errors, error_message_limit, false).drive(
            settings,
            generator,
            files,
        ).into_corpus()
    }

    /// What the corpus waits for.
    pub fn phase(&self) -> (phase: Phase)
        requires
            self.wf(),
        ensures
            phase == self@.phase(),
    {
        if self.exhausted {
            Phase::Exhausted
        } else if self.seeds.len() >= self.sample_size {
            Phase::Complete
        } else {
            Phase::Generating
        }
    }

    /// Takes a generated seed into the corpus. A corpus that is complete or
    /// exhausted drops it.
    pub fn accept(&mut self, seed: S)
        requires
            old(self).wf(),
        ensures
            final(self).wf(),
            final(self)@ == old(self)@.accept(seed),
    {
        if !self.exhausted && self.seeds.len() < self.sample_size {
            self.seeds.push(seed);
        }
    }

    /// Takes note of a failed attempt. The message is kept while the limit
    /// allows; the failure counts either way. A corpus that is complete or
    /// exhausted ignores it.
    pub fn reject(&mut self, message: String)
        requires
            old(self).wf(),
        ensures
            final(self).wf(),
            final(self)@ == old(self)@.reject(message@),
    {
        if !self.exhausted && self.seeds.len() < self.sample_size {
            if self.errors.len() < self.error_message_limit {
                assert(messages_view(self.errors@.push(message)) =~= messages_view(self.errors@).push(
                    message@,
                ));
                self.errors.push(message);
            }
            if self.error_count < self.tolerated_errors {
                self.error_count += 1;
            } else {
                self.exhausted = true;
            }
        }
    }

    /// How many seeds the corpus holds.
    pub fn len(&self) -> (len: usize)
        ensures
            len == self@.seeds.len(),
    {
        self.seeds.len()
    }

    /// How many of the seeds came from the store.
    pub fn reused(&self) -> (reused: usize)
        ensures
            reused == self@.reused,
    {
        self.reused
    }

    /// How many attempts failed, as far as a `usize` can tell.
    pub fn failures(&self) -> (failures: usize)
        requires
            self.wf(),
        ensures
            failures == if self@.failures <= usize::MAX {
                self@.failures
            } else {
                usize::MAX as nat
            },
    {
        if self.exhausted && self.error_count < usize::MAX {
            self.error_count + 1
        } else {
            self.error_count
        }
    }

    /// Ends the construction. A complete corpus gives its seeds, those of the
    /// store first. Any other gives none of them, but the failures it counted
    /// and the messages it kept.
    pub fn into_seeds(self) -> (result: Result<Vec<S>, StatsError>)
        requires
            self.wf(),
        ensures
            self@.phase() == Phase::Complete ==> (result matches Ok(seeds) && seeds@ == self@.seeds),
            self@.phase() != Phase::Complete ==> {
                &&& result matches Err(StatsError::SeedGeneration { failures, messages })
                &&& failures == if self@.failures <= usize::MAX {
                    self@.failures
                } else {
                    usize::MAX as nat
                }
                &&& messages_view(messages@) == self@.messages
            },
    {
        if !self.exhausted && self.seeds.len() >= self.sample_size {
            Ok(self.seeds)
        } else {
            Err(self.into_error())
        }
    }

    /// The report of a construction that did not end with a complete corpus.
    fn into_error(self) -> (error: StatsError)
        requires
            self.wf(),
        ensures
            error matches StatsError::SeedGeneration { failures, messages },
            error matches StatsError::SeedGeneration { failures, messages } ==> {
                &&& failures == if self@.failures <= usize::MAX {
                    self@.failures
                } else {
                    usize::MAX as nat
                }
                &&& messages_view(messages@) == self@.messages
            },
    {
        let failures = self.failures();
        StatsError::SeedGeneration { failures, messages: self.errors }
    }
}

/// What a sampling asks of the store or the generator next.
#[derive(Clone, Copy, Debug, PartialEq, Eq, Structural)]
pub enum Action {
    /// Throw away the seeds kept for the settings.
    Clean,
    /// Read the seeds kept for the settings.
    Read,
    /// Generate a seed.
    Generate,
    /// Keep the seed that was generated last.
    Store,
    /// Nothing more: the sampling has ended.
    Finish,
}

/// What came of an action.
pub enum Event<S> {
    /// The store was cleaned, or failed with this message.
    Cleaned(Option<Seq<char>>),
    /// These seeds were read from the store, or it failed with this message.
    Read(Result<Seq<S>, Seq<char>>),
    /// An attempt to generate a seed.
    Generated(Outcome<S>),
    /// The seed was kept, or the store failed with this message.
    Stored(Option<Seq<char>>),
}

/// The state of a sampling: of the whole exchange with store and generator
/// that makes a corpus.
pub struct Sampling<S> {
    /// What is asked for next.
    pub action: Action,
    /// The corpus so far.
    pub corpus: Corpus<S>,
    /// The seed that was generated and is not kept yet.
    pub pending: Option<S>,
    /// The message of the store, once it has failed.
    pub storage_failure: Option<Seq<char>>,
}

impl<S> Sampling<S> {
    /// A sampling before its first action: it begins with cleaning the store
    /// exactly if `overwrite` says so, and with reading it otherwise.
    pub open spec fn begin(
        sample_size: nat,
        tolerated_errors: nat,
        error_message_limit: nat,
        overwrite: bool,
    ) -> Sampling<S> {
        Sampling {
            action: if overwrite {
                Action::Clean
            } else {
                Action::Read
            },
            corpus: Corpus::start(sample_size, tolerated_errors, error_message_limit, Seq::empty()),
            pending: None,
            storage_failure: None,
        }
    }

    /// What a sampling with the corpus `corpus` asks for between attempts.
    pub open spec fn next_for(corpus: Corpus<S>) -> Action {
        if corpus.phase() == Phase::Generating {
            Action::Generate
        } else {
            Action::Finish
        }
    }

    /// The sampling after the store has failed: it has ended.
    pub open spec fn failed(self, message: Seq<char>) -> Sampling<S> {
        Sampling {
            action: Action::Finish,
            pending: None,
            storage_failure: Some(message),
            ..self
        }
    }

    /// The sampling after `event`. An event that was not asked for changes
    /// nothing.
    pub open spec fn on(self, event: Event<S>) -> Sampling<S> {
        match (self.action, event) {
            (Action::Clean, Event::Cleaned(None)) => Sampling { action: Action::Read, ..self },
            (Action::Clean, Event::Cleaned(Some(message))) => self.failed(message),
            (Action::Read, Event::Read(Ok(cached))) => {
                let corpus = Corpus::start(
                    self.corpus.sample_size,
                    self.corpus.tolerated_errors,
                    self.corpus.error_message_limit,
                    cached,
                );
                Sampling { action: Self::next_for(corpus), corpus, ..self }
            },
            (Action::Read, Event::Read(Err(message))) => self.failed(message),
            (Action::Generate, Event::Generated(Outcome::Generated(seed))) => Sampling {
                action: Action::Store,
                pending: Some(seed),
                ..self
            },
            (Action::Generate, Event::Generated(Outcome::Failed(message))) => {
                let corpus = self.corpus.reject(message);
                Sampling { action: Self::next_for(corpus), corpus, ..self }
            },
            (Action::Store, Event::Stored(None)) => {
                let corpus = self.corpus.accept(self.pending->0);
                Sampling { action: Self::next_for(corpus), corpus, pending: None, ..self }
            },
            (Action::Store, Event::Stored(Some(message))) => self.failed(message),
            _ => self,
        }
    }

    /// The sampling after the events `events`, in order.
    pub open spec fn follow(self, events: Seq<Event<S>>) -> Sampling<S>
        decreases events.len(),
    {
        if events.len() == 0 {
            self
        } else {
            self.follow(events.drop_last()).on(events.last())
        }
    }

    /// What holds of every sampling that was begun and went on by `on`.
    pub open spec fn well_formed(self) -> bool {
        &&& self.corpus.well_formed()
        &&& self.action == Action::Store <==> self.pending is Some
        &&& self.action == Action::Generate || self.action == Action::Store
            ==> self.corpus.phase() == Phase::Generating && self.storage_failure is None
        &&& self.action == Action::Clean || self.action == Action::Read
            ==> self.storage_failure is None
        &&& self.action == Action::Finish && self.storage_failure is None ==> self.corpus.phase()
            != Phase::Generating
    }
}

/// A sampling that does not ask for cleaning never asks for it later.
pub proof fn lemma_never_cleaned_later<S>(sampling: Sampling<S>, events: Seq<Event<S>>)
    requires
        sampling.action != Action::Clean,
    ensures
        sampling.follow(events).action != Action::Clean,
    decreases events.len(),
{
    if events.len() > 0 {
        lemma_never_cleaned_later(sampling, events.drop_last());
    }
}

/// A sampling begins with cleaning the store exactly if it is told to
/// overwrite what is kept. Then cleaning is the first thing asked for, reading
/// follows it, and cleaning is never asked for again; a sampling that is not
/// told to overwrite never asks for it.
pub proof fn lemma_cleaning_comes_first<S>(
    sample_size: nat,
    tolerated_errors: nat,
    error_message_limit: nat,
    overwrite: bool,
    events: Seq<Event<S>>,
)
    ensures
        ({
            let begin = Sampling::<S>::begin(
                sample_size,
                tolerated_errors,
                error_message_limit,
                overwrite,
            );
            &&& begin.action == if overwrite {
                Action::Clean
            } else {
                Action::Read
            }
            &&& begin.on(Event::Cleaned(None)).action == Action::Read
            &&& begin.on(Event::Cleaned(None)).follow(events).action != Action::Clean
            &&& !overwrite ==> begin.follow(events).action != Action::Clean
        }),
{
    let begin = Sampling::<S>::begin(sample_size, tolerated_errors, error_message_limit, overwrite);
    lemma_never_cleaned_later(begin.on(Event::Cleaned(None)), events);
    if !overwrite {
        lemma_never_cleaned_later(begin, events);
    }
}

/// A seed that was generated is kept at once: the next thing asked for is to
/// store that very seed, and only when the store has kept it is it part of
/// the corpus, as its last seed so far.
pub proof fn lemma_generated_seed_is_stored_at_once<S>(sampling: Sampling<S>, seed: S)
    requires
        sampling.well_formed(),
        sampling.action == Action::Generate,
    ensures
        ({
            let generated = sampling.on(Event::Generated(Outcome::Generated(seed)));
            &&& generated.action == Action::Store
            &&& generated.pending == Some(seed)
            &&& generated.corpus == sampling.corpus
            &&& generated.on(Event::Stored(None)).corpus.seeds == sampling.corpus.seeds.push(seed)
        }),
{
}

/// A failure of the store ends the sampling at once, whatever was asked of
/// it, and its message is what the sampling reports.
pub proof fn lemma_store_failure_is_final<S>(
    sampling: Sampling<S>,
    message: Seq<char>,
    later: Seq<Event<S>>,
)
    requires
        sampling.storage_failure is None,
    ensures
        sampling.action == Action::Clean ==> sampling.on(
            Event::Cleaned(Some(message)),
        ).follow(later) == sampling.failed(message),
        sampling.action == Action::Read ==> sampling.on(Event::Read(Err(message))).follow(later)
            == sampling.failed(message),
        sampling.action == Action::Store ==> sampling.on(Event::Stored(Some(message))).follow(later)
            == sampling.failed(message),
        sampling.failed(message).action == Action::Finish,
        sampling.failed(message).storage_failure == Some(message),
    decreases later.len(),
{
    if later.len() > 0 {
        lemma_store_failure_is_final(sampling, message, later.drop_last());
    }
}

/// What the store answered, as an event.
pub open spec fn failure_view(answer: Result<(), String>) -> Option<Seq<char>> {
    match answer {
        Ok(()) => None,
        Err(message) => Some(message@),
    }
}

/// What was read from the store, as an event.
pub open spec fn read_view<S>(answer: Result<Vec<S>, String>) -> Result<Seq<S>, Seq<char>> {
    match answer {
        Ok(cached) => Ok(cached@),
        Err(message) => Err(message@),
    }
}

/// What the generator answered, as an event.
pub open spec fn outcome_view<S>(answer: Result<S, String>) -> Outcome<S> {
    match answer {
        Ok(seed) => Outcome::Generated(seed),
        Err(message) => Outcome::Failed(message@),
    }
}

/// The exchange with store and generator that makes a corpus, one action at
/// a time: it says what to ask for next and takes note of what came of it.
pub struct Sampler<S> {
    action: Action,
    corpus: Seeds<S>,
    pending: Option<S>,
    storage_failure: Option<String>,
    tolerated_errors: Option<usize>,
    error_message_limit: Option<usize>,
}

impl<S> View for Sampler<S> {
    type V = Sampling<S>;

    closed spec fn view(&self) -> Sampling<S> {
        Sampling {
            action: self.action,
            corpus: self.corpus@,
            pending: self.pending,
            storage_failure: match self.storage_failure {
                Some(message) => Some(message@),
                None => None,
            },
        }
    }
}

impl<S> Sampler<S> {
    /// What `begin` establishes and every method keeps.
    pub closed spec fn wf(&self) -> bool {
        &&& self.corpus.wf()
        &&& self@.well_formed()
        &&& self.corpus@.tolerated_errors == tolerated_errors_or_default(
            self.corpus.sample_size,
            self.tolerated_errors,
        )
        &&& self.corpus@.error_message_limit == error_message_limit_or_default(
            self.error_message_limit,
        )
    }

    /// A sampling of `sample_size` seeds before its first action.
    pub fn begin(
        sample_size: usize,
        tolerated_errors: Option<usize>,
        error_message_limit: Option<usize>,
        overwrite: bool,
    ) -> (sampler: Sampler<S>)
        ensures
            sampler.wf(),
            sampler@ == Sampling::<S>::begin(
                sample_size as nat,
                tolerated_errors_or_default(sample_size, tolerated_errors),
                error_message_limit_or_default(error_message_limit),
                overwrite,
            ),
    {
        Sampler {
            action: if overwrite {
                Action::Clean
            } else {
                Action::Read
            },
            corpus: Seeds::start(sample_size, tolerated_errors, error_message_limit, Vec::new()),
            pending: None,
            storage_failure: None,
            tolerated_errors,
            error_message_limit,
        }
    }

    /// What to ask for next.
    pub fn action(&self) -> (action: Action)
        ensures
            action == self@.action,
    {
        self.action
    }

    /// How many seeds are asked for.
    pub fn sample_size(&self) -> (sample_size: usize)
        ensures
            sample_size == self@.corpus.sample_size,
    {
        self.corpus.sample_size
    }

    /// Ends the sampling with the message of the store.
    fn fail(&mut self, message: String)
        requires
            old(self).wf(),
        ensures
            final(self).wf(),
            final(self)@ == old(self)@.failed(message@),
    {
        self.action = Action::Finish;
        self.pending = None;
        self.storage_failure = Some(message);
    }

    /// Asks for another attempt while the corpus misses seeds, and for nothing
    /// more once it does not.
    fn go_on(&mut self)
        requires
            old(self).corpus.wf(),
        ensures
            final(self).action == Sampling::next_for(old(self).corpus@),
            final(self).corpus == old(self).corpus,
            final(self).pending == old(self).pending,
            final(self).storage_failure == old(self).storage_failure,
            final(self).tolerated_errors == old(self).tolerated_errors,
            final(self).error_message_limit == old(self).error_message_limit,
    {
        self.action = match self.corpus.phase() {
            Phase::Generating => Action::Generate,
            _ => Action::Finish,
        };
    }

    /// Takes note of what came of cleaning the store.
    pub fn cleaned(&mut self, answer: Result<(), String>)
        requires
            old(self).wf(),
        ensures
            final(self).wf(),
            final(self)@ == old(self)@.on(Event::Cleaned(failure_view(answer))),
    {
        match self.action {
            Action::Clean => match answer {
                Ok(()) => {
                    self.action = Action::Read;
                },
                Err(message) => {
                    self.fail(message);
                },
            },
            _ => {},
        }
    }

    /// Takes note of what was read from the store: the corpus begins with up
    /// to as many of these seeds as are asked for.
    pub fn read(&mut self, answer: Result<Vec<S>, String>)
        requires
            old(self).wf(),
        ensures
            final(self).wf(),
            final(self)@ == old(self)@.on(Event::Read(read_view(answer))),
    {
        match self.action {
            Action::Read => match answer {
                Ok(cached) => {
                    self.corpus = Seeds::start(
                        self.corpus.sample_size,
                        self.tolerated_errors,
                        self.error_message_limit,
                        cached,
                    );
                    self.go_on();
                },
                Err(message) => {
                    self.fail(message);
                },
            },
            _ => {},
        }
    }

    /// Takes note of an attempt to generate a seed. A seed waits to be kept;
    /// a failure counts against the budget.
    pub fn generated(&mut self, answer: Result<S, String>)
        requires
            old(self).wf(),
        ensures
            final(self).wf(),
            final(self)@ == old(self)@.on(Event::Generated(outcome_view(answer))),
    {
        match self.action {
            Action::Generate => match answer {
                Ok(seed) => {
                    self.pending = Some(seed);
                    self.action = Action::Store;
                },
                Err(message) => {
                    self.corpus.reject(message);
                    self.go_on();
                },
            },
            _ => {},
        }
    }

    /// The seed that is to be kept.
    pub fn pending(&self) -> (seed: &S)
        requires
            self.wf(),
            self@.action == Action::Store,
        ensures
            self@.pending == Some(*seed),
    {
        self.pending.as_ref().unwrap()
    }

    /// Takes note of what came of keeping the seed: once it is kept, it is a
    /// seed of the corpus.
    pub fn stored(&mut self, answer: Result<(), String>)
        requires
            old(self).wf(),
        ensures
            final(self).wf(),
            final(self)@ == old(self)@.on(Event::Stored(failure_view(answer))),
    {
        match self.action {
            Action::Store => match answer {
                Ok(()) => {
                    match self.pending.take() {
                        Some(seed) => {
                            self.corpus.accept(seed);
                        },
                        None => {},
                    }
                    self.go_on();
                },
                Err(message) => {
                    self.fail(message);
                },
            },
            _ => {},
        }
    }

    /// Carries the sampling to its end: asks store and generator for what the
    /// sampling asks for, one action after the other, and hands each answer
    /// back to it. The seed handed to the store is the one that waits to be
    /// kept.
    ///
    /// Whatever store and generator answer, the sampling that comes back has
    /// ended and is what `on` makes of the answers. Where it was carried from
    /// its beginning and the store did not fail, its corpus is what `start`,
    /// `accept` and `reject` make of the seeds that were read and the attempts
    /// that were made.
    pub fn drive<C, G: Generator<C, S>, F: FileAccess<C, S>>(
        self,
        settings: &C,
        generator: &mut G,
        files: &mut F,
    ) -> (done: Sampler<S>)
        requires
            self.wf(),
        ensures
            done.wf(),
            done@.well_formed(),
            done@.action == Action::Finish,
            exists|events: Seq<Event<S>>| done@ == #[trigger] self@.follow(events),
            done@.corpus.sample_size == self@.corpus.sample_size,
            done@.corpus.tolerated_errors == self@.corpus.tolerated_errors,
            done@.corpus.error_message_limit == self@.corpus.error_message_limit,
            (self@.action == Action::Clean || self@.action == Action::Read)
                && done@.storage_failure is None ==> exists|
                cached: Seq<S>,
                outcomes: Seq<Outcome<S>>,
            |
                done@.corpus == #[trigger] Corpus::start(
                    self@.corpus.sample_size,
                    self@.corpus.tolerated_errors,
                    self@.corpus.error_message_limit,
                    cached,
                ).run(outcomes),
    {
        let ghost begin = self@;
        let ghost fresh = begin.action == Action::Clean || begin.action == Action::Read;
        let ghost mut events: Seq<Event<S>> = Seq::empty();
        let ghost mut cached: Seq<S> = Seq::empty();
        let ghost mut outcomes: Seq<Outcome<S>> = Seq::empty();
        let mut sampler = self;
        loop
            invariant
                sampler.wf(),
                sampler@ == begin.follow(events),
                sampler@.corpus.sample_size == begin.corpus.sample_size,
                sampler@.corpus.tolerated_errors == begin.corpus.tolerated_errors,
                sampler@.corpus.error_message_limit == begin.corpus.error_message_limit,
                fresh && sampler@.action != Action::Clean && sampler@.action != Action::Read
                    && sampler@.storage_failure is None ==> sampler@.corpus == Corpus::start(
                    begin.corpus.sample_size,
                    begin.corpus.tolerated_errors,
                    begin.corpus.error_message_limit,
                    cached,
                ).run(outcomes),
            ensures
                sampler@.action == Action::Finish,
            decreases action_rank(sampler@.action), attempts_left(sampler@),
        {
            let ghost before = sampler@;
            let ghost told = events;
            match sampler.action() {
                Action::Clean => {
                    let answer = files.clean_seeds(settings);
                    proof {
                        events = told.push(Event::Cleaned(failure_view(answer)));
                    }
                    sampler.cleaned(answer);
                },
                Action::Read => {
                    let answer = files.read_seeds(settings, sampler.sample_size());
                    proof {
                        events = told.push(Event::Read(read_view(answer)));
                        if answer is Ok {
                            cached = answer->Ok_0@;
                            outcomes = Seq::empty();
                        }
                    }
                    sampler.read(answer);
                },
                Action::Generate => {
                    let answer = generator.generate(settings);
                    proof {
                        events = told.push(Event::Generated(outcome_view(answer)));
                        if answer is Err {
                            let so_far = outcomes;
                            outcomes = so_far.push(Outcome::Failed(answer->Err_0@));
                            assert(outcomes.drop_last() =~= so_far);
                        }
                    }
                    sampler.generated(answer);
                },
                Action::Store => {
                    let answer = files.write_seed(settings, sampler.pending());
                    proof {
                        events = told.push(Event::Stored(failure_view(answer)));
                        if answer is Ok {
                            let so_far = outcomes;
                            outcomes = so_far.push(Outcome::Generated(before.pending->0));
                            assert(outcomes.drop_last() =~= so_far);
                        }
                    }
                    sampler.stored(answer);
                },
                Action::Finish => {
                    break ;
                },
            }
            proof {
                assert(events.drop_last() =~= told);
            }
        }
        sampler
    }

    /// Ends the sampling. Where the store failed, its message is the error.
    /// Otherwise a complete corpus comes back, and any other corpus gives
    /// none of its seeds, but the failures it counted and the messages it
    /// kept.
    pub fn into_corpus(self) -> (result: Result<Seeds<S>, StatsError>)
        requires
            self.wf(),
        ensures
            match self@.storage_failure {
                Some(message) => result matches Err(StatsError::Storage(text)) && text@ == message,
                None => if self@.corpus.phase() == Phase::Complete {
                    result matches Ok(corpus) && corpus.wf() && corpus@ == self@.corpus
                } else {
                    &&& result matches Err(StatsError::SeedGeneration { failures, messages })
                    &&& failures == if self@.corpus.failures <= usize::MAX {
                        self@.corpus.failures
                    } else {
                        usize::MAX as nat
                    }
                    &&& messages_view(messages@) == self@.corpus.messages
                },
            },
    {
        match self.storage_failure {
            Some(message) => Err(StatsError::Storage(message)),
            None => match self.corpus.phase() {
                Phase::Complete => Ok(self.corpus),
                _ => Err(self.corpus.into_error()),
            },
        }
    }
}

impl<S> Sampler<S> {
    /// Ends the sampling and hands out the seeds of its corpus. Where the
    /// store failed, its message is the error. Otherwise a complete corpus
    /// gives its seeds, those of the store first, and any other corpus gives
    /// none of them, but the failures it counted and the messages it kept.
    pub fn finish(self) -> (result: Result<Vec<S>, StatsError>)
        requires
            self.wf(),
        ensures
            match self@.storage_failure {
                Some(message) => result matches Err(StatsError::Storage(text)) && text@ == message,
                None => if self@.corpus.phase() == Phase::Complete {
                    result matches Ok(seeds) && seeds@ == self@.corpus.seeds
                } else {
                    &&& result matches Err(StatsError::SeedGeneration { failures, messages })
                    &&& failures == if self@.corpus.failures <= usize::MAX {
                        self@.corpus.failures
                    } else {
                        usize::MAX as nat
                    }
                    &&& messages_view(messages@) == self@.corpus.messages
                },
            },
    {
        match self.storage_failure {
            Some(message) => Err(StatsError::Storage(message)),
            None => self.corpus.into_seeds(),
        }
    }
}

/// How far a sampling that asks for `action` is from its end, by what it
/// asks for.
pub open spec fn action_rank(action: Action) -> int {
    match action {
        Action::Clean => 3,
        Action::Read => 2,
        Action::Generate => 1,
        Action::Store => 1,
        Action::Finish => 0,
    }
}

/// A bound on the answers that a sampling can still ask for while it
/// generates and stores.
pub open spec fn attempts_left<S>(sampling: Sampling<S>) -> int {
    let corpus = sampling.corpus;
    let missing = corpus.sample_size - corpus.seeds.len();
    let budget = corpus.tolerated_errors + 1 - corpus.failures;
    match sampling.action {
        Action::Generate => 2 * (missing + budget) + 1,
        Action::Store => 2 * (missing + budget),
        _ => 0,
    }
}

} // verus!
