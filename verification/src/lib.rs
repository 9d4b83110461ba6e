//! Statistics over generated seeds: sample a corpus of seeds, classify each
//! seed along chains of analyzers, and count how often each combination of
//! labels occurs.

pub mod analyzers;
pub mod errors;
pub mod options;
pub mod presets;
pub mod report;
pub mod row_order;
pub mod seed_files;
pub mod seed_storage;
pub mod text;
pub mod world_opts;

use vstd::prelude::*;

use analyzers::{
    chain_headings, chain_labels, chain_titles, classify, label_lists_view, labels_of,
    lemma_product_shape, Analyzer, ChainedAnalyzers, Key,
};
use errors::StatsError;
use report::{
    corpus_tally, lemma_ambiguous_seed_counts, lemma_corpus_tally_adds, lemma_tally_count,
    lemma_unambiguous_counts_add_up, seed_tally,
};
use seed_storage::{
    error_message_limit_or_default, messages_view, tolerated_errors_or_default, Action, Event,
    FileAccess, Generator, Phase, Sampler, Sampling,
};

pub use report::Stats;

verus! {

/// Arguments passed to [`stats`].
#[verifier::reject_recursive_types(S)]
pub struct StatsArgs<C, S, G> {
    /// The settings to generate seeds with. Seeds are kept in the store under
    /// these settings.
    pub settings: C,
    /// How many seeds to analyze.
    pub sample_size: usize,
    /// Any number of chains of analyzers. Each chain gets a report of its
    /// own; the analyzers within one chain are applied together, one label of
    /// each making up a key.
    pub analyzers: Vec<ChainedAnalyzers<S>>,
    /// What generates the seeds that the store does not hold.
    pub generator: G,
    /// How many errors during seed generation are tolerated before aborting;
    /// `None` stands for a number that goes by `sample_size`.
    pub tolerated_errors: Option<usize>,
    /// How many error messages are kept for the report of an abort; `None`
    /// stands for ten.
    pub error_message_limit: Option<usize>,
    /// If `true`, the seeds kept for `settings` are thrown away first, and
    /// every seed is generated from scratch.
    pub overwrite_seed_storage: bool,
}

/// Whether `report` is what `chain` makes of the corpus `seeds`: it has the
/// headings of the chain, each of its keys has one label for each analyzer and
/// has occurred at least once, and the keys it has counted are the
/// combinations of the labels that the analyzers of the chain give to each
/// seed.
pub open spec fn reports_on<S>(report: Stats, chain: Seq<Box<dyn Analyzer<S>>>, seeds: Seq<S>) -> bool {
    &&& report.wf()
    &&& report.titles() == chain_headings(chain)
    &&& report.keys_of_length(chain.len())
    &&& report.positive()
    &&& report.tally() == corpus_tally(labels_of(chain, seeds))
}

/// Whether `reports` holds, for each of `chains` in order, what the chain
/// makes of the corpus `seeds`.
pub open spec fn report_on<S>(reports: Seq<Stats>, chains: Seq<ChainedAnalyzers<S>>, seeds: Seq<S>) -> bool {
    &&& reports.len() == chains.len()
    &&& forall|chain: int|
        0 <= chain < chains.len() ==> reports_on(#[trigger] reports[chain], chains[chain]@, seeds)
}

/// Whether under one of `chains` some key occurs in the corpus `seeds` more
/// often than a count can hold.
pub open spec fn overflows<S>(chains: Seq<ChainedAnalyzers<S>>, seeds: Seq<S>) -> bool {
    exists|chain: int, key: Key|
        0 <= chain < chains.len() && #[trigger] corpus_tally(
            labels_of(chains[chain]@, seeds),
        ).count(key) > u32::MAX
}

/// Under a chain of at least one analyzer, each of which gives every seed of
/// the corpus exactly one label, the counts of the chain's report add up to the
/// number of seeds.
pub proof fn lemma_unambiguous_chain_counts_every_seed_once<S>(
    report: Stats,
    chain: Seq<Box<dyn Analyzer<S>>>,
    seeds: Seq<S>,
)
    requires
        reports_on(report, chain, seeds),
        chain.len() > 0,
        forall|analyzer: int, seed: int|
            0 <= analyzer < chain.len() && 0 <= seed < seeds.len() ==> (#[trigger] chain[analyzer].labels(
                &seeds[seed],
            )).len() == 1,
    ensures
        report.tally().len() == seeds.len(),
{
    let observed = labels_of(chain, seeds);
    assert forall|seed: int, analyzer: int|
        0 <= seed < observed.len() && 0 <= analyzer < observed[seed].len() implies (
    #[trigger] observed[seed][analyzer]).len() == 1 by {
        assert(chain[analyzer].labels(&seeds[seed]).len() == 1);
    }
    lemma_unambiguous_counts_add_up(observed);
}

/// A seed to which one analyzer of a chain gives `k` labels, and every other
/// analyzer of the chain one, adds `k` to the counts of the chain's report,
/// not one.
pub proof fn lemma_ambiguous_analyzer_counts_every_label<S>(
    chain: Seq<Box<dyn Analyzer<S>>>,
    seeds: Seq<S>,
    seed: S,
    ambiguous: int,
    k: nat,
)
    requires
        0 <= ambiguous < chain.len(),
        chain[ambiguous].labels(&seed).len() == k,
        forall|analyzer: int|
            0 <= analyzer < chain.len() && analyzer != ambiguous ==> (#[trigger] chain[analyzer].labels(
                &seed,
            )).len() == 1,
    ensures
        corpus_tally(labels_of(chain, seeds.push(seed))).len() == corpus_tally(
            labels_of(chain, seeds),
        ).len() + k,
{
    let lists = chain_labels(chain, &seed);
    assert forall|i: int| 0 <= i < lists.len() && i != ambiguous implies (#[trigger] lists[i]).len()
        == 1 by {
        assert(chain[i].labels(&seed).len() == 1);
    }
    lemma_ambiguous_seed_counts(corpus_tally(labels_of(chain, seeds)), lists, ambiguous, k);
    assert(labels_of(chain, seeds.push(seed)) =~= labels_of(chain, seeds).push(lists));
}

/// No key occurs less often in a corpus than in its beginning.
proof fn lemma_corpus_grows<S>(chain: Seq<Box<dyn Analyzer<S>>>, seeds: Seq<S>, n: int, key: Key)
    requires
        0 <= n <= seeds.len(),
    ensures
        corpus_tally(labels_of(chain, seeds.take(n))).count(key) <= corpus_tally(
            labels_of(chain, seeds),
        ).count(key),
{
    broadcast use vstd::multiset::group_multiset_axioms;

    assert(labels_of(chain, seeds) =~= labels_of(chain, seeds.take(n)) + labels_of(
        chain,
        seeds.skip(n),
    ));
    lemma_corpus_tally_adds(labels_of(chain, seeds.take(n)), labels_of(chain, seeds.skip(n)));
}

/// Counts the seed at position `seed` of the corpus under every chain.
fn record_under_chains<S>(
    reports: &mut Vec<Stats>,
    analyzers: &Vec<ChainedAnalyzers<S>>,
    seeds: &Vec<S>,
    seed: usize,
) -> (result: Result<(), StatsError>)
    requires
        seed < seeds@.len(),
        report_on(old(reports)@, analyzers@, seeds@.take(seed as int)),
    ensures
        result is Ok ==> report_on(final(reports)@, analyzers@, seeds@.take(seed + 1)),
        result is Err ==> result == Err::<(), StatsError>(StatsError::CountOverflow) && overflows(
            analyzers@,
            seeds@.take(seed + 1),
        ),
{
    let ghost before = seeds@.take(seed as int);
    let ghost after = seeds@.take(seed + 1);
    let mut chain: usize = 0;
    while chain < analyzers.len()
        invariant
            chain <= analyzers.len(),
            seed < seeds@.len(),
            before == seeds@.take(seed as int),
            after == seeds@.take(seed + 1),
            reports@.len() == analyzers@.len(),
            forall|c: int|
                0 <= c < chain ==> reports_on(#[trigger] reports@[c], analyzers@[c]@, after),
            forall|c: int|
                chain <= c < analyzers@.len() ==> reports_on(
                    #[trigger] reports@[c],
                    analyzers@[c]@,
                    before,
                ),
        decreases analyzers.len() - chain,
    {
        let lists = classify(&analyzers[chain], &seeds[seed]);
        let ghost axes = analyzers@[chain as int]@;
        let ghost labels = label_lists_view(lists@);
        let ghost earlier = reports@;
        proof {
            assert(reports_on(reports@[chain as int], axes, before));
            assert(after.drop_last() =~= before);
            assert(labels_of(axes, after) =~= labels_of(axes, before).push(labels));
            assert(labels_of(axes, after).drop_last() =~= labels_of(axes, before));
            lemma_product_shape(labels);
        }
        let recorded = reports[chain].record_seed(lists);
        assert(forall|c: int|
            0 <= c < earlier.len() && c != chain ==> #[trigger] reports@[c] == earlier[c]);
        match recorded {
            Ok(()) => {},
            Err(_) => {
                proof {
                    let key = choose|key: Key|
                        earlier[chain as int].tally().count(key) + #[trigger] seed_tally(
                            labels,
                        ).count(key) > u32::MAX;
                    assert(corpus_tally(labels_of(axes, after)).count(key) > u32::MAX) by {
                        broadcast use vstd::multiset::group_multiset_axioms;

                    }
                }
                return Err(StatsError::CountOverflow);
            },
        }
        chain += 1;
    }
    Ok(())
}

/// Applies every chain of `analyzers` to every seed of `seeds`, in one pass
/// over the seeds, and gives one report for each chain, in the order of the
/// chains. Each seed adds one to the count of each of its keys under a chain:
/// the combinations of the labels that the analyzers of the chain give it.
/// Fails exactly where under some chain a key occurs more often than a count
/// can hold.
pub fn aggregate<S>(analyzers: &Vec<ChainedAnalyzers<S>>, seeds: &Vec<S>) -> (result: Result<
    Vec<Stats>,
    StatsError,
>)
    ensures
        match result {
            Ok(reports) => report_on(reports@, analyzers@, seeds@),
            Err(error) => error == StatsError::CountOverflow,
        },
        result is Err <==> overflows(analyzers@, seeds@),
{
    let mut reports: Vec<Stats> = Vec::new();
    let mut made: usize = 0;
    while made < analyzers.len()
        invariant
            made <= analyzers.len(),
            reports@.len() == made,
            forall|chain: int|
                0 <= chain < made ==> reports_on(
                    #[trigger] reports@[chain],
                    analyzers@[chain]@,
                    seeds@.take(0),
                ),
        decreases analyzers.len() - made,
    {
        let report = Stats::new(chain_titles(&analyzers[made]));
        proof {
            assert(labels_of(analyzers@[made as int]@, seeds@.take(0)) =~= Seq::empty());
        }
        reports.push(report);
        made += 1;
    }
    let mut seed: usize = 0;
    while seed < seeds.len()
        invariant
            seed <= seeds.len(),
            report_on(reports@, analyzers@, seeds@.take(seed as int)),
        decreases seeds.len() - seed,
    {
        match record_under_chains(&mut reports, analyzers, seeds, seed) {
            Ok(()) => {},
            Err(error) => {
                proof {
                    let (chain, key) = choose|chain: int, key: Key|
                        0 <= chain < analyzers@.len() && #[trigger] corpus_tally(
                            labels_of(analyzers@[chain]@, seeds@.take(seed + 1)),
                        ).count(key) > u32::MAX;
                    lemma_corpus_grows(analyzers@[chain]@, seeds@, seed + 1, key);
                }
                return Err(error);
            },
        }
        seed += 1;
    }
    proof {
        assert(seeds@.take(seeds@.len() as int) =~= seeds@);
        assert(!overflows(analyzers@, seeds@)) by {
            assert forall|chain: int, key: Key| 0 <= chain < analyzers@.len() implies #[trigger]
                corpus_tally(labels_of(analyzers@[chain]@, seeds@)).count(key) <= u32::MAX by {
                assert(reports_on(reports@[chain], analyzers@[chain]@, seeds@));
                lemma_tally_count(reports@[chain].counts(), key);
            }
        }
    }
    Ok(reports)
}

/// Whether `result` is what comes of a sampling that has ended as `end` and
/// of counting its corpus under `chains`: the message of the store where it
/// failed, the failures where the corpus was exhausted, and else the reports
/// on the complete corpus, or the overflow of a count.
pub open spec fn comes_of<S>(
    result: Result<Vec<Stats>, StatsError>,
    end: Sampling<S>,
    chains: Seq<ChainedAnalyzers<S>>,
) -> bool {
    match result {
        Ok(reports) => {
            &&& end.storage_failure is None
            &&& end.corpus.phase() == Phase::Complete
            &&& end.corpus.seeds.len() == end.corpus.sample_size
            &&& report_on(reports@, chains, end.corpus.seeds)
        },
        Err(StatsError::Storage(message)) => end.storage_failure == Some(message@),
        Err(StatsError::SeedGeneration { failures, messages }) => {
            &&& end.storage_failure is None
            &&& end.corpus.phase() == Phase::Exhausted
            &&& end.corpus.failures == end.corpus.tolerated_errors + 1
            &&& failures == if end.corpus.failures <= usize::MAX {
                end.corpus.failures
            } else {
                usize::MAX as nat
            }
            &&& messages_view(messages@) == end.corpus.messages
        },
        Err(StatsError::CountOverflow) => {
            &&& end.storage_failure is None
            &&& end.corpus.phase() == Phase::Complete
            &&& overflows(chains, end.corpus.seeds)
        },
    }
}

/// Generates a set of stats: one report for each chain of `args.analyzers`
/// over a corpus of exactly `args.sample_size` seeds.
///
/// The store is asked and the generator is called as a sampling says, one
/// action after the other: the seeds kept in `files` for the settings are
/// thrown away first if `args.overwrite_seed_storage` says so, then the kept
/// seeds are read, and each missing seed is generated and kept at once. No
/// report comes back unless the corpus is complete and every seed was counted:
/// a failure of the store, one failed generation more than tolerated, or a
/// count beyond what a count can hold ends the computation with that error.
///
/// Whatever store and generator answer, the result is what comes of the
/// sampling that `Sampling::on` makes of their answers.
pub fn stats<C, S, G: Generator<C, S>, F: FileAccess<C, S>>(args: StatsArgs<C, S, G>, files: &mut F) -> (result:
    Result<Vec<Stats>, StatsError>)
    ensures
        exists|events: Seq<Event<S>>|
            {
                let end = #[trigger] Sampling::<S>::begin(
                    args.sample_size as nat,
                    tolerated_errors_or_default(args.sample_size, args.tolerated_errors),
                    error_message_limit_or_default(args.error_message_limit),
                    args.overwrite_seed_storage,
                ).follow(events);
                &&& end.action == Action::Finish
                &&& end.well_formed()
                &&& end.corpus.sample_size == args.sample_size
                &&& end.corpus.tolerated_errors == tolerated_errors_or_default(
                    args.sample_size,
                    args.tolerated_errors,
                )
                &&& end.corpus.error_message_limit == error_message_limit_or_default(
                    args.error_message_limit,
                )
                &&& comes_of(result, end, args.analyzers@)
            },
{
    let StatsArgs {
        settings,
        sample_size,
        analyzers,
        mut generator,
        tolerated_errors,
        error_message_limit,
        overwrite_seed_storage,
    } = args;
    let ghost begin = Sampling::<S>::begin(
        sample_size as nat,
        tolerated_errors_or_default(sample_size, tolerated_errors),
        error_message_limit_or_default(error_message_limit),
        overwrite_seed_storage,
    );
    let sampler = Sampler::begin(
        sample_size,
        tolerated_errors,
        error_message_limit,
        overwrite_seed_storage,
    ).drive(&settings, &mut generator, files);
    let ghost end = sampler@;
    let seeds = match sampler.finish() {
        Ok(seeds) => seeds,
        Err(error) => {
            proof {
                assert(end.storage_failure is None ==> end.corpus.phase() == Phase::Exhausted);
            }
            return Err(error);
        },
    };
    let result = aggregate(&analyzers, &seeds);
    proof {
        if result is Ok {
            assert(report_on(result->Ok_0@, args.analyzers@, seeds@));
        } else {
            assert(overflows(args.analyzers@, seeds@));
        }
    }
    result
}

} // verus!
