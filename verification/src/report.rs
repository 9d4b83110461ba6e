//! A report: how often each key occurred under one chain of analyzers, and
//! its rendering as a table.

use vstd::prelude::*;
use vstd::multiset::Multiset;
use std::rc::Rc;
use rustc_hash::FxHashMap;
use crate::analyzers::{
    cartesian_product, label_lists_view, labels_view, lemma_ambiguity_multiplies,
    lemma_combinations_unambiguous, lemma_product_shape, next_key, product_of, remaining_keys, Key,
};
use crate::errors::StatsError;
use crate::row_order::{
    key_before, key_ranks, label_rank, natural_order, rank_of, ranks_view, ranks_wf, rows_ranks,
    LabelRank,
};
use crate::text::{decimal, join, join_strings, push_decimal, strings_view};

verus! {

/// `rustc_hash::FxHasher`, the hasher of the tables. Nothing is known of what
/// is inside it.
#[verifier::external_type_specification]
#[verifier::external_body]
pub struct ExFxHasher(rustc_hash::FxHasher);

/// `std::hash::BuildHasherDefault`, which makes the hashers of a table.
/// Nothing is known of what is inside it.
#[verifier::external_type_specification]
#[verifier::external_body]
#[verifier::reject_recursive_types(H)]
pub struct ExBuildHasherDefault<H>(std::hash::BuildHasherDefault<H>);

/// The counts that a table holds, by the text of their keys.
pub uninterp spec fn table_counts(table: FxHashMap<Vec<Rc<String>>, u32>) -> Map<Key, u32>;

/// A row of a table: a key and its count.
pub type Row = (Key, u32);

/// The text of a list of rows.
pub open spec fn rows_view(rows: Seq<(Vec<Rc<String>>, u32)>) -> Seq<Row> {
    rows.map_values(|row: (Vec<Rc<String>>, u32)| (labels_view(row.0@), row.1))
}

/// Whether `rows` holds every entry of `counts` exactly once, and nothing else.
pub open spec fn lists(rows: Seq<Row>, counts: Map<Key, u32>) -> bool {
    &&& forall|i: int|
        0 <= i < rows.len() ==> counts.contains_key((#[trigger] rows[i]).0) && counts[rows[i].0]
            == rows[i].1
    &&& forall|key: Key| #[trigger]
        counts.contains_key(key) ==> exists|i: int| 0 <= i < rows.len() && (#[trigger] rows[i]).0 == key
    &&& forall|i: int, j: int|
        0 <= i < j < rows.len() ==> (#[trigger] rows[i]).0 != (#[trigger] rows[j]).0
}

/// Whether no row has to stand above a row that comes before it.
pub open spec fn in_natural_order(rows: Seq<Row>) -> bool {
    forall|i: int, j: int|
        0 <= i < j < rows.len() ==> !key_before((#[trigger] rows[j]).0, (#[trigger] rows[i]).0)
}

/// The line of a row: its labels and its count, separated by a comma and a
/// space.
pub open spec fn row_line(row: Row) -> Seq<char> {
    join(row.0, ", "@) + ", "@ + decimal(row.1 as nat)
}

/// The table of `rows` under the headings `titles`: a header line that ends
/// in `Count`, then one line for each row. The header line ends in a line
/// break, and so does every row but the last.
pub open spec fn render(titles: Seq<Seq<char>>, rows: Seq<Row>) -> Seq<char> {
    join(titles, ", "@) + ", Count\n"@ + join(rows.map_values(|row: Row| row_line(row)), "\n"@)
}

/// Whether the natural order tells any two different keys of `counts` apart.
pub open spec fn keys_distinguished(counts: Map<Key, u32>) -> bool {
    forall|a: Key, b: Key|
        counts.contains_key(a) && counts.contains_key(b) && a != b ==> #[trigger] key_before(a, b)
            || #[trigger] key_before(b, a)
}

/// Two tables of the same report in natural order agree in their first `n`
/// rows.
proof fn lemma_rows_agree(counts: Map<Key, u32>, a: Seq<Row>, b: Seq<Row>, n: int)
    requires
        lists(a, counts),
        lists(b, counts),
        in_natural_order(a),
        in_natural_order(b),
        keys_distinguished(counts),
        0 <= n <= a.len(),
        n <= b.len(),
    ensures
        forall|i: int| 0 <= i < n ==> a[i] == b[i],
    decreases n,
{
    if n > 0 {
        lemma_rows_agree(counts, a, b, n - 1);
        let i = n - 1;
        let ka = a[i].0;
        let kb = b[i].0;
        if ka != kb {
            // each of the two keys stands further down in the other table
            assert(counts.contains_key(ka));
            assert(counts.contains_key(kb));
            let ja = choose|j: int| 0 <= j < b.len() && (#[trigger] b[j]).0 == ka;
            let jb = choose|j: int| 0 <= j < a.len() && (#[trigger] a[j]).0 == kb;
            if ja < i {
                assert(a[ja] == b[ja]);
                assert(a[ja].0 != a[i].0);
            }
            if jb < i {
                assert(a[jb] == b[jb]);
                assert(b[jb].0 != b[i].0);
            }
            assert(!key_before(b[ja].0, b[i].0));
            assert(!key_before(a[jb].0, a[i].0));
        }
        assert(a[i].1 == counts[ka]);
        assert(b[i].1 == counts[kb]);
    }
}

/// Where the natural order tells all keys of a report apart, there is one
/// way only to list its rows in natural order.
pub proof fn lemma_rows_unique(counts: Map<Key, u32>, a: Seq<Row>, b: Seq<Row>)
    requires
        lists(a, counts),
        lists(b, counts),
        in_natural_order(a),
        in_natural_order(b),
        keys_distinguished(counts),
    ensures
        a == b,
{
    if a.len() <= b.len() {
        lemma_rows_agree(counts, a, b, a.len() as int);
        if a.len() < b.len() {
            let key = b[a.len() as int].0;
            assert(counts.contains_key(key));
            let j = choose|j: int| 0 <= j < a.len() && (#[trigger] a[j]).0 == key;
            assert(b[j].0 == b[a.len() as int].0);
        }
    } else {
        lemma_rows_agree(counts, a, b, b.len() as int);
        let key = a[b.len() as int].0;
        assert(counts.contains_key(key));
        let j = choose|j: int| 0 <= j < b.len() && (#[trigger] b[j]).0 == key;
        assert(a[j].0 == a[b.len() as int].0);
    }
    assert(a =~= b);
}

/// How often `key` occurs according to `counts`.
pub open spec fn occurrences(counts: Map<Key, u32>, key: Key) -> nat {
    if counts.contains_key(key) {
        counts[key] as nat
    } else {
        0
    }
}

/// The keys that `counts` has counted, each as often as it was counted.
pub open spec fn tally_of(counts: Map<Key, u32>) -> Multiset<Key> {
    Multiset::from_map(Map::new(|key: Key| counts.contains_key(key), |key: Key| counts[key] as nat))
}

/// `HashMap::default` for a table: it holds nothing.
#[verifier::external_body]
fn table_new() -> (table: FxHashMap<Vec<Rc<String>>, u32>)
    ensures
        table_counts(table) == (Map::<Key, u32>::empty()),
{
    FxHashMap::default()
}

/// `HashMap::get` on a table: the count held for the key with the same
/// labels as `key`, if there is one.
#[verifier::external_body]
fn table_get(table: &FxHashMap<Vec<Rc<String>>, u32>, key: &Vec<Rc<String>>) -> (count: Option<u32>)
    ensures
        count == (if table_counts(*table).contains_key(labels_view(key@)) {
            Some(table_counts(*table)[labels_view(key@)])
        } else {
            None
        }),
{
    table.get(key).copied()
}

/// `HashMap::insert` on a table: `count` is held for `key` afterwards,
/// whatever was held for it before, and nothing else changes.
#[verifier::external_body]
fn table_insert(table: &mut FxHashMap<Vec<Rc<String>>, u32>, key: Vec<Rc<String>>, count: u32)
    ensures
        table_counts(*final(table)) == table_counts(*old(table)).insert(labels_view(key@), count),
{
    table.insert(key, count);
}

/// `HashMap::iter` on a table: every entry once, in no order that could be
/// told in advance.
#[verifier::external_body]
fn table_rows(table: &FxHashMap<Vec<Rc<String>>, u32>) -> (rows: Vec<(Vec<Rc<String>>, u32)>)
    ensures
        lists(rows_view(rows@), table_counts(*table)),
{
    table.iter().map(|(key, count)| (key.clone(), *count)).collect()
}


/// The keys that one seed adds to a report, from the labels that the
/// analyzers of the chain gave it.
pub open spec fn seed_tally(lists: Seq<Seq<Seq<char>>>) -> Multiset<Key> {
    cartesian_product(lists).to_multiset()
}

/// The keys that a corpus adds to a report, from the labels that the
/// analyzers of the chain gave to each of its seeds.
pub open spec fn corpus_tally(observed: Seq<Seq<Seq<Seq<char>>>>) -> Multiset<Key>
    decreases observed.len(),
{
    if observed.len() == 0 {
        Multiset::empty()
    } else {
        corpus_tally(observed.drop_last()).add(seed_tally(observed.last()))
    }
}

/// The keys of two runs of seeds, one after the other, are the keys of the
/// one together with the keys of the other.
pub proof fn lemma_corpus_tally_adds(
    first: Seq<Seq<Seq<Seq<char>>>>,
    second: Seq<Seq<Seq<Seq<char>>>>,
)
    ensures
        corpus_tally(first + second) == corpus_tally(first).add(corpus_tally(second)),
    decreases second.len(),
{
    broadcast use vstd::multiset::group_multiset_axioms;

    if second.len() == 0 {
        assert(first + second =~= first);
        assert(corpus_tally(first).add(corpus_tally(second)) =~= corpus_tally(first));
    } else {
        lemma_corpus_tally_adds(first, second.drop_last());
        assert((first + second).drop_last() =~= first + second.drop_last());
        assert((first + second).last() == second.last());
        assert(corpus_tally(first + second) =~= corpus_tally(first).add(corpus_tally(second)));
    }
}

/// The order in which the seeds of a corpus are taken makes no difference
/// to the counts: taking a later run of seeds first gives the same keys.
pub proof fn lemma_corpus_order_irrelevant(
    first: Seq<Seq<Seq<Seq<char>>>>,
    second: Seq<Seq<Seq<Seq<char>>>>,
)
    ensures
        corpus_tally(first + second) == corpus_tally(second + first),
{
    broadcast use vstd::multiset::group_multiset_axioms;

    lemma_corpus_tally_adds(first, second);
    lemma_corpus_tally_adds(second, first);
    assert(corpus_tally(first).add(corpus_tally(second)) =~= corpus_tally(second).add(
        corpus_tally(first),
    ));
}

/// The text of the labels of a corpus: for each seed one list of labels for
/// each analyzer.
pub open spec fn observed_view(observed: Seq<Vec<Vec<Rc<String>>>>) -> Seq<Seq<Seq<Seq<char>>>> {
    observed.map_values(|lists: Vec<Vec<Rc<String>>>| label_lists_view(lists@))
}

/// Whether every analyzer gave every seed exactly one label.
pub open spec fn unambiguous(observed: Seq<Seq<Seq<Seq<char>>>>) -> bool {
    forall|seed: int, analyzer: int|
        0 <= seed < observed.len() && 0 <= analyzer < observed[seed].len() ==> (
        #[trigger] observed[seed][analyzer]).len() == 1
}

/// Under a chain of at least one analyzer, all of them unambiguous, the
/// counts of a report add up to the number of seeds.
pub proof fn lemma_unambiguous_counts_add_up(observed: Seq<Seq<Seq<Seq<char>>>>)
    requires
        forall|seed: int| 0 <= seed < observed.len() ==> (#[trigger] observed[seed]).len() > 0,
        unambiguous(observed),
    ensures
        corpus_tally(observed).len() == observed.len(),
    decreases observed.len(),
{
    broadcast use {
        vstd::multiset::group_multiset_axioms,
        vstd::seq_lib::group_to_multiset_ensures,
    };

    if observed.len() > 0 {
        let shorter = observed.drop_last();
        let last = observed.last();
        assert(unambiguous(shorter)) by {
            assert forall|seed: int, analyzer: int|
                0 <= seed < shorter.len() && 0 <= analyzer < shorter[seed].len() implies (
            #[trigger] shorter[seed][analyzer]).len() == 1 by {
                assert(shorter[seed] == observed[seed]);
                assert(observed[seed][analyzer].len() == 1);
            }
        }
        assert forall|seed: int| 0 <= seed < shorter.len() implies (#[trigger] shorter[seed]).len()
            > 0 by {
            assert(shorter[seed] == observed[seed]);
        }
        lemma_unambiguous_counts_add_up(shorter);
        assert(last == observed[observed.len() - 1]);
        assert forall|analyzer: int| 0 <= analyzer < last.len() implies (#[trigger] last[analyzer]).len()
            == 1 by {
            assert(observed[observed.len() - 1][analyzer].len() == 1);
        }
        lemma_product_shape(last);
        lemma_combinations_unambiguous(last);
        cartesian_product(last).to_multiset_ensures();
    }
}

/// A seed to which one analyzer of the chain gives `k` labels, and every
/// other analyzer one, adds `k` to the counts of a report, not one: to any
/// tally, and so to the counts of any corpus that it joins.
pub proof fn lemma_ambiguous_seed_counts(
    tally: Multiset<Key>,
    lists: Seq<Seq<Seq<char>>>,
    ambiguous: int,
    k: nat,
)
    requires
        0 <= ambiguous < lists.len(),
        lists[ambiguous].len() == k,
        forall|i: int| 0 <= i < lists.len() && i != ambiguous ==> (#[trigger] lists[i]).len() == 1,
    ensures
        seed_tally(lists).len() == k,
        tally.add(seed_tally(lists)).len() == tally.len() + k,
        forall|observed: Seq<Seq<Seq<Seq<char>>>>| #[trigger]
            corpus_tally(observed.push(lists)).len() == corpus_tally(observed).len() + k,
{
    broadcast use vstd::multiset::group_multiset_axioms;

    lemma_ambiguity_multiplies(lists, ambiguous, k);
    cartesian_product(lists).to_multiset_ensures();
    assert forall|observed: Seq<Seq<Seq<Seq<char>>>>| #[trigger]
        corpus_tally(observed.push(lists)).len() == corpus_tally(observed).len() + k by {
        assert(observed.push(lists).drop_last() =~= observed);
    }
}

/// Counting `key` once more puts it once more into the tally.
pub proof fn lemma_tally_record(counts: Map<Key, u32>, key: Key)
    requires
        counts.dom().finite(),
        occurrences(counts, key) < u32::MAX,
    ensures
        counts.insert(key, (occurrences(counts, key) + 1) as u32).dom().finite(),
        tally_of(counts.insert(key, (occurrences(counts, key) + 1) as u32)) == tally_of(counts).insert(
            key,
        ),
{
    broadcast use vstd::multiset::group_multiset_axioms;

    let after = counts.insert(key, (occurrences(counts, key) + 1) as u32);
    let model = Map::new(|k: Key| counts.contains_key(k), |k: Key| counts[k] as nat);
    let model_after = Map::new(|k: Key| after.contains_key(k), |k: Key| after[k] as nat);
    assert(model.dom() =~= counts.dom());
    assert(model_after.dom() =~= after.dom());
    assert forall|k: Key| tally_of(after).count(k) == tally_of(counts).insert(key).count(k) by {
        if model.dom().contains(k) {
            assert(Multiset::from_map(model).count(k) == model[k]);
        } else {
            assert(Multiset::from_map(model).count(k) == 0);
        }
        assert(model_after.dom().contains(k) <==> (k == key || model.dom().contains(k)));
        if model_after.dom().contains(k) {
            assert(Multiset::from_map(model_after).count(k) == model_after[k]);
        } else {
            assert(Multiset::from_map(model_after).count(k) == 0);
        }
    }
    assert(tally_of(after) =~= tally_of(counts).insert(key));
}

/// No key is in the tally more often than its count says.
pub proof fn lemma_tally_count(counts: Map<Key, u32>, key: Key)
    requires
        counts.dom().finite(),
    ensures
        tally_of(counts).count(key) == occurrences(counts, key),
{
    broadcast use vstd::multiset::group_multiset_axioms;

    let model = Map::new(|k: Key| counts.contains_key(k), |k: Key| counts[k] as nat);
    assert(model.dom() =~= counts.dom());
    if model.dom().contains(key) {
        assert(Multiset::from_map(model).count(key) == model[key]);
    } else {
        assert(Multiset::from_map(model).count(key) == 0);
    }
}

/// Works out the rank of every label of a key.
fn key_label_ranks(key: &Vec<Rc<String>>) -> (ranks: Vec<LabelRank>)
    ensures
        ranks_wf(ranks@),
        ranks_view(ranks@) == key_ranks(labels_view(key@)),
{
    let mut ranks: Vec<LabelRank> = Vec::new();
    let mut i: usize = 0;
    while i < key.len()
        invariant
            i <= key.len(),
            ranks_wf(ranks@),
            ranks_view(ranks@) == key_ranks(labels_view(key@).take(i as int)),
        decreases key.len() - i,
    {
        let rank = label_rank(key[i].as_str());
        proof {
            let labels = labels_view(key@);
            assert(ranks_view(ranks@.push(rank)) =~= ranks_view(ranks@).push(rank@));
            assert(key_ranks(labels.take(i + 1)) =~= key_ranks(labels.take(i as int)).push(
                rank_of(labels[i as int]),
            ));
        }
        ranks.push(rank);
        i += 1;
    }
    assert(labels_view(key@).take(i as int) =~= labels_view(key@));
    ranks
}

/// Appends the labels of a key to `text`, separated by a comma and a space.
fn append_labels(text: &mut String, key: &Vec<Rc<String>>)
    ensures
        final(text)@ == old(text)@ + join(labels_view(key@), ", "@),
{
    let ghost labels = labels_view(key@);
    let mut i: usize = 0;
    assert(text@ + join(labels.take(0), ", "@) =~= text@);
    while i < key.len()
        invariant
            i <= key.len(),
            labels == labels_view(key@),
            text@ == old(text)@ + join(labels.take(i as int), ", "@),
        decreases key.len() - i,
    {
        if i > 0 {
            text.append(", ");
        }
        text.append(key[i].as_str());
        proof {
            let next = labels.take(i + 1);
            assert(next.drop_last() =~= labels.take(i as int));
            assert(next.last() == key@[i as int]@);
            if i == 0 {
                assert(join(next, ", "@) =~= next[0]);
            }
            assert(text@ =~= old(text)@ + join(next, ", "@));
        }
        i += 1;
    }
    assert(labels.take(i as int) =~= labels);
}

/// How often each key occurred under one chain of analyzers.
pub struct Stats {
    analyzer_titles: Vec<String>,
    pub data: FxHashMap<Vec<Rc<String>>, u32>,
}

impl Stats {
    /// The headings of the chain, in chain order.
    pub closed spec fn titles(&self) -> Seq<Seq<char>> {
        strings_view(self.analyzer_titles@)
    }

    /// The count of each key that occurred.
    pub closed spec fn counts(&self) -> Map<Key, u32> {
        table_counts(self.data)
    }

    /// The keys that occurred, each as often as it did.
    pub open spec fn tally(&self) -> Multiset<Key> {
        tally_of(self.counts())
    }

    /// Whether every key of the report has occurred: no key has a count of
    /// zero.
    pub open spec fn positive(&self) -> bool {
        forall|key: Key| #[trigger] self.counts().contains_key(key) ==> self.counts()[key] >= 1
    }

    /// Whether every key of the report has `n` labels.
    pub open spec fn keys_of_length(&self, n: nat) -> bool {
        forall|key: Key| #[trigger] self.counts().contains_key(key) ==> key.len() == n
    }

    /// Whether the report holds finitely many keys, as every report does that
    /// was made by `new` and filled by `record` and `record_seed`.
    pub open spec fn wf(&self) -> bool {
        self.counts().dom().finite()
    }

    /// An empty report under the headings `analyzer_titles`.
    pub fn new(analyzer_titles: Vec<String>) -> (stats: Stats)
        ensures
            stats.wf(),
            stats.positive(),
            stats.titles() == strings_view(analyzer_titles@),
            stats.counts() == (Map::<Key, u32>::empty()),
            stats.tally() == (Multiset::<Key>::empty()),
    {
        let stats = Stats { analyzer_titles, data: table_new() };
        proof {
            broadcast use vstd::multiset::group_multiset_axioms;

            assert forall|key: Key| stats.tally().count(key) == 0 by {
                lemma_tally_count(stats.counts(), key);
            }
            assert(stats.tally() =~= Multiset::<Key>::empty());
        }
        stats
    }

    /// The report of a chain with the headings `analyzer_titles` on a corpus,
    /// from the labels that the analyzers of the chain gave to each seed: every
    /// seed adds one to the count of each combination of its labels. Fails
    /// exactly if some key occurs more often than a count can hold.
    pub fn tabulate(analyzer_titles: Vec<String>, observed: Vec<Vec<Vec<Rc<String>>>>) -> (result:
        Result<Stats, StatsError>)
        ensures
            match result {
                Ok(stats) => {
                    &&& stats.wf()
                    &&& stats.positive()
                    &&& stats.titles() == strings_view(analyzer_titles@)
                    &&& stats.tally() == corpus_tally(observed_view(observed@))
                },
                Err(error) => error == StatsError::CountOverflow,
            },
            result is Err <==> exists|key: Key| #[trigger]
                corpus_tally(observed_view(observed@)).count(key) > u32::MAX,
    {
        broadcast use vstd::multiset::group_multiset_axioms;

        let ghost all = observed_view(observed@);
        let mut stats = Stats::new(analyzer_titles);
        assert(all.take(0) =~= Seq::empty());
        for lists in it: observed
            invariant
                it.seq() == observed@,
                all == observed_view(observed@),
                stats.wf(),
                stats.positive(),
                stats.titles() == strings_view(analyzer_titles@),
                stats.tally() == corpus_tally(all.take(it.index() as int)),
        {
            let ghost i = it.index() as int;
            let ghost before = stats.tally();
            assert(all.take(i + 1).drop_last() =~= all.take(i));
            assert(all.take(i + 1).last() == label_lists_view(lists@));
            match stats.record_seed(lists) {
                Ok(()) => {},
                Err(error) => {
                    proof {
                        let key = choose|key: Key|
                            before.count(key) + #[trigger] seed_tally(label_lists_view(lists@)).count(
                                key,
                            ) > u32::MAX;
                        assert(all =~= all.take(i + 1) + all.skip(i + 1));
                        lemma_corpus_tally_adds(all.take(i + 1), all.skip(i + 1));
                        assert(corpus_tally(all).count(key) > u32::MAX);
                    }
                    return Err(error);
                },
            }
        }
        proof {
            assert(all.take(all.len() as int) =~= all);
            assert forall|key: Key| #[trigger] corpus_tally(all).count(key) <= u32::MAX by {
                lemma_tally_count(stats.counts(), key);
            }
        }
        Ok(stats)
    }

    /// How often `key` has occurred.
    pub fn count(&self, key: &Vec<Rc<String>>) -> (count: u32)
        ensures
            count == occurrences(self.counts(), labels_view(key@)),
    {
        match table_get(&self.data, key) {
            Some(count) => count,
            None => 0,
        }
    }

    /// Counts one more occurrence of `key`. A key whose count is at the
    /// largest number a count can hold is not counted again, and the report
    /// stays as it is.
    pub fn record(&mut self, key: Vec<Rc<String>>) -> (recorded: bool)
        ensures
            final(self).titles() == old(self).titles(),
            recorded == (occurrences(old(self).counts(), labels_view(key@)) < u32::MAX),
            recorded ==> final(self).counts() == old(self).counts().insert(
                labels_view(key@),
                (occurrences(old(self).counts(), labels_view(key@)) + 1) as u32,
            ),
            !recorded ==> final(self).counts() == old(self).counts(),
    {
        let count = self.count(&key);
        if count == u32::MAX {
            return false;
        }
        table_insert(&mut self.data, key, count + 1);
        true
    }

    /// Counts every key of one seed, from the labels that the analyzers of the
    /// chain gave it: one key for every combination of one label from each
    /// list. Fails exactly if some key would occur more often than a count can
    /// hold; the report has then counted some keys of the seed and not others.
    /// No count ever goes down.
    pub fn record_seed(&mut self, lists: Vec<Vec<Rc<String>>>) -> (result: Result<(), StatsError>)
        requires
            old(self).wf(),
        ensures
            final(self).wf(),
            final(self).titles() == old(self).titles(),
            old(self).positive() ==> final(self).positive(),
            result is Ok ==> final(self).tally() == old(self).tally().add(
                seed_tally(label_lists_view(lists@)),
            ),
            forall|key: Key|
                old(self).tally().count(key) <= #[trigger] final(self).tally().count(key),
            forall|key: Key| #[trigger]
                final(self).counts().contains_key(key) ==> old(self).counts().contains_key(key)
                    || cartesian_product(label_lists_view(lists@)).contains(key),
            result is Err ==> result == Err::<(), StatsError>(StatsError::CountOverflow),
            result is Err <==> exists|key: Key|
                old(self).tally().count(key) + #[trigger] seed_tally(label_lists_view(lists@)).count(
                    key,
                ) > u32::MAX,
    {
        broadcast use {
            vstd::multiset::group_multiset_axioms,
            vstd::seq_lib::group_to_multiset_ensures,
        };

        let ghost all = cartesian_product(label_lists_view(lists@));
        let ghost before = self.tally();
        let ghost mut taken: Seq<Key> = Seq::empty();
        let mut product = product_of(lists);
        assert(taken + remaining_keys(product) =~= all);
        assert(before.add(taken.to_multiset()) =~= before);
        loop
            invariant
                self.wf(),
                self.titles() == old(self).titles(),
                old(self).positive() ==> self.positive(),
                before == old(self).tally(),
                all == cartesian_product(label_lists_view(lists@)),
                taken + remaining_keys(product) == all,
                self.tally() == before.add(taken.to_multiset()),
                forall|key: Key| #[trigger]
                    self.counts().contains_key(key) ==> old(self).counts().contains_key(key)
                        || taken.contains(key),
            decreases remaining_keys(product).len(),
        {
            let ghost left = remaining_keys(product);
            assert forall|key: Key| taken.contains(key) implies all.contains(key) by {
                let i = choose|i: int| 0 <= i < taken.len() && taken[i] == key;
                assert((taken + left)[i] == key);
            }
            match next_key(&mut product) {
                None => {
                    proof {
                        assert(taken =~= all);
                        assert forall|key: Key|
                            before.count(key) + #[trigger] seed_tally(
                                label_lists_view(lists@),
                            ).count(key) <= u32::MAX by {
                            lemma_tally_count(self.counts(), key);
                        }
                    }
                    return Ok(());
                },
                Some(key) => {
                    let ghost text = labels_view(key@);
                    let ghost counts = self.counts();
                    proof {
                        lemma_tally_count(counts, text);
                        vstd::seq_lib::lemma_multiset_commutative(taken, left);
                        assert(left.contains(text)) by {
                            assert(left[0] == text);
                        }
                    }
                    if !self.record(key) {
                        proof {
                            vstd::seq_lib::to_multiset_contains(left, text);
                            assert(left.to_multiset().count(text) > 0);
                            assert(all.to_multiset() =~= taken.to_multiset().add(left.to_multiset()));
                            assert(self.tally().count(text) == before.count(text)
                                + taken.to_multiset().count(text));
                            assert(before.count(text) + seed_tally(label_lists_view(lists@)).count(text)
                                > u32::MAX);
                        }
                        return Err(StatsError::CountOverflow);
                    }
                    proof {
                        lemma_tally_record(counts, text);
                        let longer = taken.push(text);
                        assert(longer + left.skip(1) =~= taken + left);
                        vstd::seq_lib::to_multiset_build(taken, text);
                        assert(longer.to_multiset() =~= taken.to_multiset().insert(text));
                        assert forall|k: Key|
                            before.add(taken.to_multiset()).insert(text).count(k) == before.add(
                                longer.to_multiset(),
                            ).count(k) by {}
                        assert(before.add(taken.to_multiset()).insert(text) =~= before.add(
                            longer.to_multiset(),
                        ));
                        assert forall|k: Key| #[trigger] self.counts().contains_key(k) implies old(
                            self,
                        ).counts().contains_key(k) || longer.contains(k) by {
                            if k == text {
                                assert(longer[taken.len() as int] == k);
                            } else {
                                assert(counts.contains_key(k));
                                if taken.contains(k) {
                                    let i = choose|i: int| 0 <= i < taken.len() && taken[i] == k;
                                    assert(longer[i] == k);
                                }
                            }
                        }
                        taken = longer;
                    }
                },
            }
        }
    }

    /// The report as a table with comma-separated columns: a header line with
    /// the headings of the chain and `Count`, then one line for each key with
    /// its labels and its count. The lines stand in natural order, label by
    /// label: numbers by value and before text, text by its characters. Keys
    /// that this order does not tell apart stand next to each other.
    pub fn csv(&self) -> (csv: String)
        ensures
            exists|rows: Seq<Row>|
                lists(rows, self.counts()) && in_natural_order(rows) && csv@ == #[trigger] render(
                    self.titles(),
                    rows,
                ),
    {
        let mut csv = join_strings(&self.analyzer_titles, ", ");
        csv.append(", Count\n");
        let ghost header = csv@;
        let rows = table_rows(&self.data);
        let ghost listed = rows_view(rows@);
        let mut ranks: Vec<Vec<LabelRank>> = Vec::new();
        let mut i: usize = 0;
        while i < rows.len()
            invariant
                i <= rows.len(),
                listed == rows_view(rows@),
                ranks@.len() == i,
                forall|r: int| 0 <= r < i ==> ranks_wf((#[trigger] ranks@[r])@),
                forall|r: int|
                    0 <= r < i ==> ranks_view((#[trigger] ranks@[r])@) == key_ranks(listed[r].0),
            decreases rows.len() - i,
        {
            ranks.push(key_label_ranks(&rows[i].0));
            i += 1;
        }
        let order = natural_order(&ranks);
        let ghost sorted = Seq::new(order@.len(), |a: int| listed[order@[a] as int]);
        let ghost lines = sorted.map_values(|row: Row| row_line(row));
        proof {
            let counts = self.counts();
            assert forall|key: Key| #[trigger] counts.contains_key(key) implies exists|a: int|
                0 <= a < sorted.len() && (#[trigger] sorted[a]).0 == key by {
                let r = choose|r: int| 0 <= r < listed.len() && (#[trigger] listed[r]).0 == key;
                assert(order@.contains(r as usize));
                let a = choose|a: int| 0 <= a < order@.len() && order@[a] == r as usize;
                assert(sorted[a].0 == key);
            }
            assert forall|a: int, b: int| 0 <= a < b < sorted.len() implies (#[trigger] sorted[a]).0 != (
            #[trigger] sorted[b]).0 by {
                let x = order@[a] as int;
                let y = order@[b] as int;
                if x < y {
                    assert(listed[x].0 != listed[y].0);
                } else {
                    assert(listed[y].0 != listed[x].0);
                }
            }
            assert(lists(sorted, counts));
            assert forall|a: int, b: int| 0 <= a < b < sorted.len() implies !key_before(
                (#[trigger] sorted[b]).0,
                (#[trigger] sorted[a]).0,
            ) by {
                let all = rows_ranks(ranks@);
                assert(all[order@[b] as int] == key_ranks(sorted[b].0));
                assert(all[order@[a] as int] == key_ranks(sorted[a].0));
            }
            assert(in_natural_order(sorted));
            assert(csv@ + join(lines.take(0), "\n"@) =~= csv@);
        }
        let mut a: usize = 0;
        while a < order.len()
            invariant
                a <= order.len(),
                order@.len() == rows@.len(),
                forall|b: int| 0 <= b < order@.len() ==> (#[trigger] order@[b]) < rows@.len(),
                listed == rows_view(rows@),
                sorted == Seq::new(order@.len(), |a: int| listed[order@[a] as int]),
                lines == sorted.map_values(|row: Row| row_line(row)),
                csv@ == header + join(lines.take(a as int), "\n"@),
            decreases order.len() - a,
        {
            if a > 0 {
                csv.append("\n");
            }
            let row = &rows[order[a]];
            let ghost start = csv@;
            append_labels(&mut csv, &row.0);
            csv.append(", ");
            push_decimal(&mut csv, row.1 as u64);
            proof {
                let next = lines.take(a + 1);
                assert(next.drop_last() =~= lines.take(a as int));
                assert(next.last() == row_line(sorted[a as int]));
                assert(csv@ =~= start + row_line(sorted[a as int]));
                if a == 0 {
                    assert(join(next, "\n"@) =~= next[0]);
                }
                assert(csv@ =~= header + join(next, "\n"@));
            }
            a += 1;
        }
        proof {
            assert(lines.take(a as int) =~= lines);
            assert(csv@ == render(self.titles(), sorted));
        }
        csv
    }

    /// The headings of the chain, joined with ` and `.
    pub fn title(&self) -> (title: String)
        ensures
            title@ == join(self.titles(), " and "@),
    {
        join_strings(&self.analyzer_titles, " and ")
    }
}

} // verus!
