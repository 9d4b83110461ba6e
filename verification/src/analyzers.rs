//! Analyzers classify a seed along one axis; a chain of them classifies it
//! along several axes at once, one key for every combination of labels.

use vstd::prelude::*;
use std::marker::PhantomData;
use std::rc::Rc;
use std::vec::IntoIter;
use itertools::structs::MultiProduct;
use itertools::Itertools;
use crate::text::strings_view;

verus! {

/// A classification of seeds of type `S` along one axis.
///
/// An analyzer is a function of the seed alone: it keeps no state between
/// calls and gives the same seed the same labels every time. A seed may carry
/// several labels at once along one axis; none of them is an error.
pub trait Analyzer<S> {
    /// The heading of this axis.
    spec fn heading(&self) -> Seq<char>;

    /// The labels that `seed` carries along this axis.
    spec fn labels(&self, seed: &S) -> Seq<Seq<char>>;

    /// The heading of this axis.
    fn title(&self) -> (title: String)
        ensures
            title@ == self.heading(),
    ;

    /// The labels that `seed` carries along this axis.
    fn analyze(&self, seed: &S) -> (labels: Vec<String>)
        ensures
            strings_view(labels@) == self.labels(seed),
    ;
}

/// Whether `classify` can be asked about every seed and is a function of the
/// seed alone: whatever it may answer for one seed holds the same labels.
pub open spec fn is_classification<S, F: Fn(&S) -> Vec<String>>(classify: F) -> bool {
    &&& forall|seed: &S| call_requires(classify, (seed,))
    &&& forall|seed: &S, a: Vec<String>, b: Vec<String>|
        call_ensures(classify, (seed,), a) && call_ensures(classify, (seed,), b) ==> strings_view(a@)
            == strings_view(b@)
}

/// An analyzer made of a heading and a function from seeds to labels.
pub struct FnAnalyzer<S, F: Fn(&S) -> Vec<String>> {
    title: String,
    classify: F,
    seeds: PhantomData<S>,
}

impl<S, F: Fn(&S) -> Vec<String>> FnAnalyzer<S, F> {
    /// What `new` asks of the function and every analyzer keeps.
    #[verifier::type_invariant]
    spec fn classifies(&self) -> bool {
        is_classification::<S, F>(self.classify)
    }

    /// The analyzer with the heading `title` that gives each seed the labels
    /// that `classify` gives it.
    pub fn new(title: String, classify: F) -> (analyzer: Self)
        requires
            is_classification::<S, F>(classify),
        ensures
            analyzer.heading() == title@,
    {
        FnAnalyzer { title, classify, seeds: PhantomData }
    }
}

impl<S, F: Fn(&S) -> Vec<String>> Analyzer<S> for FnAnalyzer<S, F> {
    closed spec fn heading(&self) -> Seq<char> {
        self.title@
    }

    closed spec fn labels(&self, seed: &S) -> Seq<Seq<char>> {
        strings_view((choose|labels: Vec<String>| call_ensures(self.classify, (seed,), labels))@)
    }

    fn title(&self) -> (title: String) {
        self.title.clone()
    }

    fn analyze(&self, seed: &S) -> (labels: Vec<String>) {
        proof {
            use_type_invariant(self);
        }
        (self.classify)(seed)
    }
}

/// Multiple [`Analyzer`]s chained together.
pub type ChainedAnalyzers<S> = Vec<Box<dyn Analyzer<S>>>;

/// The headings of a chain, in chain order.
pub open spec fn chain_headings<S>(chain: Seq<Box<dyn Analyzer<S>>>) -> Seq<Seq<char>> {
    Seq::new(chain.len(), |j: int| chain[j].heading())
}

/// The labels that the analyzers of a chain give to `seed`: one list for each
/// analyzer, in chain order.
pub open spec fn chain_labels<S>(chain: Seq<Box<dyn Analyzer<S>>>, seed: &S) -> Seq<Seq<Seq<char>>> {
    Seq::new(chain.len(), |j: int| chain[j].labels(seed))
}

/// The labels that the analyzers of a chain give to each seed of a corpus.
pub open spec fn labels_of<S>(chain: Seq<Box<dyn Analyzer<S>>>, seeds: Seq<S>) -> Seq<
    Seq<Seq<Seq<char>>>,
> {
    Seq::new(seeds.len(), |s: int| chain_labels(chain, &seeds[s]))
}

/// The text of a key: one label for each analyzer of a chain, in chain order.
pub type Key = Seq<Seq<char>>;

/// The text of a list of labels.
pub open spec fn labels_view(labels: Seq<Rc<String>>) -> Seq<Seq<char>> {
    labels.map_values(|label: Rc<String>| label@)
}

/// The text of the label lists of a chain, one list for each analyzer.
pub open spec fn label_lists_view(lists: Seq<Vec<Rc<String>>>) -> Seq<Seq<Seq<char>>> {
    lists.map_values(|list: Vec<Rc<String>>| labels_view(list@))
}

/// The text of a list of keys.
pub open spec fn keys_view(keys: Seq<Vec<Rc<String>>>) -> Seq<Key> {
    keys.map_values(|key: Vec<Rc<String>>| labels_view(key@))
}

/// Every key of `keys` followed by every label of `labels`: the keys vary
/// slowest, the labels fastest.
pub open spec fn extend_keys(keys: Seq<Key>, labels: Seq<Seq<char>>) -> Seq<Key> {
    Seq::new(
        keys.len() * labels.len(),
        |i: int| keys[i / (labels.len() as int)].push(labels[i % (labels.len() as int)]),
    )
}

/// All ways to pick one label from each list, as keys in list order. The
/// first list varies slowest. Of no lists there is one pick, the empty key.
pub open spec fn tuples(lists: Seq<Seq<Seq<char>>>) -> Seq<Key>
    decreases lists.len(),
{
    if lists.len() == 0 {
        seq![Seq::empty()]
    } else {
        extend_keys(tuples(lists.drop_last()), lists.last())
    }
}

/// The keys of one seed under a chain whose analyzers gave `lists`: one key
/// for every combination of labels. A chain without analyzers gives no key.
pub open spec fn cartesian_product(lists: Seq<Seq<Seq<char>>>) -> Seq<Key> {
    if lists.len() == 0 {
        Seq::empty()
    } else {
        tuples(lists)
    }
}

/// The product of the lengths of `lists`.
pub open spec fn combinations(lists: Seq<Seq<Seq<char>>>) -> nat
    decreases lists.len(),
{
    if lists.len() == 0 {
        1
    } else {
        combinations(lists.drop_last()) * lists.last().len()
    }
}

/// There are as many picks as the lengths of the lists multiply to, and each
/// pick has one label for each list.
pub proof fn lemma_tuples_shape(lists: Seq<Seq<Seq<char>>>)
    ensures
        tuples(lists).len() == combinations(lists),
        forall|i: int| 0 <= i < tuples(lists).len() ==> (#[trigger] tuples(lists)[i]).len() == lists.len(),
    decreases lists.len(),
{
    if lists.len() > 0 {
        let shorter = tuples(lists.drop_last());
        let last = lists.last();
        lemma_tuples_shape(lists.drop_last());
        assert forall|i: int| 0 <= i < tuples(lists).len() implies (#[trigger] tuples(lists)[i]).len()
            == lists.len() by {
            let k = last.len() as int;
            assert(0 <= i < shorter.len() * k);
            assert(k > 0) by (nonlinear_arith)
                requires
                    0 <= i < shorter.len() * k,
                    shorter.len() >= 0,
            ;
            assert(0 <= i / k < shorter.len()) by (nonlinear_arith)
                requires
                    0 <= i < shorter.len() * k,
                    k > 0,
            ;
        }
    }
}


/// A chain with at least one analyzer gives a seed as many keys as the
/// numbers of labels along its axes multiply to, each with one label for
/// each analyzer.
pub proof fn lemma_product_shape(lists: Seq<Seq<Seq<char>>>)
    ensures
        lists.len() > 0 ==> cartesian_product(lists).len() == combinations(lists),
        lists.len() == 0 ==> cartesian_product(lists).len() == 0,
        forall|i: int|
            0 <= i < cartesian_product(lists).len() ==> (#[trigger] cartesian_product(lists)[i]).len()
                == lists.len(),
{
    lemma_tuples_shape(lists);
}

/// Where one analyzer of a chain gives a seed `k` labels and every other
/// analyzer gives it one, the lengths multiply to `k`.
pub proof fn lemma_combinations_one_ambiguous(lists: Seq<Seq<Seq<char>>>, ambiguous: int, k: nat)
    requires
        0 <= ambiguous < lists.len(),
        lists[ambiguous].len() == k,
        forall|i: int| 0 <= i < lists.len() && i != ambiguous ==> (#[trigger] lists[i]).len() == 1,
    ensures
        combinations(lists) == k,
    decreases lists.len(),
{
    let shorter = lists.drop_last();
    if ambiguous == lists.len() - 1 {
        lemma_combinations_unambiguous(shorter);
        assert(combinations(lists) == 1 * k);
    } else {
        lemma_combinations_one_ambiguous(shorter, ambiguous, k);
        assert(lists[lists.len() - 1].len() == 1);
        assert(combinations(lists) == k * 1);
    }
}

/// Where every analyzer of a chain gives a seed one label, the lengths
/// multiply to one.
pub proof fn lemma_combinations_unambiguous(lists: Seq<Seq<Seq<char>>>)
    requires
        forall|i: int| 0 <= i < lists.len() ==> (#[trigger] lists[i]).len() == 1,
    ensures
        combinations(lists) == 1,
    decreases lists.len(),
{
    if lists.len() > 0 {
        lemma_combinations_unambiguous(lists.drop_last());
        assert(lists[lists.len() - 1].len() == 1);
        assert(combinations(lists) == 1 * 1);
    }
}

/// A seed to which one analyzer of a chain gives `k` labels, and every other
/// analyzer one, has `k` keys under that chain, not one.
pub proof fn lemma_ambiguity_multiplies(lists: Seq<Seq<Seq<char>>>, ambiguous: int, k: nat)
    requires
        0 <= ambiguous < lists.len(),
        lists[ambiguous].len() == k,
        forall|i: int| 0 <= i < lists.len() && i != ambiguous ==> (#[trigger] lists[i]).len() == 1,
    ensures
        cartesian_product(lists).len() == k,
{
    lemma_product_shape(lists);
    lemma_combinations_one_ambiguous(lists, ambiguous, k);
}

/// `itertools::structs::MultiProduct`, the iterator over a product of
/// iterators. Nothing is known of what is inside it.
#[verifier::external_type_specification]
#[verifier::external_body]
#[verifier::reject_recursive_types(I)]
pub struct ExMultiProduct<I>(MultiProduct<I>) where I: Iterator + Clone, I::Item: Clone;

/// The keys that a product of label lists yields, in order, until it next
/// answers `None`.
pub uninterp spec fn remaining_keys(product: MultiProduct<IntoIter<Rc<String>>>) -> Seq<Key>;

/// `Itertools::multi_cartesian_product` on the label lists of one seed. The
/// product yields one key for every way to pick a label from each list, the
/// first list varying slowest, and nothing at all where there is no list.
#[verifier::external_body]
pub(crate) fn product_of(lists: Vec<Vec<Rc<String>>>) -> (product: MultiProduct<IntoIter<Rc<String>>>)
    ensures
        remaining_keys(product) == cartesian_product(label_lists_view(lists@)),
{
    lists.into_iter().multi_cartesian_product()
}

/// `Iterator::next` of a product of label lists: the first of the keys that
/// are left, or `None` when none is left. What the product yields once it has
/// answered `None` is not stated: it may begin anew.
#[verifier::external_body]
pub(crate) fn next_key(product: &mut MultiProduct<IntoIter<Rc<String>>>) -> (key: Option<Vec<Rc<String>>>)
    ensures
        remaining_keys(*old(product)).len() == 0 ==> key is None,
        remaining_keys(*old(product)).len() > 0 ==> key is Some && labels_view(key->0@)
            == remaining_keys(*old(product))[0] && remaining_keys(*final(product))
            == remaining_keys(*old(product)).skip(1),
{
    product.next()
}

/// The headings of a chain, in chain order.
pub fn chain_titles<S>(chain: &ChainedAnalyzers<S>) -> (titles: Vec<String>)
    ensures
        strings_view(titles@) == chain_headings(chain@),
{
    let mut titles: Vec<String> = Vec::new();
    let mut i: usize = 0;
    while i < chain.len()
        invariant
            i <= chain.len(),
            titles@.len() == i,
            forall|j: int| 0 <= j < i ==> (#[trigger] titles@[j])@ == chain@[j].heading(),
        decreases chain.len() - i,
    {
        titles.push(chain[i].title());
        i += 1;
    }
    assert(strings_view(titles@) =~= chain_headings(chain@));
    titles
}

/// Asks every analyzer of a chain for the labels of `seed`: one list for
/// each analyzer, in chain order.
pub fn classify<S>(chain: &ChainedAnalyzers<S>, seed: &S) -> (lists: Vec<Vec<Rc<String>>>)
    ensures
        label_lists_view(lists@) == chain_labels(chain@, seed),
{
    let mut lists: Vec<Vec<Rc<String>>> = Vec::new();
    let mut i: usize = 0;
    while i < chain.len()
        invariant
            i <= chain.len(),
            lists@.len() == i,
            forall|j: int|
                0 <= j < i ==> labels_view((#[trigger] lists@[j])@) == chain@[j].labels(seed),
        decreases chain.len() - i,
    {
        let labels = chain[i].analyze(seed);
        let ghost given = strings_view(labels@);
        let mut shared: Vec<Rc<String>> = Vec::new();
        for label in it: labels
            invariant
                given == strings_view(it.seq()),
                labels_view(shared@) == given.take(it.index() as int),
        {
            assert(given.take(it.index() + 1) =~= given.take(it.index() as int).push(label@));
            shared.push(Rc::new(label));
            assert(labels_view(shared@) =~= given.take(it.index() + 1));
        }
        assert(given.take(given.len() as int) =~= given);
        lists.push(shared);
        i += 1;
    }
    assert(label_lists_view(lists@) =~= chain_labels(chain@, seed));
    lists
}

/// The keys of one seed from the labels that the analyzers of a chain gave
/// it: every combination of one label from each list, in the order in which
/// the first list varies slowest.
pub fn chain_keys(lists: Vec<Vec<Rc<String>>>) -> (keys: Vec<Vec<Rc<String>>>)
    ensures
        keys_view(keys@) == cartesian_product(label_lists_view(lists@)),
{
    let ghost all = cartesian_product(label_lists_view(lists@));
    let mut product = product_of(lists);
    let mut keys: Vec<Vec<Rc<String>>> = Vec::new();
    loop
        invariant_except_break
            keys_view(keys@) + remaining_keys(product) == all,
        ensures
            keys_view(keys@) == all,
        decreases remaining_keys(product).len(),
    {
        let ghost before = remaining_keys(product);
        match next_key(&mut product) {
            Some(key) => {
                proof {
                    assert(keys_view(keys@.push(key)) =~= keys_view(keys@).push(labels_view(key@)));
                    assert(keys_view(keys@).push(before[0]) + before.skip(1) =~= keys_view(keys@)
                        + before);
                }
                keys.push(key);
            },
            None => {
                assert(keys_view(keys@) + before =~= keys_view(keys@));
                break ;
            },
        }
    }
    keys
}

/// Classifies `seed` along every axis of a chain at once: one key for every
/// combination of the labels that the analyzers of the chain give it, in the
/// order in which the first analyzer's labels vary slowest.
pub fn analyze_chain<S>(chain: &ChainedAnalyzers<S>, seed: &S) -> (keys: Vec<Vec<Rc<String>>>)
    ensures
        keys_view(keys@) == cartesian_product(chain_labels(chain@, seed)),
{
    chain_keys(classify(chain, seed))
}

} // verus!
