//! The order of the rows of a report: a natural comparison, label by label.
//!
//! A label that reads as a number, however large, ranks by its value and
//! before every label that does not; the others rank as text, character by
//! character. Keys compare by the first position at which their labels rank
//! differently.

use vstd::prelude::*;
use crate::analyzers::Key;
use crate::text::{
    canonical, digits_value, numeral_of, numeral_precedes, parse_decimal, to_chars,
};

verus! {

/// What a label counts as when rows are put in order.
pub enum Rank {
    Number(nat),
    Text(Seq<char>),
}

/// The rank of a label.
pub open spec fn rank_of(label: Seq<char>) -> Rank {
    match parse_decimal(label) {
        Some(number) => Rank::Number(number),
        None => Rank::Text(label),
    }
}

/// Whether `a` comes before `b` as text, going by the characters from
/// position `from` on: the first character that differs decides, and a text
/// comes before every longer text that begins with it.
pub open spec fn text_before_from(a: Seq<char>, b: Seq<char>, from: int) -> bool
    decreases a.len() - from,
{
    if from >= b.len() {
        false
    } else if from >= a.len() {
        true
    } else if a[from] != b[from] {
        a[from] < b[from]
    } else {
        text_before_from(a, b, from + 1)
    }
}

/// Whether `a` comes before `b` as text.
pub open spec fn text_before(a: Seq<char>, b: Seq<char>) -> bool {
    text_before_from(a, b, 0)
}

/// Whether rank `a` comes before rank `b`: numbers by value, every number
/// before every text, texts as text.
pub open spec fn rank_before(a: Rank, b: Rank) -> bool {
    match (a, b) {
        (Rank::Number(x), Rank::Number(y)) => x < y,
        (Rank::Number(_), Rank::Text(_)) => true,
        (Rank::Text(_), Rank::Number(_)) => false,
        (Rank::Text(x), Rank::Text(y)) => text_before(x, y),
    }
}

/// Whether the ranks `a` come before the ranks `b`, going by the positions
/// from `from` on: the first position at which one rank comes before the other
/// decides, and a sequence comes before every longer one that begins with it.
pub open spec fn ranks_before_from(a: Seq<Rank>, b: Seq<Rank>, from: int) -> bool
    decreases a.len() - from,
{
    if from >= b.len() {
        false
    } else if from >= a.len() {
        true
    } else if rank_before(a[from], b[from]) {
        true
    } else if rank_before(b[from], a[from]) {
        false
    } else {
        ranks_before_from(a, b, from + 1)
    }
}

/// The ranks of the labels of a key.
pub open spec fn key_ranks(key: Key) -> Seq<Rank> {
    key.map_values(|label: Seq<char>| rank_of(label))
}

/// Whether a row with key `a` has to stand above a row with key `b`.
pub open spec fn key_before(a: Key, b: Key) -> bool {
    ranks_before_from(key_ranks(a), key_ranks(b), 0)
}

/// The order of texts is transitive, from any position on.
proof fn lemma_text_before_transitive(a: Seq<char>, b: Seq<char>, c: Seq<char>, from: int)
    requires
        0 <= from,
        text_before_from(a, b, from),
        text_before_from(b, c, from),
    ensures
        text_before_from(a, c, from),
    decreases a.len() - from,
{
    if from < a.len() && a[from] == b[from] && b[from] == c[from] {
        lemma_text_before_transitive(a, b, c, from + 1);
    }
}

/// Two texts of which neither comes before the other, going by the
/// characters from `from` on, are equal from there on.
proof fn lemma_text_tie_from(a: Seq<char>, b: Seq<char>, from: int)
    requires
        0 <= from <= a.len(),
        from <= b.len(),
        !text_before_from(a, b, from),
        !text_before_from(b, a, from),
    ensures
        a.len() == b.len(),
        forall|i: int| from <= i < a.len() ==> a[i] == b[i],
    decreases a.len() - from,
{
    if from < a.len() && from < b.len() {
        lemma_text_tie_from(a, b, from + 1);
    }
}

/// Of two different texts one comes before the other.
pub proof fn lemma_text_total(a: Seq<char>, b: Seq<char>)
    ensures
        text_before(a, b) || text_before(b, a) || a == b,
{
    if !text_before(a, b) && !text_before(b, a) {
        lemma_text_tie_from(a, b, 0);
        assert(a =~= b);
    }
}

/// Of two different ranks one comes before the other.
pub proof fn lemma_rank_total(a: Rank, b: Rank)
    ensures
        rank_before(a, b) || rank_before(b, a) || a == b,
{
    match (a, b) {
        (Rank::Text(x), Rank::Text(y)) => {
            lemma_text_total(x, y);
        },
        _ => {},
    }
}

/// `rank_before` is transitive.
pub proof fn lemma_rank_before_transitive(a: Rank, b: Rank, c: Rank)
    requires
        rank_before(a, b),
        rank_before(b, c),
    ensures
        rank_before(a, c),
{
    match (a, b, c) {
        (Rank::Text(x), Rank::Text(y), Rank::Text(z)) => {
            lemma_text_before_transitive(x, y, z, 0);
        },
        _ => {},
    }
}

/// No text comes before itself.
proof fn lemma_text_irreflexive(a: Seq<char>, from: int)
    requires
        0 <= from,
    ensures
        !text_before_from(a, a, from),
    decreases a.len() - from,
{
    if from < a.len() {
        lemma_text_irreflexive(a, from + 1);
    }
}

/// No rank comes before itself.
pub proof fn lemma_rank_irreflexive(a: Rank)
    ensures
        !rank_before(a, a),
{
    match a {
        Rank::Text(x) => {
            lemma_text_irreflexive(x, 0);
        },
        _ => {},
    }
}

/// The order of the rows is transitive, from any position on.
proof fn lemma_ranks_before_transitive_from(a: Seq<Rank>, b: Seq<Rank>, c: Seq<Rank>, from: int)
    requires
        0 <= from,
        ranks_before_from(a, b, from),
        ranks_before_from(b, c, from),
    ensures
        ranks_before_from(a, c, from),
    decreases a.len() - from,
{
    if from < a.len() {
        // `b` and `c` reach position `from` too, since each has something after `a`
        lemma_rank_total(a[from], b[from]);
        lemma_rank_total(b[from], c[from]);
        lemma_rank_irreflexive(a[from]);
        lemma_rank_irreflexive(b[from]);
        if rank_before(a[from], b[from]) {
            if rank_before(b[from], c[from]) {
                lemma_rank_before_transitive(a[from], b[from], c[from]);
            }
            if rank_before(c[from], a[from]) {
                lemma_rank_before_transitive(c[from], a[from], b[from]);
            }
        } else if rank_before(b[from], c[from]) {
            if rank_before(c[from], a[from]) {
                lemma_rank_before_transitive(b[from], c[from], a[from]);
            }
        } else {
            lemma_ranks_before_transitive_from(a, b, c, from + 1);
        }
    }
}

/// No row has to stand above itself.
proof fn lemma_ranks_irreflexive(a: Seq<Rank>, from: int)
    requires
        0 <= from,
    ensures
        !ranks_before_from(a, a, from),
    decreases a.len() - from,
{
    if from < a.len() {
        lemma_rank_irreflexive(a[from]);
        lemma_ranks_irreflexive(a, from + 1);
    }
}

/// The order of the rows is transitive.
pub proof fn lemma_ranks_before_transitive(a: Seq<Rank>, b: Seq<Rank>, c: Seq<Rank>)
    requires
        ranks_before_from(a, b, 0),
        ranks_before_from(b, c, 0),
    ensures
        ranks_before_from(a, c, 0),
{
    lemma_ranks_before_transitive_from(a, b, c, 0);
}


/// The rank of a label, worked out once for each label of a row. A number
/// is kept as its digits in shortest form, so that no number is too large.
pub enum LabelRank {
    Number(Vec<char>),
    Text(Vec<char>),
}

impl View for LabelRank {
    type V = Rank;

    open spec fn view(&self) -> Rank {
        match self {
            LabelRank::Number(digits) => Rank::Number(digits_value(digits@)),
            LabelRank::Text(text) => Rank::Text(text@),
        }
    }
}

impl LabelRank {
    /// Whether a number is kept in shortest form, as `label_rank` makes it.
    pub open spec fn wf(&self) -> bool {
        match self {
            LabelRank::Number(digits) => canonical(digits@),
            LabelRank::Text(_) => true,
        }
    }
}

/// The ranks that a list of label ranks stands for.
pub open spec fn ranks_view(ranks: Seq<LabelRank>) -> Seq<Rank> {
    ranks.map_values(|rank: LabelRank| rank@)
}

/// Whether every number in a list of label ranks is kept in shortest form.
pub open spec fn ranks_wf(ranks: Seq<LabelRank>) -> bool {
    forall|i: int| 0 <= i < ranks.len() ==> (#[trigger] ranks[i]).wf()
}

/// Works out the rank of a label.
pub fn label_rank(label: &str) -> (rank: LabelRank)
    ensures
        rank.wf(),
        rank@ == rank_of(label@),
{
    match numeral_of(label) {
        Some(digits) => LabelRank::Number(digits),
        None => LabelRank::Text(to_chars(label)),
    }
}

/// Whether `a` comes before `b` as text.
pub fn text_precedes(a: &Vec<char>, b: &Vec<char>) -> (before: bool)
    ensures
        before == text_before(a@, b@),
{
    let mut i: usize = 0;
    while i < a.len() && i < b.len()
        invariant
            i <= a.len(),
            i <= b.len(),
            text_before(a@, b@) == text_before_from(a@, b@, i as int),
        decreases a.len() - i,
    {
        if a[i] != b[i] {
            return a[i] < b[i];
        }
        i += 1;
    }
    i < b.len()
}

/// Whether rank `a` comes before rank `b`.
pub fn rank_precedes(a: &LabelRank, b: &LabelRank) -> (before: bool)
    requires
        a.wf(),
        b.wf(),
    ensures
        before == rank_before(a@, b@),
{
    match a {
        LabelRank::Number(x) => match b {
            LabelRank::Number(y) => numeral_precedes(x, y),
            LabelRank::Text(_) => true,
        },
        LabelRank::Text(x) => match b {
            LabelRank::Number(_) => false,
            LabelRank::Text(y) => text_precedes(x, y),
        },
    }
}

/// Whether a row with the label ranks `a` has to stand above one with the
/// label ranks `b`.
pub fn ranks_precede(a: &Vec<LabelRank>, b: &Vec<LabelRank>) -> (before: bool)
    requires
        ranks_wf(a@),
        ranks_wf(b@),
    ensures
        before == ranks_before_from(ranks_view(a@), ranks_view(b@), 0),
{
    let mut i: usize = 0;
    while i < a.len() && i < b.len()
        invariant
            i <= a.len(),
            i <= b.len(),
            ranks_wf(a@),
            ranks_wf(b@),
            ranks_before_from(ranks_view(a@), ranks_view(b@), 0) == ranks_before_from(
                ranks_view(a@),
                ranks_view(b@),
                i as int,
            ),
        decreases a.len() - i,
    {
        if rank_precedes(&a[i], &b[i]) {
            return true;
        }
        if rank_precedes(&b[i], &a[i]) {
            return false;
        }
        i += 1;
    }
    i < b.len()
}

/// Whether `order` names every one of `len` rows exactly once.
pub open spec fn is_arrangement(order: Seq<usize>, len: nat) -> bool {
    &&& order.len() == len
    &&& forall|a: int| 0 <= a < order.len() ==> (#[trigger] order[a]) < len
    &&& forall|a: int, b: int| 0 <= a < b < order.len() ==> order[a] != order[b]
    &&& forall|row: usize| row < len ==> #[trigger] order.contains(row)
}

/// Whether the rows, taken in the order `order`, stand in natural order: no
/// row has to stand above one that comes earlier.
pub open spec fn arranged(rows: Seq<Seq<Rank>>, order: Seq<usize>) -> bool {
    forall|a: int, b: int|
        0 <= a < b < order.len() ==> !ranks_before_from(
            #[trigger] rows[order[b] as int],
            #[trigger] rows[order[a] as int],
            0,
        )
}

/// The label ranks of each row, as ranks.
pub open spec fn rows_ranks(rows: Seq<Vec<LabelRank>>) -> Seq<Seq<Rank>> {
    rows.map_values(|row: Vec<LabelRank>| ranks_view(row@))
}

/// The order in which to write rows with the label ranks `rows`: every row
/// once, none above a row that has to stand above it.
pub fn natural_order(rows: &Vec<Vec<LabelRank>>) -> (order: Vec<usize>)
    requires
        forall|row: int| 0 <= row < rows@.len() ==> ranks_wf((#[trigger] rows@[row])@),
    ensures
        is_arrangement(order@, rows@.len()),
        arranged(rows_ranks(rows@), order@),
{
    let ghost ranks = rows_ranks(rows@);
    let mut order: Vec<usize> = Vec::new();
    let mut next: usize = 0;
    while next < rows.len()
        invariant
            next <= rows.len(),
            forall|row: int| 0 <= row < rows@.len() ==> ranks_wf((#[trigger] rows@[row])@),
            ranks == rows_ranks(rows@),
            is_arrangement(order@, next as nat),
            arranged(ranks, order@),
        decreases rows.len() - next,
    {
        let mut place: usize = 0;
        while place < order.len() && !ranks_precede(&rows[next], &rows[order[place]])
            invariant
                place <= order.len(),
                next < rows.len(),
                forall|row: int| 0 <= row < rows@.len() ==> ranks_wf((#[trigger] rows@[row])@),
                ranks == rows_ranks(rows@),
                is_arrangement(order@, next as nat),
                forall|a: int|
                    0 <= a < place ==> !ranks_before_from(
                        ranks[next as int],
                        #[trigger] ranks[order@[a] as int],
                        0,
                    ),
            decreases order.len() - place,
        {
            place += 1;
        }
        let ghost before = order@;
        order.insert(place, next);
        proof {
            let after = order@;
            assert forall|a: int| 0 <= a < after.len() implies {
                &&& a < place ==> after[a] == before[a]
                &&& a == place ==> after[a] == next
                &&& a > place ==> after[a] == before[a - 1]
            } by {}
            assert forall|row: usize| row < next + 1 implies #[trigger] after.contains(row) by {
                if row == next {
                    assert(after[place as int] == row);
                } else {
                    assert(before.contains(row));
                    let a = choose|a: int| 0 <= a < before.len() && before[a] == row;
                    if a < place {
                        assert(after[a] == row);
                    } else {
                        assert(after[a + 1] == row);
                    }
                }
            }
            assert forall|a: int, b: int| 0 <= a < b < after.len() implies !ranks_before_from(
                #[trigger] ranks[after[b] as int],
                #[trigger] ranks[after[a] as int],
                0,
            ) by {
                if b == place {
                    // the new row does not have to stand above any row before its place
                } else if a == place {
                    // the row at `place` has to stand below the new one, and the rows
                    // after it do not have to stand above that row
                    let first = before[place as int];
                    let later = before[b - 1];
                    if b - 1 > place {
                        assert(!ranks_before_from(ranks[later as int], ranks[first as int], 0));
                    }
                    if ranks_before_from(ranks[later as int], ranks[next as int], 0) {
                        lemma_ranks_before_transitive(
                            ranks[later as int],
                            ranks[next as int],
                            ranks[first as int],
                        );
                        if b - 1 == place {
                            lemma_ranks_irreflexive(ranks[first as int], 0);
                        }
                    }
                } else {
                    let x = if a < place {
                        a
                    } else {
                        a - 1
                    };
                    let y = if b < place {
                        b
                    } else {
                        b - 1
                    };
                    assert(!ranks_before_from(ranks[before[y] as int], ranks[before[x] as int], 0));
                }
            }
        }
        next += 1;
    }
    order
}

} // verus!
