//! The scoreboard: how often each subject answered.

use vstd::multiset::*;
use vstd::prelude::*;
use vstd::seq_lib::*;

verus! {

/// One line of the score file.
#[derive(Clone, Debug, PartialEq, Eq)]
pub struct Record {
    pub user_id: String,
    pub point: i64,
}

/// The score of `k` in `m`; a subject that is not on the board has none.
pub open spec fn score_in(m: Map<Seq<char>, int>, k: Seq<char>) -> int {
    if m.dom().contains(k) {
        m[k]
    } else {
        0
    }
}

/// One more point for `k`: insert with 1, or add 1.
pub open spec fn bump(m: Map<Seq<char>, int>, k: Seq<char>) -> Map<Seq<char>, int> {
    m.insert(k, score_in(m, k) + 1)
}

/// The board after one point for each of `keys`, in that order, starting
/// from an empty board.
pub open spec fn tally(keys: Seq<Seq<char>>) -> Map<Seq<char>, int>
    decreases keys.len(),
{
    if keys.len() == 0 {
        Map::empty()
    } else {
        bump(tally(keys.drop_last()), keys.last())
    }
}

/// The board that a list of pairs stands for; a later pair overrides an
/// earlier one of the same subject.
pub open spec fn scores_of(pairs: Seq<(String, i64)>) -> Map<Seq<char>, int>
    decreases pairs.len(),
{
    if pairs.len() == 0 {
        Map::empty()
    } else {
        scores_of(pairs.drop_last()).insert(pairs.last().0@, pairs.last().1 as int)
    }
}

/// No subject has two pairs.
pub open spec fn distinct_subjects(pairs: Seq<(String, i64)>) -> bool {
    forall|i: int, j: int| 0 <= i < j < pairs.len() ==> pairs[i].0@ != pairs[j].0@
}

/// `records` says of each subject what `pairs` says, line by line.
pub open spec fn records_match(records: Seq<Record>, pairs: Seq<(String, i64)>) -> bool {
    &&& records.len() == pairs.len()
    &&& forall|i: int|
        0 <= i < pairs.len() ==> (#[trigger] records[i]).user_id@ == pairs[i].0@ && records[i].point
            == pairs[i].1
}

/// `records` lists the board `m`: one line for each subject on it, with its
/// score, and no other line.
pub open spec fn lists_board(records: Seq<Record>, m: Map<Seq<char>, int>) -> bool {
    &&& forall|i: int, j: int|
        0 <= i < j < records.len() ==> records[i].user_id@ != records[j].user_id@
    &&& forall|i: int|
        0 <= i < records.len() ==> m.dom().contains((#[trigger] records[i]).user_id@)
            && m[records[i].user_id@] == records[i].point
    &&& forall|k: Seq<char>|
        m.dom().contains(k) ==> exists|i: int|
            0 <= i < records.len() && (#[trigger] records[i]).user_id@ == k
}

impl Record {
    /// Turns pairs of a subject and its score into records, in the same
    /// order.
    pub fn from_iter(pairs: &Vec<(String, i64)>) -> (records: Vec<Record>)
        ensures
            records_match(records@, pairs@),
    {
        let mut records: Vec<Record> = Vec::new();
        let mut i: usize = 0;
        while i < pairs.len()
            invariant
                i <= pairs.len(),
                records_match(records@, pairs@.take(i as int)),
            decreases pairs.len() - i,
        {
            let record = Record { user_id: pairs[i].0.clone(), point: pairs[i].1 };
            records.push(record);
            i += 1;
        }
        proof {
            assert(pairs@.take(pairs.len() as int) =~= pairs@);
        }
        records
    }
}

/// A subject is on the board of a list exactly if it has a pair, and where
/// no subject has two, its score is that of its pair.
proof fn lemma_scores_of(pairs: Seq<(String, i64)>)
    ensures
        forall|k: Seq<char>|
            scores_of(pairs).dom().contains(k) <==> exists|i: int|
                0 <= i < pairs.len() && (#[trigger] pairs[i]).0@ == k,
        distinct_subjects(pairs) ==> forall|i: int|
            0 <= i < pairs.len() ==> scores_of(pairs)[(#[trigger] pairs[i]).0@] == pairs[i].1,
        scores_of(pairs).dom().finite(),
    decreases pairs.len(),
{
    if pairs.len() > 0 {
        let rest = pairs.drop_last();
        let last = pairs.last();
        lemma_scores_of(rest);
        assert forall|k: Seq<char>|
            scores_of(pairs).dom().contains(k) <==> exists|i: int|
                0 <= i < pairs.len() && (#[trigger] pairs[i]).0@ == k by {
            if scores_of(pairs).dom().contains(k) {
                if k == last.0@ {
                    assert(pairs[pairs.len() - 1].0@ == k);
                } else {
                    let i = choose|i: int| 0 <= i < rest.len() && (#[trigger] rest[i]).0@ == k;
                    assert(pairs[i].0@ == k);
                }
            }
            if exists|i: int| 0 <= i < pairs.len() && (#[trigger] pairs[i]).0@ == k {
                let i = choose|i: int| 0 <= i < pairs.len() && (#[trigger] pairs[i]).0@ == k;
                if i < rest.len() {
                    assert(rest[i].0@ == k);
                }
            }
        }
        if distinct_subjects(pairs) {
            assert(distinct_subjects(rest)) by {
                assert forall|i: int, j: int| 0 <= i < j < rest.len() implies rest[i].0@
                    != rest[j].0@ by {
                    assert(pairs[i].0@ != pairs[j].0@);
                }
            }
            assert forall|i: int| 0 <= i < pairs.len() implies scores_of(pairs)[(
            #[trigger] pairs[i]).0@] == pairs[i].1 by {
                if i < rest.len() {
                    assert(rest[i].0@ == pairs[i].0@);
                    assert(pairs[i].0@ != pairs[pairs.len() - 1].0@);
                }
            }
        }
    }
}

/// The scores of all subjects, shared by everything that runs.
///
/// Subjects are kept in the order in which they first scored.
pub struct Scoreboard {
    entries: Vec<(String, i64)>,
}

impl View for Scoreboard {
    type V = Map<Seq<char>, int>;

    closed spec fn view(&self) -> Map<Seq<char>, int> {
        scores_of(self.entries@)
    }
}

impl Scoreboard {
    /// The invariant of the type: one entry for each subject on the board.
    pub closed spec fn wf(&self) -> bool {
        &&& distinct_subjects(self.entries@)
        &&& forall|i: int| 0 <= i < self.entries@.len() ==> (#[trigger] self.entries@[i]).1 >= 1
    }

    /// The score of a subject; 0 for one that never scored.
    pub open spec fn score_of(&self, subject: Seq<char>) -> int {
        score_in(self@, subject)
    }

    /// An empty board.
    pub fn new() -> (board: Scoreboard)
        ensures
            board.wf(),
            board@ == Map::<Seq<char>, int>::empty(),
    {
        Scoreboard { entries: Vec::new() }
    }

    /// The number of subjects on the board.
    pub fn len(&self) -> (n: usize)
        requires
            self.wf(),
        ensures
            n == self@.dom().len(),
            self@.dom().finite(),
    {
        proof {
            self.lemma_dom_len();
        }
        self.entries.len()
    }

    /// Whether no subject has scored.
    pub fn is_empty(&self) -> (empty: bool)
        requires
            self.wf(),
        ensures
            empty == (self@ == Map::<Seq<char>, int>::empty()),
    {
        proof {
            lemma_scores_of(self.entries@);
            if self.entries@.len() > 0 {
                assert(self@.dom().contains(self.entries@[0].0@));
            } else {
                assert(self@ =~= Map::<Seq<char>, int>::empty());
            }
        }
        self.entries.len() == 0
    }

    /// Where `subject` stands among the entries.
    fn find(&self, subject: &String) -> (at: Option<usize>)
        requires
            self.wf(),
        ensures
            match at {
                Some(i) => i < self.entries@.len() && self.entries@[i as int].0@ == subject@,
                None => !self@.dom().contains(subject@),
            },
    {
        let mut i: usize = 0;
        while i < self.entries.len()
            invariant
                i <= self.entries.len(),
                forall|j: int| 0 <= j < i ==> (#[trigger] self.entries@[j]).0@ != subject@,
            decreases self.entries.len() - i,
        {
            if self.entries[i].0 == *subject {
                return Some(i);
            }
            i += 1;
        }
        proof {
            lemma_scores_of(self.entries@);
        }
        None
    }

    /// The score of a subject; 0 for one that never scored.
    pub fn score(&self, subject: &str) -> (points: i64)
        requires
            self.wf(),
        ensures
            points == self.score_of(subject@),
    {
        let key = subject.to_owned();
        proof {
            lemma_scores_of(self.entries@);
        }
        match self.find(&key) {
            Some(i) => self.entries[i].1,
            None => 0,
        }
    }

    /// Gives `subject` one more point: a subject that is not on the board
    /// joins it with 1. Returns the new score.
    pub fn increment(&mut self, subject: &str) -> (points: i64)
        requires
            old(self).wf(),
            old(self).score_of(subject@) < i64::MAX,
        ensures
            final(self).wf(),
            final(self)@ == bump(old(self)@, subject@),
            points == old(self).score_of(subject@) + 1,
    {
        let key = subject.to_owned();
        proof {
            lemma_scores_of(self.entries@);
        }
        match self.find(&key) {
            Some(i) => {
                let points = self.entries[i].1 + 1;
                let ghost before = self.entries@;
                self.entries.set(i, (key, points));
                proof {
                    lemma_update_scores(before, i as int, (key, points));
                }
                points
            },
            None => {
                let ghost before = self.entries@;
                self.entries.push((key, 1));
                proof {
                    assert(self.entries@.drop_last() =~= before);
                    assert forall|a: int, b: int|
                        0 <= a < b < self.entries@.len() implies self.entries@[a].0@
                        != self.entries@[b].0@ by {
                        if b == before.len() {
                            assert(before[a].0@ != subject@);
                        } else {
                            assert(before[a].0@ != before[b].0@);
                        }
                    }
                }
                1
            },
        }
    }

    /// The board as records, one for each subject, in the order in which
    /// the subjects first scored. The board stays as it is.
    pub fn snapshot(&self) -> (records: Vec<Record>)
        requires
            self.wf(),
        ensures
            lists_board(records@, self@),
            records@.len() == self@.dom().len(),
    {
        let records = Record::from_iter(&self.entries);
        proof {
            self.lemma_dom_len();
            lemma_records_list(records@, self.entries@);
        }
        records
    }

    /// Takes everything off the board in one step: returns the records of
    /// the board as it was and leaves it empty, so that no point is counted
    /// twice and none is lost.
    pub fn flush(&mut self) -> (records: Vec<Record>)
        requires
            old(self).wf(),
        ensures
            final(self).wf(),
            final(self)@ == Map::<Seq<char>, int>::empty(),
            lists_board(records@, old(self)@),
            records@.len() == old(self)@.dom().len(),
    {
        let records = self.snapshot();
        self.entries.clear();
        records
    }

    /// The board has as many subjects as entries.
    proof fn lemma_dom_len(&self)
        requires
            self.wf(),
        ensures
            self@.dom().finite(),
            self@.dom().len() == self.entries@.len(),
    {
        lemma_distinct_dom_len(self.entries@);
    }

    /// Every subject on the board has at least one point.
    pub proof fn lemma_scores_positive(&self)
        requires
            self.wf(),
        ensures
            forall|k: Seq<char>| self@.dom().contains(k) ==> self@[k] >= 1,
    {
        lemma_scores_of(self.entries@);
        assert forall|k: Seq<char>| self@.dom().contains(k) implies self@[k] >= 1 by {
            let i = choose|i: int|
                0 <= i < self.entries@.len() && (#[trigger] self.entries@[i]).0@ == k;
            assert(self.entries@[i].1 >= 1);
        }
    }
}

/// No point is lost and none is counted twice: after one point for each
/// of `keys`, a subject has as many points as it occurs among them, and is
/// on the board exactly if it occurs at all.
pub proof fn lemma_tally_counts(keys: Seq<Seq<char>>, k: Seq<char>)
    ensures
        score_in(tally(keys), k) == keys.to_multiset().count(k),
        tally(keys).dom().contains(k) <==> keys.contains(k),
    decreases keys.len(),
{
    broadcast use {group_to_multiset_ensures, group_multiset_axioms};

    if keys.len() == 0 {
        assert(keys.to_multiset().len() == 0);
        assert(keys.to_multiset().count(k) == 0);
    } else {
        let rest = keys.drop_last();
        let last = keys.last();
        lemma_tally_counts(rest, k);
        assert(keys =~= rest.push(last));
        assert(keys.to_multiset() =~= rest.to_multiset().insert(last));
        if k == last {
            assert(keys[keys.len() - 1] == k);
        } else {
            if keys.contains(k) {
                let i = choose|i: int| 0 <= i < keys.len() && keys[i] == k;
                assert(rest[i] == k);
            }
            if rest.contains(k) {
                let i = choose|i: int| 0 <= i < rest.len() && rest[i] == k;
                assert(keys[i] == k);
            }
        }
    }
}

/// The order in which the points are given does not matter: the same
/// points in any other order leave the same board.
pub proof fn lemma_tally_any_order(a: Seq<Seq<char>>, b: Seq<Seq<char>>)
    requires
        a.to_multiset() == b.to_multiset(),
    ensures
        tally(a) == tally(b),
{
    assert forall|k: Seq<char>| tally(a).dom().contains(k) <==> tally(b).dom().contains(k) by {
        lemma_tally_counts(a, k);
        lemma_tally_counts(b, k);
        to_multiset_contains(a, k);
        to_multiset_contains(b, k);
    }
    assert forall|k: Seq<char>| tally(a).dom().contains(k) implies tally(a)[k] == tally(b)[k] by {
        lemma_tally_counts(a, k);
        lemma_tally_counts(b, k);
    }
    assert(tally(a) =~= tally(b));
}

/// Where each of several subjects is given one point, in whatever order,
/// each of them ends with exactly one point, and nobody else is on the
/// board.
pub proof fn lemma_tally_once_each(keys: Seq<Seq<char>>)
    requires
        keys.no_duplicates(),
    ensures
        forall|i: int|
            0 <= i < keys.len() ==> tally(keys).dom().contains(#[trigger] keys[i]) && tally(
                keys,
            )[keys[i]] == 1,
        forall|k: Seq<char>| tally(keys).dom().contains(k) ==> keys.contains(k),
{
    keys.lemma_multiset_has_no_duplicates();
    assert forall|i: int| 0 <= i < keys.len() implies tally(keys).dom().contains(
        #[trigger] keys[i],
    ) && tally(keys)[keys[i]] == 1 by {
        lemma_tally_counts(keys, keys[i]);
        to_multiset_contains(keys, keys[i]);
        assert(keys.contains(keys[i]));
    }
    assert forall|k: Seq<char>| tally(keys).dom().contains(k) implies keys.contains(k) by {
        lemma_tally_counts(keys, k);
    }
}

/// A list of a board says of every subject what the board says, and it is
/// as long as the board has subjects.
pub proof fn lemma_listing_is_exact(records: Seq<Record>, m: Map<Seq<char>, int>, k: Seq<char>)
    requires
        lists_board(records, m),
    ensures
        m.dom().contains(k) <==> exists|i: int|
            0 <= i < records.len() && (#[trigger] records[i]).user_id@ == k,
        forall|i: int|
            0 <= i < records.len() && (#[trigger] records[i]).user_id@ == k ==> records[i].point
                == score_in(m, k),
{
}

/// Where no subject has two pairs, the board has as many subjects as the
/// list has pairs.
proof fn lemma_distinct_dom_len(pairs: Seq<(String, i64)>)
    requires
        distinct_subjects(pairs),
    ensures
        scores_of(pairs).dom().finite(),
        scores_of(pairs).dom().len() == pairs.len(),
    decreases pairs.len(),
{
    lemma_scores_of(pairs);
    if pairs.len() > 0 {
        let rest = pairs.drop_last();
        assert(distinct_subjects(rest)) by {
            assert forall|i: int, j: int| 0 <= i < j < rest.len() implies rest[i].0@
                != rest[j].0@ by {
                assert(pairs[i].0@ != pairs[j].0@);
            }
        }
        lemma_distinct_dom_len(rest);
        lemma_scores_of(rest);
        let k = pairs.last().0@;
        assert(!scores_of(rest).dom().contains(k)) by {
            if scores_of(rest).dom().contains(k) {
                let i = choose|i: int| 0 <= i < rest.len() && (#[trigger] rest[i]).0@ == k;
                assert(pairs[i].0@ != pairs[pairs.len() - 1].0@);
            }
        }
        assert(scores_of(pairs).dom() =~= scores_of(rest).dom().insert(k));
    }
}

/// A new score in the pair of a subject is a new score on the board.
proof fn lemma_update_scores(pairs: Seq<(String, i64)>, i: int, entry: (String, i64))
    requires
        distinct_subjects(pairs),
        0 <= i < pairs.len(),
        entry.0@ == pairs[i].0@,
    ensures
        distinct_subjects(pairs.update(i, entry)),
        scores_of(pairs.update(i, entry)) == scores_of(pairs).insert(entry.0@, entry.1 as int),
{
    let after = pairs.update(i, entry);
    assert forall|a: int, b: int| 0 <= a < b < after.len() implies after[a].0@ != after[b].0@ by {
        assert(pairs[a].0@ != pairs[b].0@);
    }
    lemma_scores_of(pairs);
    lemma_scores_of(after);
    let want = scores_of(pairs).insert(entry.0@, entry.1 as int);
    assert forall|k: Seq<char>| scores_of(after).dom().contains(k) <==> want.dom().contains(
        k,
    ) by {
        if scores_of(after).dom().contains(k) {
            let j = choose|j: int| 0 <= j < after.len() && (#[trigger] after[j]).0@ == k;
            assert(pairs[j].0@ == k);
        }
        if want.dom().contains(k) {
            if k == entry.0@ {
                assert(after[i].0@ == k);
            } else {
                let j = choose|j: int| 0 <= j < pairs.len() && (#[trigger] pairs[j]).0@ == k;
                assert(after[j].0@ == k);
            }
        }
    }
    assert forall|k: Seq<char>| want.dom().contains(k) implies scores_of(after)[k] == want[k] by {
        let j = choose|j: int| 0 <= j < after.len() && (#[trigger] after[j]).0@ == k;
        assert(scores_of(after)[after[j].0@] == after[j].1);
        if j != i {
            assert(pairs[j].0@ == k);
            assert(scores_of(pairs)[pairs[j].0@] == pairs[j].1);
            if j < i {
                assert(pairs[j].0@ != pairs[i].0@);
            } else {
                assert(pairs[i].0@ != pairs[j].0@);
            }
        }
    }
    assert(scores_of(after) =~= want);
}

/// Records made from the pairs of a board list that board.
proof fn lemma_records_list(records: Seq<Record>, pairs: Seq<(String, i64)>)
    requires
        records_match(records, pairs),
        distinct_subjects(pairs),
    ensures
        lists_board(records, scores_of(pairs)),
{
    lemma_scores_of(pairs);
    let m = scores_of(pairs);
    assert forall|i: int, j: int| 0 <= i < j < records.len() implies records[i].user_id@
        != records[j].user_id@ by {
        assert(pairs[i].0@ != pairs[j].0@);
    }
    assert forall|i: int| 0 <= i < records.len() implies m.dom().contains(
        (#[trigger] records[i]).user_id@,
    ) && m[records[i].user_id@] == records[i].point by {
        assert(pairs[i].0@ == records[i].user_id@);
        assert(m[pairs[i].0@] == pairs[i].1);
    }
    assert forall|k: Seq<char>| m.dom().contains(k) implies exists|i: int|
        0 <= i < records.len() && (#[trigger] records[i]).user_id@ == k by {
        let i = choose|i: int| 0 <= i < pairs.len() && (#[trigger] pairs[i]).0@ == k;
        assert(records[i].user_id@ == k);
    }
}

} // verus!
