//! The score ranking service: it records every score that is submitted and
//! answers with the score's rank and the best scores so far.
//!
//! The history of submitted scores is kept in descending order. A score's
//! rank is the number of recorded scores that are greater, so equal scores
//! share the rank of the first of them.

use vstd::prelude::*;
use vstd::seq_lib::{to_multiset_remove, group_to_multiset_ensures};

verus! {

/// Most scores that a service records: a rank has to fit 32 bits.
pub const HISTORY_LIMIT: usize = 0xffff_ffff;

/// A score to record, and how many of the best scores to answer with.
#[derive(Clone, Copy, Debug, PartialEq, Eq, Structural)]
pub struct ScoreRequest {
    pub score: u32,
    pub topk: u32,
}

/// The answer to a request: the rank of the submitted score, counted from
/// zero, and the best scores in descending order.
#[derive(Debug, PartialEq, Eq)]
pub struct ScoreResponse {
    pub success: bool,
    pub rank: u32,
    pub scores: Vec<u32>,
}

/// Whether no score in the sequence is followed by a greater one.
pub open spec fn descending(history: Seq<u32>) -> bool {
    forall|i: int, j: int| 0 <= i <= j < history.len() ==> history[i] >= history[j]
}

/// The rank of `score` against `history`: the number of recorded scores
/// that are greater.
pub open spec fn rank_of(history: Seq<u32>, score: u32) -> nat {
    history.filter(|recorded: u32| recorded > score).len()
}

/// The history after `score` has been recorded: it stands at its rank.
pub open spec fn recorded(history: Seq<u32>, score: u32) -> Seq<u32> {
    history.insert(rank_of(history, score) as int, score)
}

/// The best `k` scores of a history in descending order, or all of them
/// where there are fewer.
pub open spec fn best(history: Seq<u32>, k: nat) -> Seq<u32> {
    if k <= history.len() {
        history.take(k as int)
    } else {
        history
    }
}

/// Where the scores before position `k` are greater than `score` and the
/// others are not, the rank of `score` is `k`.
pub proof fn lemma_rank_is_split(history: Seq<u32>, score: u32, k: int)
    requires
        0 <= k <= history.len(),
        forall|i: int| 0 <= i < k ==> history[i] > score,
        forall|i: int| k <= i < history.len() ==> history[i] <= score,
    ensures
        rank_of(history, score) == k,
    decreases history.len(),
{
    reveal(Seq::filter);
    if history.len() > 0 {
        let shorter = history.drop_last();
        if k == history.len() {
            lemma_rank_is_split(shorter, score, k - 1);
        } else {
            lemma_rank_is_split(shorter, score, k);
        }
    }
}

/// A descending history splits at some position into the scores that are
/// greater than `score` and those that are not.
proof fn lemma_split_point(history: Seq<u32>, score: u32) -> (k: int)
    requires
        descending(history),
    ensures
        0 <= k <= history.len(),
        forall|i: int| 0 <= i < k ==> history[i] > score,
        forall|i: int| k <= i < history.len() ==> history[i] <= score,
    decreases history.len(),
{
    if history.len() == 0 {
        0
    } else if history.last() > score {
        assert forall|i: int| 0 <= i < history.len() implies history[i] > score by {
            assert(history[i] >= history[history.len() - 1]);
        }
        history.len() as int
    } else {
        let shorter = history.drop_last();
        assert forall|i: int, j: int| 0 <= i <= j < shorter.len() implies shorter[i]
            >= shorter[j] by {
            assert(history[i] >= history[j]);
        }
        let k = lemma_split_point(shorter, score);
        assert forall|i: int| 0 <= i < k implies history[i] > score by {
            assert(shorter[i] == history[i]);
        }
        assert forall|i: int| k <= i < history.len() implies history[i] <= score by {
            if i < shorter.len() {
                assert(shorter[i] == history[i]);
            }
        }
        k
    }
}

/// In a descending history the scores before a score's rank are greater
/// than it and the others are not.
pub proof fn lemma_rank_splits(history: Seq<u32>, score: u32)
    requires
        descending(history),
    ensures
        rank_of(history, score) <= history.len(),
        forall|i: int| 0 <= i < rank_of(history, score) ==> history[i] > score,
        forall|i: int| rank_of(history, score) <= i < history.len() ==> history[i] <= score,
{
    let k = lemma_split_point(history, score);
    lemma_rank_is_split(history, score, k);
}

/// Recording a score in a descending history gives a descending history
/// that holds the score once more and every other score as often as before.
pub proof fn lemma_recorded_sorted(history: Seq<u32>, score: u32)
    requires
        descending(history),
    ensures
        descending(recorded(history, score)),
        recorded(history, score).len() == history.len() + 1,
        recorded(history, score).to_multiset() == history.to_multiset().insert(score),
        recorded(history, score)[rank_of(history, score) as int] == score,
{
    broadcast use group_to_multiset_ensures;

    lemma_rank_splits(history, score);
    let k = rank_of(history, score) as int;
    let after = recorded(history, score);
    assert(after.remove(k) =~= history);
    to_multiset_remove(after, k);
    assert(after.contains(score)) by {
        assert(after[k] == score);
    }
    assert(after.to_multiset() =~= history.to_multiset().insert(score));
}

/// The ranking service with the scores it has recorded.
#[derive(Debug)]
pub struct RussiaBlockService {
    scores: Vec<u32>,
}

impl View for RussiaBlockService {
    type V = Seq<u32>;

    closed spec fn view(&self) -> Seq<u32> {
        self.scores@
    }
}

impl Default for RussiaBlockService {
    fn default() -> (service: RussiaBlockService)
        ensures
            service.wf(),
            service@ == Seq::<u32>::empty(),
    {
        RussiaBlockService::new()
    }
}

impl RussiaBlockService {
    /// Validity of a service: its history is in descending order and within
    /// the limit.
    pub open spec fn wf(&self) -> bool {
        descending(self@) && self@.len() <= HISTORY_LIMIT
    }

    /// A service that has recorded nothing yet.
    pub fn new() -> (service: RussiaBlockService)
        ensures
            service.wf(),
            service@ == Seq::<u32>::empty(),
    {
        RussiaBlockService { scores: Vec::new() }
    }

    /// Number of scores recorded so far.
    pub fn history_len(&self) -> (n: usize)
        ensures
            n == self@.len(),
    {
        self.scores.len()
    }

    /// Tells whether the service can record one more score.
    pub fn has_room(&self) -> (ok: bool)
        ensures
            ok == (self@.len() < HISTORY_LIMIT),
    {
        self.scores.len() < HISTORY_LIMIT
    }

    /// Records the submitted score for good and answers with its rank, the
    /// number of recorded scores that are greater, and with the best `topk`
    /// scores, the new one counted in.
    pub fn query_score(&mut self, request: ScoreRequest) -> (response: ScoreResponse)
        requires
            old(self).wf(),
            old(self)@.len() < HISTORY_LIMIT,
        ensures
            final(self).wf(),
            final(self)@ == recorded(old(self)@, request.score),
            final(self)@.to_multiset() == old(self)@.to_multiset().insert(request.score),
            response.success,
            response.rank == rank_of(old(self)@, request.score),
            response.scores@ == best(final(self)@, request.topk as nat),
    {
        let score = request.score;
        let len = self.scores.len();
        let mut rank: usize = 0;
        while rank < len && self.scores[rank] > score
            invariant
                len == self.scores@.len(),
                rank <= len,
                forall|i: int| 0 <= i < rank ==> self.scores@[i] > score,
            decreases len - rank,
        {
            rank += 1;
        }
        proof {
            assert forall|i: int| rank <= i < len implies self.scores@[i] <= score by {
                assert(self.scores@[rank as int] >= self.scores@[i]);
            }
            lemma_rank_is_split(self@, score, rank as int);
            lemma_recorded_sorted(self@, score);
        }
        self.scores.insert(rank, score);
        let wanted = request.topk as usize;
        let count = if wanted <= self.scores.len() {
            wanted
        } else {
            self.scores.len()
        };
        let mut scores: Vec<u32> = Vec::new();
        let mut i: usize = 0;
        while i < count
            invariant
                i <= count <= self.scores@.len(),
                scores@ == self.scores@.take(i as int),
            decreases count - i,
        {
            scores.push(self.scores[i]);
            proof {
                assert(self.scores@.take(i as int).push(self.scores@[i as int])
                    =~= self.scores@.take(i + 1));
            }
            i += 1;
        }
        proof {
            assert(self.scores@.take(self.scores@.len() as int) =~= self.scores@);
        }
        ScoreResponse { success: true, rank: rank as u32, scores }
    }
}

} // verus!
