//! The scoreboard: one row of per-round scores per player; running totals
//! are the row sums.
use vstd::prelude::*;

verus! {

/// The sum of a row of round scores.
pub open spec fn spec_total(s: Seq<i64>) -> int
    decreases s.len(),
{
    if s.len() == 0 {
        0
    } else {
        spec_total(s.drop_last()) + s.last()
    }
}

/// A row's sum is bounded by its length times the magnitude of the largest
/// entry a row can hold, so totals always fit a 128-bit accumulator.
pub proof fn lemma_total_bound(s: Seq<i64>)
    ensures
        -(s.len() as int) * 0x8000_0000_0000_0000 <= spec_total(s) <= (s.len() as int)
            * 0x8000_0000_0000_0000,
    decreases s.len(),
{
    if s.len() > 0 {
        lemma_total_bound(s.drop_last());
    }
}

/// Summing one more entry extends the prefix sum.
pub proof fn lemma_total_take_step(s: Seq<i64>, i: int)
    requires
        0 <= i < s.len(),
    ensures
        spec_total(s.take(i + 1)) == spec_total(s.take(i)) + s[i],
{
    assert(s.take(i + 1).drop_last() =~= s.take(i));
    assert(s.take(i + 1).last() == s[i]);
}

/// Per-player rows of round scores; row `p` belongs to the player with game
/// id `p`, and entry `r` of a row is that player's score for round `r`.
pub struct Scoreboard {
    pub scores: Vec<Vec<i64>>,
}

impl View for Scoreboard {
    type V = Seq<Seq<i64>>;

    open spec fn view(&self) -> Seq<Seq<i64>> {
        self.scores@.map_values(|row: Vec<i64>| row@)
    }
}

impl Scoreboard {
    /// An empty scoreboard with one empty row per player.
    pub fn new(player_count: u32) -> (sb: Scoreboard)
        ensures
            sb@.len() == player_count,
            forall|p: int| 0 <= p < player_count ==> (#[trigger] sb@[p]).len() == 0,
    {
        let mut scores: Vec<Vec<i64>> = Vec::new();
        let mut i: u32 = 0;
        while i < player_count
            invariant
                i <= player_count,
                scores@.len() == i,
                forall|p: int| 0 <= p < i ==> (#[trigger] scores@[p])@.len() == 0,
            decreases player_count - i,
        {
            scores.push(Vec::new());
            i = i + 1;
        }
        Scoreboard { scores }
    }

    /// Each player's running total: the sum of their row.
    pub fn get_totals(&self) -> (totals: Vec<i128>)
        ensures
            totals@.len() == self@.len(),
            forall|p: int| 0 <= p < self@.len() ==> totals@[p] == spec_total(self@[p]),
    {
        let mut totals: Vec<i128> = Vec::new();
        let mut p: usize = 0;
        while p < self.scores.len()
            invariant
                p <= self.scores.len(),
                totals@.len() == p,
                forall|q: int| 0 <= q < p ==> totals@[q] == spec_total(self@[q]),
            decreases self.scores.len() - p,
        {
            let row = &self.scores[p];
            let mut total: i128 = 0;
            let mut i: usize = 0;
            assert(row@.take(0) =~= Seq::<i64>::empty());
            while i < row.len()
                invariant
                    i <= row@.len(),
                    total == spec_total(row@.take(i as int)),
                decreases row@.len() - i,
            {
                proof {
                    lemma_total_take_step(row@, i as int);
                    lemma_total_bound(row@.take(i + 1));
                }
                total = total + row[i] as i128;
                i = i + 1;
            }
            assert(row@.take(row@.len() as int) =~= row@);
            totals.push(total);
            p = p + 1;
        }
        totals
    }

    /// Record a finished round: append one score to every player's row.
    #[verifier::loop_isolation(false)]
    pub fn add_round(&mut self, round: u32, scores: Vec<i64>)
        requires
            scores@.len() == old(self)@.len(),
        ensures
            final(self)@.len() == old(self)@.len(),
            forall|p: int|
                0 <= p < old(self)@.len() ==> final(self)@[p] == old(self)@[p].push(scores@[p]),
    {
        let _ = round;
        let mut p: usize = 0;
        while p < scores.len()
            invariant
                p <= scores@.len(),
                scores@.len() == self.scores@.len(),
                scores@.len() == old(self).scores@.len(),
                forall|q: int|
                    0 <= q < p ==> (#[trigger] self.scores@[q])@ == old(self).scores@[q]@.push(
                        scores@[q],
                    ),
                forall|q: int|
                    p <= q < scores@.len() ==> (#[trigger] self.scores@[q])@ == old(
                        self,
                    ).scores@[q]@,
            decreases scores.len() - p,
        {
            let row = vstd::std_specs::vec::vec_index_mut(&mut self.scores, p);
            row.push(scores[p]);
            p = p + 1;
        }
    }

    /// Add `score` to player `player`'s entry for round `round`.
    pub fn add_score(&mut self, round: u32, player: u32, score: i64)
        requires
            player < old(self)@.len(),
            round < old(self)@[player as int].len(),
            i64::MIN <= old(self)@[player as int][round as int] + score <= i64::MAX,
        ensures
            final(self)@.len() == old(self)@.len(),
            final(self)@[player as int] == old(self)@[player as int].update(
                round as int,
                (old(self)@[player as int][round as int] + score) as i64,
            ),
            forall|q: int|
                0 <= q < old(self)@.len() && q != player ==> final(self)@[q] == old(self)@[q],
    {
        let row = vstd::std_specs::vec::vec_index_mut(&mut self.scores, player as usize);
        let entry = row[round as usize];
        row.set(round as usize, entry + score);
    }
}

} // verus!
