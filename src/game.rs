use vstd::prelude::*;
use crate::cache::OutcomeCache;
use crate::moves::{valid_moves, MoveSet};
use crate::player::{lemma_other_involutive, opponent, Player};

verus! {

/// With `s` stones left, the mover can win by one of the moves `m[i..]`:
/// a move `k <= s` that takes the last stone, or that leaves a pile on
/// which the next mover loses.
pub open spec fn wins_with(s: nat, m: Seq<usize>, i: nat) -> bool
    decreases s, m.len() - i,
{
    if i >= m.len() {
        false
    } else {
        let k = m[i as int] as nat;
        (0 < k <= s && (k == s || !wins_with((s - k) as nat, m, 0))) || wins_with(s, m, i + 1)
    }
}

/// The player to move with `s` stones left wins under optimal play.
pub open spec fn mover_wins(s: nat, m: Seq<usize>) -> bool {
    wins_with(s, m, 0)
}

/// Winner of the game with `s` stones left and `mover` to move.
pub open spec fn winner(s: nat, m: Seq<usize>, mover: Player) -> Player {
    if mover_wins(s, m) {
        mover
    } else {
        opponent(mover)
    }
}

/// Every entry of `c` holds the true winner for its stone count and its
/// recorded first mover, under the move set `m`.
pub open spec fn sound_cache(c: Map<usize, (Player, Player)>, m: Seq<usize>) -> bool {
    forall|s: usize| #[trigger]
        c.contains_key(s) ==> c[s].1 == winner(s as nat, m, c[s].0)
}

/// A fresh, empty cache is sound for every move set, so an evaluation on it
/// and one on any cache filled for the same move set give the same winner.
pub proof fn lemma_empty_cache_sound(m: Seq<usize>)
    ensures
        sound_cache(Map::<usize, (Player, Player)>::empty(), m),
{
}

/// A stone count equal to a move size is won at once by the mover.
pub proof fn lemma_exact_match_wins(s: nat, m: Seq<usize>, mover: Player)
    requires
        valid_moves(m),
        exists|j: int| 0 <= j < m.len() && m[j] as nat == s,
    ensures
        winner(s, m, mover) == mover,
{
    let j = choose|j: int| 0 <= j < m.len() && m[j] as nat == s;
    lemma_match_from(s, m, 0, j as nat);
}

proof fn lemma_match_from(s: nat, m: Seq<usize>, i: nat, j: nat)
    requires
        valid_moves(m),
        i <= j < m.len(),
        m[j as int] as nat == s,
    ensures
        wins_with(s, m, i),
    decreases j - i,
{
    assert(m[j as int] >= 1) by {
        if j + 1 < m.len() {
            assert(m[j as int] > m[m.len() - 1]);
        }
    }
    if i < j {
        lemma_match_from(s, m, i + 1, j);
    }
}

/// Exchanging who moves first exchanges who wins.
pub proof fn lemma_swap_mover(s: nat, m: Seq<usize>, mover: Player)
    ensures
        winner(s, m, opponent(mover)) == opponent(winner(s, m, mover)),
{
    lemma_other_involutive(mover);
}

/// Stan wins when moving first exactly when Ollie wins when moving first,
/// on the same pile and move set.
pub proof fn lemma_first_mover_symmetry(s: nat, m: Seq<usize>)
    ensures
        (winner(s, m, Player::Stan) == Player::Stan) == (winner(s, m, Player::Ollie)
            == Player::Ollie),
{
}

/// With 1 as the only move, Stan moving first wins exactly on odd piles.
pub proof fn lemma_single_move_parity(s: nat)
    ensures
        (winner(s, seq![1usize], Player::Stan) == Player::Stan) == (s % 2 == 1),
{
    lemma_parity_below_second_move(s, seq![1usize]);
}

/// Below the second-smallest move size only the move 1 applies, so the
/// mover wins exactly when the pile is odd. A move set of 1 alone is the
/// same at every size.
pub proof fn lemma_parity_below_second_move(s: nat, m: Seq<usize>)
    requires
        valid_moves(m),
        m.len() == 1 || s < m[m.len() - 2],
    ensures
        mover_wins(s, m) == (s % 2 == 1),
    decreases s,
{
    lemma_only_last_move_fits(s, m, 0);
    let last = (m.len() - 1) as nat;
    assert(wins_with(s, m, last + 1) == false);
    if s >= 2 {
        lemma_parity_below_second_move((s - 1) as nat, m);
    }
}

/// Under the premise of the parity lemma, the moves before the last one
/// never fit, so trying them changes nothing.
proof fn lemma_only_last_move_fits(s: nat, m: Seq<usize>, i: nat)
    requires
        valid_moves(m),
        m.len() == 1 || s < m[m.len() - 2],
        i <= m.len() - 1,
    ensures
        wins_with(s, m, i) == wins_with(s, m, (m.len() - 1) as nat),
    decreases m.len() - i,
{
    if i < m.len() - 1 {
        assert(m[i as int] > s) by {
            if i < m.len() - 2 {
                assert(m[i as int] > m[m.len() - 2]);
            }
        }
        lemma_only_last_move_fits(s, m, i + 1);
    }
}

/// A sound cache's entry, read for the actual mover, gives the winner: its
/// recorded winner when the movers agree, the other player when not.
pub proof fn lemma_cache_entry_reuse(
    c: Map<usize, (Player, Player)>,
    m: Seq<usize>,
    s: usize,
    mover: Player,
)
    requires
        sound_cache(c, m),
        c.contains_key(s),
    ensures
        winner(s as nat, m, mover) == (if c[s].0 == mover {
            c[s].1
        } else {
            opponent(c[s].1)
        }),
{
    let (first, w) = c[s];
    if first != mover {
        assert(mover == opponent(first)) by {
            lemma_other_involutive(first);
        }
        lemma_swap_mover(s as nat, m, first);
    }
}

/// The winner of the game with `stones` left and `mover` to move.
///
/// Uses and fills `cache`: it must hold only true results for this move
/// set, and it still does afterwards; no entry is dropped.
pub fn evaluate(stones: usize, moves: &MoveSet, mover: Player, cache: &mut OutcomeCache) -> (r:
    Player)
    requires
        moves.wf(),
        sound_cache(old(cache)@, moves@),
    ensures
        r == winner(stones as nat, moves@, mover),
        moves@.contains(stones) ==> r == mover,
        sound_cache(final(cache)@, moves@),
        old(cache)@.dom().subset_of(final(cache)@.dom()),
    decreases stones,
{
    let n = moves.len();
    if moves.contains(stones) {
        proof {
            let j = choose|j: int| 0 <= j < moves@.len() && moves@[j] == stones;
            lemma_exact_match_wins(stones as nat, moves@, mover);
        }
        return mover;
    }
    if n >= 2 && stones < moves.get(n - 2) {
        proof {
            lemma_parity_below_second_move(stones as nat, moves@);
        }
        return if stones % 2 == 0 {
            mover.other()
        } else {
            mover
        };
    }
    if let Some((first, w)) = cache.lookup(stones) {
        proof {
            lemma_cache_entry_reuse(cache@, moves@, stones, mover);
        }
        return if first == mover {
            w
        } else {
            w.other()
        };
    }
    let ghost m = moves@;
    let mut i: usize = 0;
    while i < n
        invariant
            n == m.len(),
            m == moves@,
            valid_moves(m),
            0 <= i <= n,
            !m.contains(stones),
            mover_wins(stones as nat, m) == wins_with(stones as nat, m, i as nat),
            sound_cache(cache@, m),
            old(cache)@.dom().subset_of(cache@.dom()),
        decreases n - i,
    {
        let k = moves.get(i);
        assert(k >= 1) by {
            if i + 1 < n {
                assert(m[i as int] > m[n - 1]);
            }
        }
        if k <= stones {
            assert(k != stones);
            let rest = stones - k;
            let next = evaluate(rest, moves, mover.other(), cache);
            cache.record(rest, mover.other(), next);
            proof {
                lemma_other_involutive(mover);
            }
            if next == mover {
                return mover;
            }
        }
        i += 1;
    }
    mover.other()
}

/// Stone counts up to which the cache is filled in steps before a large
/// evaluation, so that no single recursion descends far.
pub const PREWARM_STEP: usize = 10_000;

/// Fills `cache` ahead of an evaluation of `target` stones: evaluates each
/// checkpoint `j * PREWARM_STEP` below `target`, in increasing order, with
/// Stan to move, and records each checkpoint's result as well.
///
/// The cache stays sound, so a later evaluation gives the same winner as
/// with an empty cache, only sooner.
pub fn prewarm(target: usize, moves: &MoveSet, cache: &mut OutcomeCache)
    requires
        moves.wf(),
        sound_cache(old(cache)@, moves@),
    ensures
        sound_cache(final(cache)@, moves@),
        old(cache)@.dom().subset_of(final(cache)@.dom()),
        forall|j: nat|
            1 <= j && j * PREWARM_STEP < target ==> #[trigger] final(cache)@.contains_key(
                (j * PREWARM_STEP) as usize,
            ),
{
    let mut j: usize = 1;
    let mut c: usize = PREWARM_STEP;
    while c < target
        invariant
            moves.wf(),
            1 <= j,
            c == j * PREWARM_STEP,
            sound_cache(cache@, moves@),
            old(cache)@.dom().subset_of(cache@.dom()),
            forall|jj: nat|
                1 <= jj < j ==> #[trigger] cache@.contains_key((jj * PREWARM_STEP) as usize),
        decreases target - c,
    {
        let w = evaluate(c, moves, Player::Stan, cache);
        cache.record(c, Player::Stan, w);
        if target - c <= PREWARM_STEP {
            assert forall|jj: nat|
                1 <= jj && jj * PREWARM_STEP < target implies #[trigger] cache@.contains_key(
                (jj * PREWARM_STEP) as usize,
            ) by {
                assert(jj <= j);
                if jj < j {
                    assert(old(cache)@.dom().subset_of(cache@.dom()));
                }
            }
            return;
        }
        c = c + PREWARM_STEP;
        j = j + 1;
    }
}

/// Winner of a whole game of `stones` stones in which Stan moves first, on
/// a fresh cache that is pre-warmed when the pile exceeds `PREWARM_STEP`.
pub fn solve(stones: usize, moves: &MoveSet) -> (r: Player)
    requires
        moves.wf(),
    ensures
        r == winner(stones as nat, moves@, Player::Stan),
{
    let mut cache = OutcomeCache::new();
    if stones > PREWARM_STEP {
        prewarm(stones, moves, &mut cache);
    }
    evaluate(stones, moves, Player::Stan, &mut cache)
}

} // verus!
