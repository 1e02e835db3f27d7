use batchet::game::{evaluate, prewarm, solve, PREWARM_STEP};
use batchet::{MoveSet, OutcomeCache, Player};

fn moves(v: &[usize]) -> MoveSet {
    MoveSet::from_moves(v.to_vec()).expect("legal move set")
}

fn fresh(stones: usize, ms: &MoveSet, mover: Player) -> Player {
    let mut cache = OutcomeCache::new();
    evaluate(stones, ms, mover, &mut cache)
}

/// Plain minimax with no memo and no shortcut, for small piles.
fn mover_wins_brute(s: usize, m: &[usize]) -> bool {
    m.iter().any(|&k| k <= s && (k == s || !mover_wins_brute(s - k, m)))
}

#[test]
fn scenario_twenty_stones() {
    assert_eq!(solve(20, &moves(&[1, 3, 8])), Player::Stan);
}

#[test]
fn scenario_twenty_one_stones() {
    assert_eq!(solve(21, &moves(&[1, 3, 8])), Player::Stan);
}

#[test]
fn scenario_twenty_two_stones() {
    assert_eq!(solve(22, &moves(&[1, 3, 8])), Player::Ollie);
}

#[test]
fn scenario_twenty_three_stones() {
    assert_eq!(solve(23, &moves(&[1, 3, 8])), Player::Stan);
}

#[test]
fn large_instance_prewarmed_matches_other_warmup() {
    let ms = moves(&[1, 23, 38, 11, 7, 5, 4, 8, 3, 13]);
    let warm = solve(999996, &ms);
    assert_eq!(warm, Player::Ollie);
    // A cache warmed with finer checkpoints and a different first mover.
    let mut cache = OutcomeCache::new();
    let mut c: usize = 2_500;
    while c < 999996 {
        evaluate(c, &ms, Player::Ollie, &mut cache);
        c += 2_500;
    }
    assert_eq!(evaluate(999996, &ms, Player::Stan, &mut cache), warm);
}

#[test]
fn million_stones() {
    let ms = moves(&[1, 23, 38, 11, 7, 5, 4, 8, 3, 13]);
    assert_eq!(solve(1_000_000, &ms), Player::Stan);
}

#[test]
fn prewarmed_and_fresh_caches_agree() {
    let ms = moves(&[1, 23, 38, 11, 7, 5, 4, 8, 3, 13]);
    let plain = fresh(49996, &ms, Player::Stan);
    assert_eq!(plain, Player::Stan);
    let mut cache = OutcomeCache::new();
    prewarm(49996, &ms, &mut cache);
    assert_eq!(evaluate(49996, &ms, Player::Stan, &mut cache), plain);
}

#[test]
fn prewarm_records_each_checkpoint() {
    let ms = moves(&[1, 23, 38, 11, 7, 5, 4, 8, 3, 13]);
    let mut cache = OutcomeCache::new();
    prewarm(30_000, &ms, &mut cache);
    for c in [PREWARM_STEP, 2 * PREWARM_STEP] {
        let (first, w) = cache.lookup(c).expect("checkpoint recorded");
        assert_eq!(w, fresh(c, &ms, first));
    }
    assert_eq!(cache.lookup(3 * PREWARM_STEP), None);
    assert!(cache.len() > 2);
}

#[test]
fn prewarm_below_step_leaves_cache_empty() {
    let ms = moves(&[1, 3, 8]);
    let mut cache = OutcomeCache::new();
    prewarm(PREWARM_STEP, &ms, &mut cache);
    assert_eq!(cache.len(), 0);
}

#[test]
fn exact_move_wins_for_mover() {
    let ms = moves(&[1, 3, 8]);
    for &k in &[1usize, 3, 8] {
        assert_eq!(fresh(k, &ms, Player::Stan), Player::Stan);
        assert_eq!(fresh(k, &ms, Player::Ollie), Player::Ollie);
    }
    // Also with a cache already filled by an earlier game.
    let mut cache = OutcomeCache::new();
    evaluate(40, &ms, Player::Stan, &mut cache);
    assert_eq!(evaluate(8, &ms, Player::Ollie, &mut cache), Player::Ollie);
}

#[test]
fn swapping_first_mover_swaps_winner() {
    for set in [&[1usize, 3, 8][..], &[1, 2][..], &[1, 4, 5, 9][..]] {
        let ms = moves(set);
        for s in 0..80usize {
            let stan = fresh(s, &ms, Player::Stan);
            let ollie = fresh(s, &ms, Player::Ollie);
            assert_eq!(stan == Player::Stan, ollie == Player::Ollie);
            assert_eq!(ollie, stan.other());
        }
    }
}

#[test]
fn evaluation_is_deterministic() {
    let ms = moves(&[1, 4, 5, 9]);
    for s in 0..200usize {
        assert_eq!(fresh(s, &ms, Player::Stan), fresh(s, &ms, Player::Stan));
    }
}

#[test]
fn single_move_is_parity() {
    let ms = moves(&[1]);
    for s in 0..60usize {
        let expected = if s % 2 == 1 { Player::Stan } else { Player::Ollie };
        assert_eq!(fresh(s, &ms, Player::Stan), expected);
    }
}

#[test]
fn shortcut_agrees_with_plain_minimax() {
    for set in [&[1usize, 3, 8][..], &[1, 2][..], &[1, 5][..], &[1, 4, 6, 7][..]] {
        let ms = moves(set);
        let mut shared = OutcomeCache::new();
        for s in 0..24usize {
            let expected = if mover_wins_brute(s, set) { Player::Stan } else { Player::Ollie };
            assert_eq!(fresh(s, &ms, Player::Stan), expected);
            assert_eq!(evaluate(s, &ms, Player::Stan, &mut shared), expected);
        }
    }
}

#[test]
fn cache_entries_are_reused_for_either_mover() {
    let ms = moves(&[1, 3, 8]);
    let mut cache = OutcomeCache::new();
    evaluate(29, &ms, Player::Stan, &mut cache);
    assert!(cache.len() > 0);
    for s in 0..29usize {
        if let Some((first, w)) = cache.lookup(s) {
            assert_eq!(w, fresh(s, &ms, first));
            assert_eq!(evaluate(s, &ms, first.other(), &mut cache), w.other());
        }
    }
    assert_eq!(evaluate(22, &ms, Player::Ollie, &mut cache), Player::Stan);
}

#[test]
fn other_player() {
    assert_eq!(Player::Stan.other(), Player::Ollie);
    assert_eq!(Player::Ollie.other(), Player::Stan);
    assert_eq!(Player::Stan.other().other(), Player::Stan);
}
