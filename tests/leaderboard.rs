use leaderboard_payouts::{
    compute_payouts, Leaderboard, LeaderboardError, Participant, Payout, Pubkey, ScoreBoard,
    Treasury, WinnerPolicy,
};

fn key(n: u8) -> Pubkey {
    Pubkey::new_from_array([n; 32])
}

fn row(n: u8, score: u64) -> Participant {
    Participant { pubkey: key(n), score }
}

fn rows(board: &ScoreBoard) -> Vec<(Pubkey, u64)> {
    board.entries.iter().map(|p| (p.pubkey, p.score)).collect()
}

fn ranked(board: &ScoreBoard) -> Vec<(Pubkey, u64)> {
    rows(board)
        .into_iter()
        .filter(|(k, _)| !k.is_sentinel())
        .collect()
}

fn started(now: i64, period_length: i64, top_spots: u8, pool: i64) -> Leaderboard {
    let mut lb = Leaderboard::new();
    lb.initialize(key(200), now, period_length, top_spots, pool)
        .unwrap();
    lb
}

#[test]
fn initialize_succeeds_once() {
    let mut lb = Leaderboard::new();
    assert!(!lb.is_initialized);
    assert_eq!(lb.initialize(key(9), 1_000, 100, 3, 900), Ok(()));
    assert!(lb.is_initialized);
    assert_eq!(lb.admin, key(9));
    assert_eq!(lb.current_period_start, 1_000);
    assert_eq!(lb.current_period_end, 1_100);
    assert_eq!(lb.participants.capacity(), 100);
    assert!(lb.participants.entries.iter().all(|p| *p == Participant::default()));
    let before = lb.clone();
    assert_eq!(
        lb.initialize(key(9), 2_000, 50, 2, 10),
        Err(LeaderboardError::AlreadyInitialized)
    );
    assert_eq!(lb.current_period_start, before.current_period_start);
    assert_eq!(lb.period_length, 100);
    assert_eq!(lb.top_spots, 3);
}

#[test]
fn initialize_succeeds_once_for_every_valid_configuration() {
    for top in 1..=10u8 {
        for length in [1i64, 7, 86_400] {
            let mut lb = Leaderboard::new();
            assert_eq!(lb.initialize(key(1), 0, length, top, 0), Ok(()));
            assert_eq!(
                lb.initialize(key(1), 0, length, top, 0),
                Err(LeaderboardError::AlreadyInitialized)
            );
        }
    }
}

#[test]
fn initialize_rejects_invalid_configuration() {
    let mut lb = Leaderboard::new();
    assert_eq!(
        lb.initialize(key(1), 0, 0, 3, 900),
        Err(LeaderboardError::InvalidPeriodLength)
    );
    assert_eq!(
        lb.initialize(key(1), 0, -5, 3, 900),
        Err(LeaderboardError::InvalidPeriodLength)
    );
    assert_eq!(
        lb.initialize(key(1), 0, 100, 0, 900),
        Err(LeaderboardError::InvalidTopSpots)
    );
    assert_eq!(
        lb.initialize(key(1), 0, 100, 11, 900),
        Err(LeaderboardError::InvalidTopSpots)
    );
    assert_eq!(
        lb.initialize(key(1), 0, 100, 3, -1),
        Err(LeaderboardError::InvalidPool)
    );
    assert!(!lb.is_initialized);
    assert_eq!(lb.initialize(key(1), 0, 100, 10, 900), Ok(()));
}

#[test]
fn upsert_keeps_capacity_and_unique_keys() {
    let mut lb = started(0, 100, 3, 900);
    let batch: Vec<Participant> = (1..=100u8).map(|n| row(n, n as u64)).collect();
    assert_eq!(lb.update_scores(batch), Ok(()));
    let batch: Vec<Participant> = (50..=149u8).map(|n| row(n, 3 * n as u64)).collect();
    assert_eq!(lb.update_scores(batch), Ok(()));
    let batch: Vec<Participant> = (1..=100u8).map(|n| row(n % 7 + 1, n as u64)).collect();
    assert_eq!(lb.update_scores(batch), Ok(()));
    assert_eq!(lb.participants.capacity(), 100);
    let keys = ranked(&lb.participants);
    for i in 0..keys.len() {
        for j in (i + 1)..keys.len() {
            assert_ne!(keys[i].0, keys[j].0);
        }
    }
    let scores: Vec<u64> = lb.participants.entries.iter().map(|p| p.score).collect();
    assert!(scores.windows(2).all(|w| w[0] >= w[1]));
}

#[test]
fn upsert_rejects_oversized_batch() {
    let mut lb = started(0, 100, 3, 900);
    let batch: Vec<Participant> = (0..101u32).map(|n| row((n % 250) as u8 + 1, 5)).collect();
    let before = rows(&lb.participants);
    assert_eq!(lb.update_scores(batch), Err(LeaderboardError::TooManyEntries));
    assert_eq!(rows(&lb.participants), before);
    let mut small = ScoreBoard::new(2);
    assert_eq!(
        small.upsert(&vec![row(1, 1), row(2, 2), row(3, 3)]),
        Err(LeaderboardError::TooManyEntries)
    );
    let mut empty = Leaderboard::new();
    assert_eq!(
        empty.update_scores(vec![row(1, 1)]),
        Err(LeaderboardError::TooManyEntries)
    );
    assert_eq!(empty.update_scores(vec![]), Ok(()));
}

#[test]
fn upsert_same_row_twice_equals_once() {
    let mut once = ScoreBoard::new(3);
    once.upsert(&vec![row(1, 10), row(2, 5)]).unwrap();
    let mut twice = once.clone();
    once.upsert(&vec![row(3, 7)]).unwrap();
    twice.upsert(&vec![row(3, 7)]).unwrap();
    twice.upsert(&vec![row(3, 7)]).unwrap();
    assert_eq!(rows(&once), rows(&twice));

    let mut full = ScoreBoard::new(2);
    full.upsert(&vec![row(1, 10), row(2, 5)]).unwrap();
    let mut again = full.clone();
    full.upsert(&vec![row(4, 1)]).unwrap();
    again.upsert(&vec![row(4, 1)]).unwrap();
    again.upsert(&vec![row(4, 1)]).unwrap();
    assert_eq!(rows(&full), rows(&again));
}

#[test]
fn full_board_admits_only_strictly_greater_scores() {
    let mut board = ScoreBoard::new(2);
    board.upsert(&vec![row(0xA, 10), row(0xB, 5)]).unwrap();
    assert_eq!(rows(&board), vec![(key(0xA), 10), (key(0xB), 5)]);
    board.upsert(&vec![row(0xC, 7)]).unwrap();
    assert_eq!(rows(&board), vec![(key(0xA), 10), (key(0xC), 7)]);
    board.upsert(&vec![row(0xD, 3)]).unwrap();
    assert_eq!(rows(&board), vec![(key(0xA), 10), (key(0xC), 7)]);
    board.upsert(&vec![row(0xE, 7)]).unwrap();
    assert_eq!(rows(&board), vec![(key(0xA), 10), (key(0xC), 7)]);
}

#[test]
fn known_key_gets_new_score_and_moves() {
    let mut board = ScoreBoard::new(4);
    board
        .upsert(&vec![row(1, 10), row(2, 20), row(3, 30)])
        .unwrap();
    assert_eq!(
        ranked(&board),
        vec![(key(3), 30), (key(2), 20), (key(1), 10)]
    );
    board.upsert(&vec![row(1, 40), row(3, 5)]).unwrap();
    assert_eq!(
        rows(&board),
        vec![
            (key(1), 40),
            (key(2), 20),
            (key(3), 5),
            (Pubkey::default(), 0)
        ]
    );
}

#[test]
fn equal_scores_keep_their_order() {
    let mut board = ScoreBoard::new(3);
    board
        .upsert(&vec![row(1, 5), row(2, 5), row(3, 5)])
        .unwrap();
    assert_eq!(rows(&board), vec![(key(1), 5), (key(2), 5), (key(3), 5)]);
    board.upsert(&vec![row(2, 6)]).unwrap();
    assert_eq!(rows(&board), vec![(key(2), 6), (key(1), 5), (key(3), 5)]);
}

#[test]
fn newcomer_with_zero_score_is_dropped() {
    let mut board = ScoreBoard::new(2);
    board.upsert(&vec![row(1, 0)]).unwrap();
    assert_eq!(board.ranked_count(), 0);
    board.upsert(&vec![row(1, 1)]).unwrap();
    assert_eq!(board.ranked_count(), 1);
}

#[test]
fn top_and_reset() {
    let mut board = ScoreBoard::new(4);
    board.upsert(&vec![row(1, 3), row(2, 9)]).unwrap();
    let top: Vec<(Pubkey, u64)> = board
        .top(2, WinnerPolicy::RequireParticipants)
        .unwrap()
        .iter()
        .map(|p| (p.pubkey, p.score))
        .collect();
    assert_eq!(top, vec![(key(2), 9), (key(1), 3)]);
    assert_eq!(
        board.top(3, WinnerPolicy::RequireParticipants).map(|v| v.len()),
        Err(LeaderboardError::InsufficientEntries)
    );
    assert_eq!(
        board.top(3, WinnerPolicy::AllowEmptySlots).map(|v| v.len()),
        Ok(3)
    );
    assert_eq!(
        board.top(5, WinnerPolicy::AllowEmptySlots).map(|v| v.len()),
        Err(LeaderboardError::InsufficientEntries)
    );
    board.reset();
    assert_eq!(board.capacity(), 4);
    assert_eq!(board.ranked_count(), 0);
    assert!(board.entries.iter().all(|p| *p == Participant::default()));
}

#[test]
fn payouts_halve_per_rank() {
    let amounts = compute_payouts(1000, 3).unwrap();
    assert_eq!(amounts, vec![500, 250, 125]);
    let paid: u64 = amounts.iter().sum();
    assert_eq!(paid, 875);
    assert_eq!(1000 - paid, 125);
    assert_eq!(compute_payouts(900, 3).unwrap(), vec![450, 225, 112]);
    assert_eq!(compute_payouts(7, 4).unwrap(), vec![3, 1, 0, 0]);
    assert_eq!(compute_payouts(1000, 0).unwrap(), Vec::<u64>::new());
    assert_eq!(compute_payouts(0, 2).unwrap(), vec![0, 0]);
    assert_eq!(compute_payouts(-1, 3), Err(LeaderboardError::InvalidPool));
}

#[test]
fn payout_remainder_stays_within_bounds_up_to_capacity() {
    for total in [0i64, 1, 999, 1000, 1024, 123_456_789, i64::MAX] {
        for k in 0..=100usize {
            let amounts = compute_payouts(total, k).unwrap();
            assert_eq!(amounts.len(), k);
            let paid: u128 = amounts.iter().map(|a| *a as u128).sum();
            let kept = if k >= 64 { 0 } else { (total as u128) >> k };
            assert!(paid + kept <= total as u128);
            assert!(paid + kept + k as u128 >= total as u128);
        }
    }
    let amounts = compute_payouts(1024, 10).unwrap();
    let paid: u64 = amounts.iter().sum();
    assert_eq!(paid, 1024 - 1);
}

#[test]
fn settle_before_period_end_changes_nothing() {
    let mut lb = started(1_000, 100, 3, 900);
    lb.update_scores(vec![row(1, 50), row(2, 80), row(3, 20), row(4, 90)])
        .unwrap();
    let mut treasury = Treasury { lamports: 10_000 };
    let before = rows(&lb.participants);
    let r = lb.end_period_and_distribute_payouts(1_099, &vec![key(4), key(2), key(1)], &mut treasury);
    assert_eq!(r, Err(LeaderboardError::PeriodNotEnded));
    assert_eq!(rows(&lb.participants), before);
    assert_eq!(treasury.lamports, 10_000);
    assert_eq!(lb.current_period_start, 1_000);
    assert_eq!(lb.current_period_end, 1_100);
}

#[test]
fn settle_with_misordered_winners_moves_nothing() {
    let mut lb = started(1_000, 100, 3, 900);
    lb.update_scores(vec![row(1, 50), row(2, 80), row(3, 20), row(4, 90)])
        .unwrap();
    let mut treasury = Treasury { lamports: 10_000 };
    let before = rows(&lb.participants);
    for claimed in [
        vec![key(2), key(4), key(1)],
        vec![key(4), key(2), key(3)],
        vec![key(4), key(2)],
        vec![key(4), key(2), key(1), key(3)],
    ] {
        let r = lb.end_period_and_distribute_payouts(1_100, &claimed, &mut treasury);
        assert_eq!(r, Err(LeaderboardError::WinningIdentityMismatch));
        assert_eq!(treasury.lamports, 10_000);
        assert_eq!(rows(&lb.participants), before);
        assert_eq!(lb.current_period_start, 1_000);
    }
}

#[test]
fn end_to_end_settlement() {
    let mut lb = started(1_000, 100, 3, 900);
    let (a, b, c, d) = (key(0xA), key(0xB), key(0xC), key(0xD));
    lb.update_scores(vec![row(0xA, 50), row(0xB, 80), row(0xC, 20), row(0xD, 90)])
        .unwrap();
    let mut treasury = Treasury { lamports: 5_000 };
    let payouts = lb
        .end_period_and_distribute_payouts(1_100, &vec![d, b, a], &mut treasury)
        .unwrap();
    assert_eq!(
        payouts,
        vec![
            Payout { recipient: d, amount: 450 },
            Payout { recipient: b, amount: 225 },
            Payout { recipient: a, amount: 112 },
        ]
    );
    assert_eq!(treasury.lamports, 5_000 - 787);
    assert_eq!(lb.participants.capacity(), 100);
    assert_eq!(lb.participants.ranked_count(), 0);
    assert!(lb.participants.entries.iter().all(|p| *p == Participant::default()));
    assert_eq!(lb.current_period_start, 1_100);
    assert_eq!(lb.current_period_end, 1_200);
    assert!(!ranked(&lb.participants).iter().any(|(k, _)| *k == c));
}

#[test]
fn settle_needs_enough_participants() {
    let mut lb = started(0, 10, 3, 800);
    lb.update_scores(vec![row(1, 5), row(2, 6)]).unwrap();
    let mut treasury = Treasury { lamports: 1_000 };
    let claimed = vec![key(2), key(1), Pubkey::default()];
    assert_eq!(
        lb.end_period_and_distribute_payouts(10, &claimed, &mut treasury),
        Err(LeaderboardError::InsufficientEntries)
    );
    assert_eq!(treasury.lamports, 1_000);
    lb.set_winner_policy(WinnerPolicy::AllowEmptySlots);
    let payouts = lb
        .end_period_and_distribute_payouts(10, &claimed, &mut treasury)
        .unwrap();
    assert_eq!(payouts[2], Payout { recipient: Pubkey::default(), amount: 100 });
    assert_eq!(treasury.lamports, 1_000 - 700);
    assert_eq!(lb.current_period_start, 10);
    assert_eq!(lb.current_period_end, 20);
}

#[test]
fn settle_fails_when_treasury_cannot_pay() {
    let mut lb = started(0, 10, 2, 1_000);
    lb.update_scores(vec![row(1, 5), row(2, 6)]).unwrap();
    let mut treasury = Treasury { lamports: 749 };
    let before = rows(&lb.participants);
    assert_eq!(
        lb.end_period_and_distribute_payouts(50, &vec![key(2), key(1)], &mut treasury),
        Err(LeaderboardError::TransferFailed)
    );
    assert_eq!(treasury.lamports, 749);
    assert_eq!(rows(&lb.participants), before);
    assert_eq!(lb.current_period_start, 0);
    treasury.lamports = 750;
    let payouts = lb
        .end_period_and_distribute_payouts(50, &vec![key(2), key(1)], &mut treasury)
        .unwrap();
    assert_eq!(payouts.len(), 2);
    assert_eq!(treasury.lamports, 0);
    assert_eq!(lb.current_period_start, 10);
    assert_eq!(lb.current_period_end, 20);
}

#[test]
fn update_config_takes_effect_from_next_settlement() {
    let mut lb = started(0, 100, 3, 900);
    assert_eq!(
        lb.update_config(0, 2, 10),
        Err(LeaderboardError::InvalidPeriodLength)
    );
    assert_eq!(
        lb.update_config(50, 11, 10),
        Err(LeaderboardError::InvalidTopSpots)
    );
    assert_eq!(lb.update_config(50, 2, -10), Err(LeaderboardError::InvalidPool));
    assert_eq!(lb.period_length, 100);
    assert_eq!(lb.update_config(50, 2, 400), Ok(()));
    assert_eq!((lb.period_length, lb.top_spots, lb.total_payout_per_period), (50, 2, 400));
    assert_eq!(lb.current_period_end, 100);
    lb.update_scores(vec![row(1, 5), row(2, 6)]).unwrap();
    let mut treasury = Treasury { lamports: 1_000 };
    let payouts = lb
        .end_period_and_distribute_payouts(100, &vec![key(2), key(1)], &mut treasury)
        .unwrap();
    assert_eq!(payouts[0].amount, 200);
    assert_eq!(payouts[1].amount, 100);
    assert_eq!(lb.current_period_start, 100);
    assert_eq!(lb.current_period_end, 150);
}

#[test]
fn fund_treasury_moves_lamports() {
    let mut treasury = Treasury { lamports: 10 };
    let mut admin_balance: u64 = 100;
    assert_eq!(treasury.fund_treasury(&mut admin_balance, 60), Ok(()));
    assert_eq!((treasury.lamports, admin_balance), (70, 40));
    assert_eq!(
        treasury.fund_treasury(&mut admin_balance, 41),
        Err(LeaderboardError::TransferFailed)
    );
    assert_eq!((treasury.lamports, admin_balance), (70, 40));
    let mut full = Treasury { lamports: u64::MAX };
    assert_eq!(
        full.fund_treasury(&mut admin_balance, 1),
        Err(LeaderboardError::TransferFailed)
    );
    assert_eq!(admin_balance, 40);
}

#[test]
fn keys_and_rows() {
    let zero = Pubkey::default();
    assert!(zero.is_sentinel());
    assert_eq!(zero.to_bytes(), [0u8; 32]);
    assert!(!key(1).is_sentinel());
    let mut bytes = [0u8; 32];
    bytes[31] = 1;
    let last = Pubkey::new_from_array(bytes);
    assert!(!last.is_sentinel());
    assert!(!last.same_key(&zero));
    assert!(last.same_key(&Pubkey::new_from_array(bytes)));
    assert_ne!(last, zero);
    let empty = Participant::default();
    assert_eq!(empty.pubkey, zero);
    assert_eq!(empty.score, 0);
    assert_ne!(row(1, 0), empty);
}

#[test]
fn close_returns_admin() {
    let lb = started(0, 10, 1, 0);
    assert_eq!(lb.close_leaderboard_account(), key(200));
}

#[test]
fn error_messages() {
    assert_eq!(
        LeaderboardError::WinningIdentityMismatch.message(),
        "Winning pubkey mismatch"
    );
    assert_eq!(
        LeaderboardError::PeriodNotEnded.message(),
        "Period has not ended yet"
    );
}

#[test]
fn well_formed_checks_order_and_keys() {
    let mut lb = started(0, 10, 2, 100);
    lb.update_scores(vec![row(1, 5), row(2, 6)]).unwrap();
    assert!(lb.is_well_formed());
    assert!(Leaderboard::new().is_well_formed());
    let mut unsorted = lb.clone();
    unsorted.participants.entries.swap(0, 1);
    assert!(!unsorted.participants.is_well_formed());
    assert!(!unsorted.is_well_formed());
    let mut twice = lb.clone();
    twice.participants.entries[1] = row(2, 6);
    assert!(!twice.is_well_formed());
    let mut bad_config = lb.clone();
    bad_config.top_spots = 11;
    assert!(!bad_config.is_well_formed());
    let mut short = lb.clone();
    short.participants.entries.pop();
    assert!(short.participants.is_well_formed());
    assert!(!short.is_well_formed());
}

#[test]
fn sentinel_key_row_sets_first_empty_slot() {
    let mut board = ScoreBoard::new(3);
    board.upsert(&vec![row(1, 4)]).unwrap();
    board
        .upsert(&vec![Participant { pubkey: Pubkey::default(), score: 9 }])
        .unwrap();
    assert_eq!(
        rows(&board),
        vec![(Pubkey::default(), 9), (key(1), 4), (Pubkey::default(), 0)]
    );
    assert_eq!(board.ranked_count(), 1);
}
