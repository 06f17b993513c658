use vstd::prelude::*;

use crate::board::{empty_board, top_refused, ScoreBoard, WinnerPolicy};
use crate::error::LeaderboardError;
use crate::payout::{
    compute_payouts, lemma_sum_schedule, lemma_undistributed_remainder, payout_at, payout_sum,
    pool_share, sum_amounts, sum_of,
};
use crate::pubkey::{Participant, Pubkey};

verus! {

/// Slots on the board of an initialized leaderboard.
pub const PARTICIPANT_CAPACITY: usize = 100;

/// The most places a settlement pays.
pub const MAX_TOP_SPOTS: u8 = 10;

/// The reward pool that settlements pay from.
#[derive(Clone, Copy, Debug, PartialEq, Eq, Structural)]
pub struct Treasury {
    pub lamports: u64,
}

/// One transfer of a settlement: `amount` from the treasury to `recipient`.
#[derive(Clone, Copy, Debug, PartialEq, Eq)]
pub struct Payout {
    pub recipient: Pubkey,
    pub amount: u64,
}

impl Treasury {
    /// Moves `amount` from `source` into the treasury.
    ///
    /// Refused with `TransferFailed`, nothing moved, when `source` holds less
    /// than `amount` or the treasury would overflow.
    pub fn fund_treasury(&mut self, source: &mut u64, amount: u64) -> (r: Result<(), LeaderboardError>)
        ensures
            (*old(source) >= amount && old(self).lamports + amount <= u64::MAX) ==> (r is Ok
                && *final(source) == *old(source) - amount && final(self).lamports
                == old(self).lamports + amount),
            !(*old(source) >= amount && old(self).lamports + amount <= u64::MAX) ==> (r
                == Err::<(), LeaderboardError>(LeaderboardError::TransferFailed) && *final(source)
                == *old(source) && *final(self) == *old(self)),
    {
        if *source < amount {
            return Err(LeaderboardError::TransferFailed);
        }
        match self.lamports.checked_add(amount) {
            Some(total) => {
                self.lamports = total;
                *source = *source - amount;
                Ok(())
            },
            None => Err(LeaderboardError::TransferFailed),
        }
    }
}

/// The leaderboard: its configuration, the current period and the score board.
#[derive(Clone, Debug)]
pub struct Leaderboard {
    /// Who may change the configuration and the scores, and receives the
    /// storage back when the leaderboard is closed.
    pub admin: Pubkey,
    pub period_length: i64,
    /// Number of places paid per settlement.
    pub top_spots: u8,
    pub current_period_start: i64,
    pub current_period_end: i64,
    pub participants: ScoreBoard,
    pub is_initialized: bool,
    /// The pool that each settlement splits among the paid places.
    pub total_payout_per_period: i64,
    /// Whether empty slots may fill paid places.
    pub winner_policy: WinnerPolicy,
}

/// A valid configuration: a positive period, 1 to 10 paid places and a
/// pool that is not negative.
pub open spec fn valid_config(period_length: int, top_spots: int, total_payout: int) -> bool {
    period_length > 0 && 1 <= top_spots <= MAX_TOP_SPOTS && total_payout >= 0
}

/// Why a configuration is refused, checked in this order, or `None`.
pub open spec fn config_error(period_length: int, top_spots: int, total_payout: int) -> Option<
    LeaderboardError,
> {
    if period_length <= 0 {
        Some(LeaderboardError::InvalidPeriodLength)
    } else if !(1 <= top_spots <= MAX_TOP_SPOTS) {
        Some(LeaderboardError::InvalidTopSpots)
    } else if total_payout < 0 {
        Some(LeaderboardError::InvalidPool)
    } else {
        None
    }
}

/// Why `initialize` is refused, or `None`.
pub open spec fn initialize_error(
    already_initialized: bool,
    period_length: int,
    top_spots: int,
    total_payout: int,
) -> Option<LeaderboardError> {
    if already_initialized {
        Some(LeaderboardError::AlreadyInitialized)
    } else {
        config_error(period_length, top_spots, total_payout)
    }
}

/// The claimed keys are exactly the keys of the ranked rows, in order.
pub open spec fn claims_match(claimed: Seq<Pubkey>, ranked: Seq<Participant>) -> bool {
    claimed.len() == ranked.len() && forall|i: int|
        0 <= i < claimed.len() ==> #[trigger] claimed[i] == ranked[i].pubkey
}

/// `p` pays the `i`-th claimed key the payout of rank `i`, for each claimed key.
pub open spec fn pays_in_order(p: Seq<Payout>, claimed: Seq<Pubkey>, total: int) -> bool {
    p.len() == claimed.len() && forall|i: int|
        0 <= i < p.len() ==> #[trigger] p[i].recipient == claimed[i] && p[i].amount as int
            == payout_at(total, i)
}

impl Leaderboard {
    /// The board is well formed, and an initialized leaderboard has a valid
    /// configuration and a full-size board.
    pub open spec fn wf(&self) -> bool {
        &&& self.participants.wf()
        &&& self.is_initialized ==> {
            &&& valid_config(
                self.period_length as int,
                self.top_spots as int,
                self.total_payout_per_period as int,
            )
            &&& self.participants@.len() == PARTICIPANT_CAPACITY
        }
    }

    /// The period that began at `current_period_start` has run its length at `now`.
    pub open spec fn elapsed_at(&self, now: int) -> bool {
        now - self.current_period_start >= self.period_length
    }

    /// Why settling at `now` with `claimed` against a treasury of `balance` is
    /// refused, checked in this order, or `None`.
    pub open spec fn settlement_error(&self, now: int, claimed: Seq<Pubkey>, balance: int) -> Option<
        LeaderboardError,
    > {
        let k = self.top_spots as int;
        if !self.elapsed_at(now) {
            Some(LeaderboardError::PeriodNotEnded)
        } else if top_refused(self.participants@, k, self.winner_policy) {
            Some(LeaderboardError::InsufficientEntries)
        } else if !claims_match(claimed, self.participants@.take(k)) {
            Some(LeaderboardError::WinningIdentityMismatch)
        } else if payout_sum(self.total_payout_per_period as int, k as nat) > balance {
            Some(LeaderboardError::TransferFailed)
        } else {
            None
        }
    }

    /// `new` is `old` after a settlement: the board emptied and the period
    /// moved on by exactly one period length; the rest kept.
    pub open spec fn settled_from(&self, old: Leaderboard) -> bool {
        &&& self.participants@ == empty_board(old.participants@.len())
        &&& self.current_period_start == old.current_period_end
        &&& self.current_period_end == old.current_period_end + old.period_length
        &&& self.admin == old.admin
        &&& self.period_length == old.period_length
        &&& self.top_spots == old.top_spots
        &&& self.is_initialized == old.is_initialized
        &&& self.total_payout_per_period == old.total_payout_per_period
        &&& self.winner_policy == old.winner_policy
    }

    /// The leaderboard set up by `initialize`.
    pub open spec fn fresh(
        &self,
        admin: Pubkey,
        now: int,
        period_length: int,
        top_spots: int,
        total_payout: int,
    ) -> bool {
        &&& self.is_initialized
        &&& self.admin == admin
        &&& self.period_length == period_length
        &&& self.top_spots == top_spots
        &&& self.total_payout_per_period == total_payout
        &&& self.current_period_start == now
        &&& self.current_period_end == now + period_length
        &&& self.participants@ == empty_board(PARTICIPANT_CAPACITY as nat)
        &&& self.winner_policy == WinnerPolicy::RequireParticipants
    }

    /// Checks the invariant of `wf`, as a loaded leaderboard must be checked
    /// before it is settled.
    pub fn is_well_formed(&self) -> (r: bool)
        ensures
            r == self.wf(),
    {
        if !self.participants.is_well_formed() {
            return false;
        }
        if !self.is_initialized {
            return true;
        }
        check_config(self.period_length, self.top_spots, self.total_payout_per_period).is_ok()
            && self.participants.capacity() == PARTICIPANT_CAPACITY
    }

    /// A leaderboard that is not initialized yet: every field zero, no slots.
    pub fn new() -> (r: Leaderboard)
        ensures
            !r.is_initialized,
            r.participants@.len() == 0,
            r.wf(),
    {
        Leaderboard {
            admin: Pubkey::default(),
            period_length: 0,
            top_spots: 0,
            current_period_start: 0,
            current_period_end: 0,
            participants: ScoreBoard::new(0),
            is_initialized: false,
            total_payout_per_period: 0,
            winner_policy: WinnerPolicy::RequireParticipants,
        }
    }

    /// Sets the leaderboard up, once: `admin` in charge, the first period
    /// starting at `now`, and a board of empty slots.
    ///
    /// Refused with `AlreadyInitialized` on a leaderboard already set up,
    /// then with `InvalidPeriodLength`, `InvalidTopSpots` or `InvalidPool` for
    /// an invalid configuration; a refusal changes nothing.
    pub fn initialize(
        &mut self,
        admin: Pubkey,
        now: i64,
        period_length: i64,
        top_spots: u8,
        total_payout_per_period: i64,
    ) -> (r: Result<(), LeaderboardError>)
        requires
            period_length > 0 ==> now + period_length <= i64::MAX,
        ensures
            initialize_error(
                old(self).is_initialized,
                period_length as int,
                top_spots as int,
                total_payout_per_period as int,
            ) matches Some(e) ==> r == Err::<(), LeaderboardError>(e) && *final(self) == *old(
                self,
            ),
            initialize_error(
                old(self).is_initialized,
                period_length as int,
                top_spots as int,
                total_payout_per_period as int,
            ) is None ==> r is Ok && final(self).fresh(
                admin,
                now as int,
                period_length as int,
                top_spots as int,
                total_payout_per_period as int,
            ),
            old(self).wf() ==> final(self).wf(),
    {
        if self.is_initialized {
            return Err(LeaderboardError::AlreadyInitialized);
        }
        if let Err(e) = check_config(period_length, top_spots, total_payout_per_period) {
            return Err(e);
        }
        let participants = ScoreBoard::new(PARTICIPANT_CAPACITY);
        *self = Leaderboard {
            admin,
            period_length,
            top_spots,
            current_period_start: now,
            current_period_end: now + period_length,
            participants,
            is_initialized: true,
            total_payout_per_period,
            winner_policy: WinnerPolicy::RequireParticipants,
        };
        Ok(())
    }

    /// Replaces the period length, the number of paid places and the pool.
    /// The current period keeps its end; the new length counts from the next
    /// settlement on.
    ///
    /// Refused, changing nothing, with `InvalidPeriodLength`,
    /// `InvalidTopSpots` or `InvalidPool` for an invalid configuration.
    pub fn update_config(
        &mut self,
        new_period_length: i64,
        new_top_spots: u8,
        new_total_payout: i64,
    ) -> (r: Result<(), LeaderboardError>)
        ensures
            config_error(
                new_period_length as int,
                new_top_spots as int,
                new_total_payout as int,
            ) matches Some(e) ==> r == Err::<(), LeaderboardError>(e) && *final(self) == *old(
                self,
            ),
            config_error(
                new_period_length as int,
                new_top_spots as int,
                new_total_payout as int,
            ) is None ==> r is Ok && *final(self) == (Leaderboard {
                period_length: new_period_length,
                top_spots: new_top_spots,
                total_payout_per_period: new_total_payout,
                ..*old(self)
            }),
            old(self).wf() ==> final(self).wf(),
    {
        if let Err(e) = check_config(new_period_length, new_top_spots, new_total_payout) {
            return Err(e);
        }
        self.period_length = new_period_length;
        self.top_spots = new_top_spots;
        self.total_payout_per_period = new_total_payout;
        Ok(())
    }

    /// Chooses whether empty slots may fill paid places.
    pub fn set_winner_policy(&mut self, policy: WinnerPolicy)
        ensures
            *final(self) == (Leaderboard { winner_policy: policy, ..*old(self) }),
            old(self).wf() ==> final(self).wf(),
    {
        self.winner_policy = policy;
    }

    /// Writes a batch of scores into the board (see `ScoreBoard::upsert`).
    ///
    /// Refused with `TooManyEntries`, changing nothing, when the batch is
    /// longer than the board.
    pub fn update_scores(&mut self, updated_participants: Vec<Participant>) -> (r: Result<
        (),
        LeaderboardError,
    >)
        ensures
            updated_participants@.len() > old(self).participants@.len() ==> r == Err::<
                (),
                LeaderboardError,
            >(LeaderboardError::TooManyEntries) && *final(self) == *old(self),
            updated_participants@.len() <= old(self).participants@.len() ==> r is Ok
                && final(self).participants@ == crate::board::upsert_all(
                old(self).participants@,
                updated_participants@,
            ) && *final(self) == (Leaderboard {
                participants: final(self).participants,
                ..*old(self)
            }),
            old(self).wf() ==> final(self).wf(),
    {
        self.participants.upsert(&updated_participants)
    }

    /// Whether the current period has run its length at `now`.
    pub fn period_elapsed(&self, now: i64) -> (r: bool)
        ensures
            r == self.elapsed_at(now as int),
    {
        (now as i128) - (self.current_period_start as i128) >= (self.period_length as i128)
    }

    /// Ends the current period: checks it has elapsed, that `claimed` is
    /// exactly the ranking's top `top_spots` keys in order, and that the
    /// treasury covers the payouts; then pays rank `i` the pool divided by
    /// `2^(i + 1)`, empties the board and moves the period on by one length.
    ///
    /// The payouts returned are the transfers made from the treasury, in rank
    /// order. A refusal (`PeriodNotEnded`, `InsufficientEntries`,
    /// `WinningIdentityMismatch`, `TransferFailed`) moves nothing and changes
    /// nothing.
    pub fn end_period_and_distribute_payouts(
        &mut self,
        now: i64,
        claimed: &Vec<Pubkey>,
        treasury: &mut Treasury,
    ) -> (r: Result<Vec<Payout>, LeaderboardError>)
        requires
            old(self).wf(),
            old(self).is_initialized,
            old(self).current_period_end + old(self).period_length <= i64::MAX,
        ensures
            old(self).settlement_error(
                now as int,
                claimed@,
                old(treasury).lamports as int,
            ) matches Some(e) ==> r == Err::<Vec<Payout>, LeaderboardError>(e) && *final(self)
                == *old(self) && *final(treasury) == *old(treasury),
            old(self).settlement_error(now as int, claimed@, old(treasury).lamports as int) is None
                ==> (r matches Ok(p) && pays_in_order(
                p@,
                claimed@,
                old(self).total_payout_per_period as int,
            ) && final(self).settled_from(*old(self)) && final(treasury).lamports
                == old(treasury).lamports - payout_sum(
                old(self).total_payout_per_period as int,
                old(self).top_spots as nat,
            )),
            !old(self).elapsed_at(now as int) ==> r == Err::<Vec<Payout>, LeaderboardError>(
                LeaderboardError::PeriodNotEnded,
            ) && final(self).participants == old(self).participants && *final(treasury) == *old(
                treasury,
            ),
            old(self).elapsed_at(now as int) && !top_refused(
                old(self).participants@,
                old(self).top_spots as int,
                old(self).winner_policy,
            ) && !claims_match(claimed@, old(self).participants@.take(old(self).top_spots as int))
                ==> r == Err::<Vec<Payout>, LeaderboardError>(
                LeaderboardError::WinningIdentityMismatch,
            ) && *final(treasury) == *old(treasury),
            final(self).wf(),
    {
        if !self.period_elapsed(now) {
            return Err(LeaderboardError::PeriodNotEnded);
        }
        let k = self.top_spots as usize;
        let ranked = match self.participants.top(k, self.winner_policy) {
            Ok(w) => w,
            Err(e) => {
                return Err(e);
            },
        };
        if !keys_match(claimed, &ranked) {
            return Err(LeaderboardError::WinningIdentityMismatch);
        }
        let amounts = match compute_payouts(self.total_payout_per_period, k) {
            Ok(a) => a,
            Err(e) => {
                return Err(e);
            },
        };
        proof {
            let total = self.total_payout_per_period as int;
            lemma_sum_schedule(amounts@, total);
            lemma_undistributed_remainder(total, k as nat);
            vstd::arithmetic::power2::lemma_pow2_pos(k as nat);
            vstd::arithmetic::div_mod::lemma_div_pos_is_pos(
                total,
                vstd::arithmetic::power2::pow2(k as nat) as int,
            );
            assert(pool_share(total, k as nat) >= 0);
        }
        let due = match sum_of(&amounts) {
            Some(t) => t,
            None => {
                return Err(LeaderboardError::TransferFailed);
            },
        };
        if due > treasury.lamports {
            return Err(LeaderboardError::TransferFailed);
        }
        let mut payouts: Vec<Payout> = Vec::new();
        let mut i: usize = 0;
        while i < k
            invariant
                0 <= i <= k,
                k == claimed@.len(),
                k == amounts@.len(),
                payouts@.len() == i,
                forall|j: int|
                    0 <= j < i ==> #[trigger] payouts@[j].recipient == claimed@[j]
                        && payouts@[j].amount == amounts@[j],
            decreases k - i,
        {
            payouts.push(Payout { recipient: claimed[i], amount: amounts[i] });
            i = i + 1;
        }
        treasury.lamports = treasury.lamports - due;
        self.participants.reset();
        self.current_period_start = self.current_period_end;
        self.current_period_end = self.current_period_start + self.period_length;
        Ok(payouts)
    }

    /// Closes the leaderboard; its storage goes back to the admin, whose key
    /// is returned.
    pub fn close_leaderboard_account(self) -> (r: Pubkey)
        ensures
            r == self.admin,
    {
        self.admin
    }
}

/// Initialization succeeds exactly once: with a valid configuration it
/// succeeds on a leaderboard not yet initialized, and on the leaderboard it
/// sets up every further call is refused with `AlreadyInitialized`, whatever
/// its arguments.
pub proof fn lemma_initialize_once(
    before: Leaderboard,
    after: Leaderboard,
    admin: Pubkey,
    now: int,
    period_length: int,
    top_spots: int,
    total_payout: int,
    again_period_length: int,
    again_top_spots: int,
    again_total_payout: int,
)
    requires
        !before.is_initialized,
        valid_config(period_length, top_spots, total_payout),
        after.fresh(admin, now, period_length, top_spots, total_payout),
    ensures
        initialize_error(before.is_initialized, period_length, top_spots, total_payout) is None,
        initialize_error(
            after.is_initialized,
            again_period_length,
            again_top_spots,
            again_total_payout,
        ) == Some(LeaderboardError::AlreadyInitialized),
{
}

/// Checks a configuration, in the order of `config_error`.
fn check_config(period_length: i64, top_spots: u8, total_payout: i64) -> (r: Result<
    (),
    LeaderboardError,
>)
    ensures
        config_error(period_length as int, top_spots as int, total_payout as int) matches Some(e)
            ==> r == Err::<(), LeaderboardError>(e),
        config_error(period_length as int, top_spots as int, total_payout as int) is None ==> r is Ok,
{
    if period_length <= 0 {
        return Err(LeaderboardError::InvalidPeriodLength);
    }
    if top_spots == 0 || top_spots > MAX_TOP_SPOTS {
        return Err(LeaderboardError::InvalidTopSpots);
    }
    if total_payout < 0 {
        return Err(LeaderboardError::InvalidPool);
    }
    Ok(())
}

/// Whether `claimed` is exactly the keys of `ranked`, in order.
pub fn keys_match(claimed: &Vec<Pubkey>, ranked: &Vec<Participant>) -> (r: bool)
    ensures
        r == claims_match(claimed@, ranked@),
{
    if claimed.len() != ranked.len() {
        return false;
    }
    let mut i: usize = 0;
    while i < claimed.len()
        invariant
            0 <= i <= claimed.len(),
            claimed.len() == ranked.len(),
            forall|j: int| 0 <= j < i ==> #[trigger] claimed@[j] == ranked@[j].pubkey,
        decreases claimed.len() - i,
    {
        if !claimed[i].same_key(&ranked[i].pubkey) {
            return false;
        }
        i = i + 1;
    }
    true
}

} // verus!
