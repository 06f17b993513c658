use vstd::prelude::*;

use crate::error::LeaderboardError;
use crate::pubkey::{empty_slot, sentinel, Participant, Pubkey};

verus! {

// ------------------------------------------------------------------------
// Model
// ------------------------------------------------------------------------

/// Index of the first row of `s` whose key is `key`, or -1 when there is none.
pub open spec fn find_key(s: Seq<Participant>, key: Pubkey) -> int
    decreases s.len(),
{
    if s.len() == 0 {
        -1
    } else {
        let r = find_key(s.drop_last(), key);
        if r >= 0 {
            r
        } else if s.last().pubkey == key {
            s.len() - 1
        } else {
            -1
        }
    }
}

/// Number of rows of `s` whose key is `key`.
pub open spec fn count_key(s: Seq<Participant>, key: Pubkey) -> nat
    decreases s.len(),
{
    if s.len() == 0 {
        0
    } else {
        count_key(s.drop_last(), key) + if s.last().pubkey == key {
            1nat
        } else {
            0nat
        }
    }
}

/// Number of rows of `s` that are not empty slots.
pub open spec fn count_ranked(s: Seq<Participant>) -> int {
    s.len() - count_key(s, sentinel())
}

/// Scores never increase from one row to the next.
pub open spec fn sorted_by_score(s: Seq<Participant>) -> bool {
    forall|i: int, j: int| 0 <= i < j < s.len() ==> s[i].score >= s[j].score
}

/// No key other than the sentinel appears on two rows.
pub open spec fn unique_keys(s: Seq<Participant>) -> bool {
    forall|k: Pubkey| k != sentinel() ==> #[trigger] count_key(s, k) <= 1
}

/// Where a stable insertion puts `x` into `t`: after every leading row whose
/// score is at least `x.score`.
pub open spec fn insert_pos(t: Seq<Participant>, x: Participant) -> int
    decreases t.len(),
{
    if t.len() == 0 {
        0
    } else if t[0].score >= x.score {
        1 + insert_pos(t.drop_first(), x)
    } else {
        0
    }
}

/// `t` with `x` inserted behind every leading row of score at least `x.score`.
pub open spec fn insert_by_score(t: Seq<Participant>, x: Participant) -> Seq<Participant> {
    t.insert(insert_pos(t, x), x)
}

/// `s` sorted by descending score, rows of equal score kept in their order in `s`
/// (an insertion sort that takes the rows in board order).
pub open spec fn sort_by_score(s: Seq<Participant>) -> Seq<Participant>
    decreases s.len(),
{
    if s.len() == 0 {
        s
    } else {
        insert_by_score(sort_by_score(s.drop_last()), s.last())
    }
}

/// The slot a newcomer competes for: the first empty slot, or else the last row,
/// which on a sorted board holds the least score.
pub open spec fn admission_slot(s: Seq<Participant>) -> int {
    let z = find_key(s, sentinel());
    if z >= 0 {
        z
    } else {
        s.len() - 1
    }
}

/// The board after `e` is written into it, before the resort: a known key gets
/// the new score; a newcomer takes the admission slot only with a strictly
/// greater score than the one held there, and is dropped otherwise.
pub open spec fn place_entry(s: Seq<Participant>, e: Participant) -> Seq<Participant> {
    let i = find_key(s, e.pubkey);
    if i >= 0 {
        s.update(i, e)
    } else if e.score > s[admission_slot(s)].score {
        s.update(admission_slot(s), e)
    } else {
        s
    }
}

/// The board after one row of a batch: placed, then resorted.
pub open spec fn upsert_one(s: Seq<Participant>, e: Participant) -> Seq<Participant> {
    sort_by_score(place_entry(s, e))
}

/// The board after a whole batch, its rows taken in order.
pub open spec fn upsert_all(s: Seq<Participant>, batch: Seq<Participant>) -> Seq<Participant>
    decreases batch.len(),
{
    if batch.len() == 0 {
        s
    } else {
        upsert_one(upsert_all(s, batch.drop_last()), batch.last())
    }
}

/// Whether asking `s` for its top `k` rows under `policy` is refused: too few
/// rows, or too few that are not empty slots where the policy requires them.
pub open spec fn top_refused(s: Seq<Participant>, k: int, policy: WinnerPolicy) -> bool {
    k > s.len() || (policy == WinnerPolicy::RequireParticipants && count_ranked(s) < k)
}

/// A board of `n` empty slots.
pub open spec fn empty_board(n: nat) -> Seq<Participant> {
    Seq::new(n, |i: int| empty_slot())
}

// ------------------------------------------------------------------------
// Lemmas on the model
// ------------------------------------------------------------------------

/// What `find_key` returns: the first matching index, or -1 with no match at all.
pub proof fn lemma_find_key(s: Seq<Participant>, key: Pubkey)
    ensures
        -1 <= find_key(s, key) < s.len(),
        find_key(s, key) == -1 ==> forall|j: int| 0 <= j < s.len() ==> s[j].pubkey != key,
        find_key(s, key) >= 0 ==> s[find_key(s, key)].pubkey == key,
        forall|j: int| 0 <= j < find_key(s, key) ==> s[j].pubkey != key,
    decreases s.len(),
{
    if s.len() > 0 {
        let d = s.drop_last();
        lemma_find_key(d, key);
        assert forall|j: int| 0 <= j < d.len() implies d[j] == s[j] by {}
    }
}

/// `count_key` of a board and of the same board with one row replaced.
pub proof fn lemma_count_update(s: Seq<Participant>, i: int, y: Participant, key: Pubkey)
    requires
        0 <= i < s.len(),
    ensures
        count_key(s.update(i, y), key) + (if s[i].pubkey == key { 1int } else { 0int })
            == count_key(s, key) + (if y.pubkey == key { 1int } else { 0int }),
    decreases s.len(),
{
    let t = s.update(i, y);
    if i == s.len() - 1 {
        assert(t.drop_last() =~= s.drop_last());
    } else {
        assert(t.drop_last() =~= s.drop_last().update(i, y));
        lemma_count_update(s.drop_last(), i, y, key);
    }
}

/// `count_key` adds up over concatenation.
pub proof fn lemma_count_concat(a: Seq<Participant>, b: Seq<Participant>, key: Pubkey)
    ensures
        count_key(a + b, key) == count_key(a, key) + count_key(b, key),
    decreases b.len(),
{
    if b.len() == 0 {
        assert(a + b =~= a);
    } else {
        assert((a + b).drop_last() =~= a + b.drop_last());
        lemma_count_concat(a, b.drop_last(), key);
    }
}

/// A key is counted exactly when some row holds it.
pub proof fn lemma_count_zero(s: Seq<Participant>, key: Pubkey)
    ensures
        (count_key(s, key) == 0) <==> (forall|j: int| 0 <= j < s.len() ==> s[j].pubkey != key),
        count_key(s, key) <= s.len(),
    decreases s.len(),
{
    if s.len() > 0 {
        let d = s.drop_last();
        lemma_count_zero(d, key);
        assert forall|j: int| 0 <= j < d.len() implies d[j] == s[j] by {}
        if count_key(s, key) != 0 && count_key(d, key) == 0 {
            assert(s[s.len() - 1].pubkey == key);
        }
    }
}

/// Two rows with one key make its count at least two.
pub proof fn lemma_count_two(s: Seq<Participant>, i: int, j: int)
    requires
        0 <= i < j < s.len(),
        s[i].pubkey == s[j].pubkey,
    ensures
        count_key(s, s[i].pubkey) >= 2,
    decreases s.len(),
{
    let key = s[i].pubkey;
    if j == s.len() - 1 {
        lemma_count_zero(s.drop_last(), key);
        assert(s.drop_last()[i].pubkey == key);
    } else {
        assert(s.drop_last()[i] == s[i] && s.drop_last()[j] == s[j]);
        lemma_count_two(s.drop_last(), i, j);
    }
}

/// A key counted twice stands on two rows.
pub proof fn lemma_count_two_rows(s: Seq<Participant>, key: Pubkey)
    requires
        count_key(s, key) >= 2,
    ensures
        exists|i: int, j: int|
            0 <= i < j < s.len() && #[trigger] s[i].pubkey == key && #[trigger] s[j].pubkey == key,
    decreases s.len(),
{
    let d = s.drop_last();
    if count_key(d, key) >= 2 {
        lemma_count_two_rows(d, key);
        let (i, j) = choose|i: int, j: int|
            0 <= i < j < d.len() && #[trigger] d[i].pubkey == key && #[trigger] d[j].pubkey == key;
        assert(s[i] == d[i] && s[j] == d[j]);
    } else {
        lemma_count_zero(d, key);
        let i = choose|i: int| 0 <= i < d.len() && d[i].pubkey == key;
        assert(s[i] == d[i]);
        assert(s[s.len() - 1].pubkey == key);
    }
}

/// No key but the sentinel on two rows, stated over pairs of rows.
pub proof fn lemma_unique_keys_pairwise(s: Seq<Participant>)
    ensures
        unique_keys(s) <==> forall|i: int, j: int|
            0 <= i < j < s.len() && s[i].pubkey != sentinel() ==> s[i].pubkey != s[j].pubkey,
{
    if unique_keys(s) {
        assert forall|i: int, j: int|
            0 <= i < j < s.len() && s[i].pubkey != sentinel() implies s[i].pubkey
            != s[j].pubkey by {
            if s[i].pubkey == s[j].pubkey {
                lemma_unique_row(s, i, j);
            }
        }
    }
    if forall|i: int, j: int|
        0 <= i < j < s.len() && s[i].pubkey != sentinel() ==> s[i].pubkey != s[j].pubkey {
        assert forall|k: Pubkey| k != sentinel() implies #[trigger] count_key(s, k) <= 1 by {
            if count_key(s, k) >= 2 {
                lemma_count_two_rows(s, k);
            }
        }
    }
}

/// On a board without duplicate keys, a row is found by its key alone.
pub proof fn lemma_unique_row(s: Seq<Participant>, i: int, j: int)
    requires
        unique_keys(s),
        0 <= i < s.len(),
        0 <= j < s.len(),
        s[i].pubkey == s[j].pubkey,
        s[i].pubkey != sentinel(),
    ensures
        i == j,
{
    if i < j {
        lemma_count_two(s, i, j);
    } else if j < i {
        lemma_count_two(s, j, i);
    }
    assert(count_key(s, s[i].pubkey) <= 1);
}

/// The bounds that `insert_pos` obeys.
pub proof fn lemma_insert_pos(t: Seq<Participant>, x: Participant)
    ensures
        0 <= insert_pos(t, x) <= t.len(),
        forall|j: int| 0 <= j < insert_pos(t, x) ==> t[j].score >= x.score,
        insert_pos(t, x) < t.len() ==> t[insert_pos(t, x)].score < x.score,
    decreases t.len(),
{
    if t.len() > 0 && t[0].score >= x.score {
        lemma_insert_pos(t.drop_first(), x);
        let p = insert_pos(t, x);
        assert forall|j: int| 0 <= j < p implies t[j].score >= x.score by {
            if j > 0 {
                assert(t[j] == t.drop_first()[j - 1]);
            }
        }
    }
}

/// A position that a scan finds is `insert_pos`.
pub proof fn lemma_insert_pos_scan(t: Seq<Participant>, x: Participant, k: int)
    requires
        0 <= k <= t.len(),
        forall|j: int| 0 <= j < k ==> t[j].score >= x.score,
        k < t.len() ==> t[k].score < x.score,
    ensures
        insert_pos(t, x) == k,
{
    lemma_insert_pos(t, x);
    let p = insert_pos(t, x);
    if p < k {
        assert(t[p].score >= x.score);
    }
    if k < p {
        assert(t[k].score >= x.score);
    }
}

/// Facts on one stable insertion: length, counts, membership and order.
pub proof fn lemma_insert_by_score(t: Seq<Participant>, x: Participant)
    ensures
        insert_by_score(t, x).len() == t.len() + 1,
        forall|key: Pubkey|
            #[trigger] count_key(insert_by_score(t, x), key) == count_key(t, key) + (if x.pubkey
                == key {
                1nat
            } else {
                0nat
            }),
        forall|y: Participant| #[trigger]
            insert_by_score(t, x).contains(y) <==> (y == x || t.contains(y)),
        sorted_by_score(t) ==> sorted_by_score(insert_by_score(t, x)),
{
    lemma_insert_pos(t, x);
    let p = insert_pos(t, x);
    let r = insert_by_score(t, x);
    t.insert_ensures(p, x);
    assert forall|key: Pubkey|
        #[trigger] count_key(r, key) == count_key(t, key) + (if x.pubkey == key {
            1nat
        } else {
            0nat
        }) by {
        let a = t.subrange(0, p);
        let b = t.subrange(p, t.len() as int);
        assert(r =~= a.push(x) + b);
        assert(t =~= a + b);
        assert(a.push(x).drop_last() =~= a);
        lemma_count_concat(a.push(x), b, key);
        lemma_count_concat(a, b, key);
    }
    assert forall|y: Participant| #[trigger] r.contains(y) <==> (y == x || t.contains(y)) by {
        if r.contains(y) && y != x {
            let i = choose|i: int| 0 <= i < r.len() && r[i] == y;
            if i < p {
                assert(t[i] == y);
            } else {
                assert(i != p);
                assert(t[i - 1] == y);
            }
        }
        if y == x {
            assert(r[p] == y);
        }
        if t.contains(y) {
            let i = choose|i: int| 0 <= i < t.len() && t[i] == y;
            if i < p {
                assert(r[i] == y);
            } else {
                assert(r[i + 1] == y);
            }
        }
    }
    if sorted_by_score(t) {
        assert forall|i: int, j: int| 0 <= i < j < r.len() implies r[i].score >= r[j].score by {
            if j < p {
                assert(r[i] == t[i] && r[j] == t[j]);
            } else if j == p {
                assert(r[i] == t[i]);
            } else if i < p {
                assert(r[i] == t[i] && r[j] == t[j - 1]);
            } else if i == p {
                assert(r[j] == t[j - 1]);
                assert(t[p].score < x.score);
                assert(t[p].score >= t[j - 1].score);
            } else {
                assert(r[i] == t[i - 1] && r[j] == t[j - 1]);
            }
        }
    }
}

/// Sorting keeps the length, the count of every key and the set of rows, and
/// yields a sorted board.
pub proof fn lemma_sort_by_score(s: Seq<Participant>)
    ensures
        sort_by_score(s).len() == s.len(),
        forall|key: Pubkey| #[trigger] count_key(sort_by_score(s), key) == count_key(s, key),
        forall|y: Participant| #[trigger] sort_by_score(s).contains(y) <==> s.contains(y),
        sorted_by_score(sort_by_score(s)),
    decreases s.len(),
{
    if s.len() > 0 {
        let d = s.drop_last();
        lemma_sort_by_score(d);
        lemma_insert_by_score(sort_by_score(d), s.last());
        assert forall|y: Participant| #[trigger] sort_by_score(s).contains(y) <==> s.contains(y) by {
            if s.contains(y) && y != s.last() {
                let i = choose|i: int| 0 <= i < s.len() && s[i] == y;
                assert(d[i] == y);
            }
            if d.contains(y) {
                let i = choose|i: int| 0 <= i < d.len() && d[i] == y;
                assert(s[i] == y);
            }
            assert(s[s.len() - 1] == s.last());
        }
    }
}

/// A sorted board is its own sort.
pub proof fn lemma_sort_sorted(s: Seq<Participant>)
    requires
        sorted_by_score(s),
    ensures
        sort_by_score(s) == s,
    decreases s.len(),
{
    if s.len() > 0 {
        let d = s.drop_last();
        lemma_sort_sorted(d);
        lemma_insert_pos_scan(d, s.last(), d.len() as int);
        assert(d.insert(d.len() as int, s.last()) =~= s);
    }
}

/// Placing a row keeps the length and, on a board without duplicate keys,
/// introduces none.
pub proof fn lemma_place_entry(s: Seq<Participant>, e: Participant)
    requires
        s.len() > 0,
    ensures
        place_entry(s, e).len() == s.len(),
        unique_keys(s) ==> unique_keys(place_entry(s, e)),
{
    lemma_find_key(s, e.pubkey);
    lemma_find_key(s, sentinel());
    let i = find_key(s, e.pubkey);
    let slot = admission_slot(s);
    if unique_keys(s) {
        if i >= 0 {
            assert forall|k: Pubkey| k != sentinel() implies #[trigger] count_key(
                place_entry(s, e),
                k,
            ) <= 1 by {
                lemma_count_update(s, i, e, k);
                assert(count_key(s, k) <= 1);
            }
        } else if e.score > s[slot].score {
            lemma_count_zero(s, e.pubkey);
            assert forall|k: Pubkey| k != sentinel() implies #[trigger] count_key(
                place_entry(s, e),
                k,
            ) <= 1 by {
                lemma_count_update(s, slot, e, k);
                assert(count_key(s, k) <= 1);
            }
        }
    }
}

/// One upsert keeps the length, yields a sorted board and introduces no
/// duplicate key.
pub proof fn lemma_upsert_one(s: Seq<Participant>, e: Participant)
    requires
        s.len() > 0,
    ensures
        upsert_one(s, e).len() == s.len(),
        sorted_by_score(upsert_one(s, e)),
        unique_keys(s) ==> unique_keys(upsert_one(s, e)),
{
    lemma_place_entry(s, e);
    lemma_sort_by_score(place_entry(s, e));
    if unique_keys(s) {
        assert forall|k: Pubkey| k != sentinel() implies #[trigger] count_key(
            upsert_one(s, e),
            k,
        ) <= 1 by {
            assert(count_key(place_entry(s, e), k) <= 1);
        }
    }
}

/// A batch upsert keeps the length, and a sorted board without duplicate keys
/// stays so.
pub proof fn lemma_upsert_all(s: Seq<Participant>, batch: Seq<Participant>)
    requires
        batch.len() == 0 || s.len() > 0,
    ensures
        upsert_all(s, batch).len() == s.len(),
        sorted_by_score(s) ==> sorted_by_score(upsert_all(s, batch)),
        unique_keys(s) ==> unique_keys(upsert_all(s, batch)),
    decreases batch.len(),
{
    if batch.len() > 0 {
        lemma_upsert_all(s, batch.drop_last());
        lemma_upsert_one(upsert_all(s, batch.drop_last()), batch.last());
    }
}

/// After any batch that the board accepts, the board keeps its length and no
/// key other than the sentinel stands on two rows.
pub proof fn lemma_upsert_keeps_capacity_and_keys(s: Seq<Participant>, batch: Seq<Participant>)
    requires
        unique_keys(s),
        batch.len() <= s.len(),
    ensures
        upsert_all(s, batch).len() == s.len(),
        forall|i: int, j: int|
            0 <= i < j < upsert_all(s, batch).len() && upsert_all(s, batch)[i].pubkey != sentinel()
                ==> upsert_all(s, batch)[i].pubkey != upsert_all(s, batch)[j].pubkey,
{
    lemma_upsert_all(s, batch);
    let r = upsert_all(s, batch);
    assert forall|i: int, j: int|
        0 <= i < j < r.len() && r[i].pubkey != sentinel() implies r[i].pubkey != r[j].pubkey by {
        if r[i].pubkey == r[j].pubkey {
            lemma_unique_row(r, i, j);
        }
    }
}

/// Upserting one row unfolds to placing it and resorting.
proof fn lemma_upsert_single(s: Seq<Participant>, e: Participant)
    ensures
        upsert_all(s, seq![e]) == upsert_one(s, e),
{
    let b = seq![e];
    assert(b.drop_last().len() == 0);
    assert(upsert_all(s, b.drop_last()) == s);
    assert(b.last() == e);
}

/// Writing the same row twice leaves the board as writing it once.
pub proof fn lemma_upsert_idempotent(s: Seq<Participant>, e: Participant)
    requires
        sorted_by_score(s),
        unique_keys(s),
        s.len() > 0,
        e.pubkey != sentinel(),
    ensures
        upsert_all(upsert_all(s, seq![e]), seq![e]) == upsert_all(s, seq![e]),
{
    lemma_upsert_single(s, e);
    let placed = place_entry(s, e);
    let t = upsert_one(s, e);
    lemma_upsert_single(t, e);
    lemma_upsert_one(s, e);
    lemma_sort_by_score(placed);
    lemma_find_key(s, e.pubkey);
    lemma_find_key(s, sentinel());
    if placed.contains(e) {
        assert(t.contains(e));
        let j = choose|j: int| 0 <= j < t.len() && t[j] == e;
        lemma_find_key(t, e.pubkey);
        let i = find_key(t, e.pubkey);
        assert(i >= 0);
        lemma_unique_row(t, i, j);
        assert(place_entry(t, e) =~= t);
    } else {
        let i = find_key(s, e.pubkey);
        if i >= 0 {
            assert(placed[i] == e);
        } else if e.score > s[admission_slot(s)].score {
            assert(placed[admission_slot(s)] == e);
        }
        assert(placed == s);
        lemma_sort_sorted(s);
        assert(t == s);
    }
    lemma_sort_sorted(t);
}

/// A row displaces a ranked participant only by a strictly greater score, and
/// only the one holding the least score on a board without empty slots.
pub proof fn lemma_monotonic_admission(s: Seq<Participant>, e: Participant, j: int)
    requires
        sorted_by_score(s),
        unique_keys(s),
        0 <= j < s.len(),
        s[j].pubkey != sentinel(),
        count_key(upsert_one(s, e), s[j].pubkey) == 0,
    ensures
        e.score > s[j].score,
        j == admission_slot(s),
        forall|m: int| 0 <= m < s.len() ==> s[m].score >= s[j].score,
{
    let k = s[j].pubkey;
    let placed = place_entry(s, e);
    lemma_sort_by_score(placed);
    lemma_find_key(s, e.pubkey);
    lemma_find_key(s, sentinel());
    lemma_count_zero(s, k);
    let i = find_key(s, e.pubkey);
    let slot = admission_slot(s);
    if i >= 0 {
        lemma_count_update(s, i, e, k);
    } else if e.score > s[slot].score {
        lemma_count_update(s, slot, e, k);
        assert(s[slot].pubkey == k);
        lemma_unique_row(s, slot, j);
    } else {
        assert(placed == s);
    }
}

// ------------------------------------------------------------------------
// Executable board
// ------------------------------------------------------------------------

/// Which boards may be settled when fewer participants are ranked than there
/// are places to pay.
#[derive(Clone, Copy, Debug, PartialEq, Eq, Structural)]
pub enum WinnerPolicy {
    /// Every paid place must hold a participant: settlement fails otherwise.
    RequireParticipants,
    /// Empty slots may fill paid places; their payouts go to the sentinel key.
    AllowEmptySlots,
}

/// The bounded ranked collection of participants.
///
/// The rows are kept sorted by descending score; empty slots hold the default
/// row. Its length is fixed when it is made.
#[derive(Clone, Debug)]
pub struct ScoreBoard {
    pub entries: Vec<Participant>,
}

impl View for ScoreBoard {
    type V = Seq<Participant>;

    open spec fn view(&self) -> Seq<Participant> {
        self.entries@
    }
}

/// The first index of `key` in `v`.
fn position_of(v: &Vec<Participant>, key: &Pubkey) -> (r: Option<usize>)
    ensures
        match r {
            Some(i) => i as int == find_key(v@, *key),
            None => find_key(v@, *key) == -1,
        },
{
    proof {
        lemma_find_key(v@, *key);
    }
    let mut k: usize = 0;
    while k < v.len()
        invariant
            0 <= k <= v.len(),
            forall|j: int| 0 <= j < k ==> v@[j].pubkey != *key,
            -1 <= find_key(v@, *key) < v@.len(),
            find_key(v@, *key) == -1 ==> forall|j: int| 0 <= j < v@.len() ==> v@[j].pubkey != *key,
            find_key(v@, *key) >= 0 ==> v@[find_key(v@, *key)].pubkey == *key,
            forall|j: int| 0 <= j < find_key(v@, *key) ==> v@[j].pubkey != *key,
        decreases v.len() - k,
    {
        if v[k].pubkey.same_key(key) {
            return Some(k);
        }
        k = k + 1;
    }
    None
}

/// Inserts `x` into `t` behind every leading row of score at least `x.score`.
fn insert_sorted(t: &mut Vec<Participant>, x: Participant)
    ensures
        final(t)@ == insert_by_score(old(t)@, x),
{
    let mut p: usize = 0;
    while p < t.len() && t[p].score >= x.score
        invariant
            0 <= p <= t.len(),
            forall|j: int| 0 <= j < p ==> t@[j].score >= x.score,
        decreases t.len() - p,
    {
        p = p + 1;
    }
    proof {
        lemma_insert_pos_scan(t@, x, p as int);
    }
    t.insert(p, x);
}

/// A copy of `v` sorted by descending score, rows of equal score in their
/// order in `v`.
fn sorted_copy(v: &Vec<Participant>) -> (r: Vec<Participant>)
    ensures
        r@ == sort_by_score(v@),
{
    let mut r: Vec<Participant> = Vec::new();
    let mut k: usize = 0;
    while k < v.len()
        invariant
            0 <= k <= v.len(),
            r@ == sort_by_score(v@.take(k as int)),
        decreases v.len() - k,
    {
        proof {
            assert(v@.take(k as int + 1).drop_last() =~= v@.take(k as int));
        }
        insert_sorted(&mut r, v[k]);
        k = k + 1;
    }
    proof {
        assert(v@.take(v.len() as int) =~= v@);
    }
    r
}

impl ScoreBoard {
    /// Sorted by descending score, with no key but the sentinel on two rows.
    pub open spec fn wf(&self) -> bool {
        sorted_by_score(self@) && unique_keys(self@)
    }

    /// Checks that the board is sorted by descending score and that no key
    /// but the sentinel stands on two rows.
    pub fn is_well_formed(&self) -> (r: bool)
        ensures
            r == self.wf(),
    {
        let n = self.entries.len();
        let mut i: usize = 0;
        while i < n
            invariant
                0 <= i <= n,
                n == self@.len(),
                forall|a: int, b: int|
                    0 <= a < i && a < b < n ==> self@[a].score >= self@[b].score,
                forall|a: int, b: int|
                    0 <= a < i && a < b < n && self@[a].pubkey != sentinel() ==> self@[a].pubkey
                        != self@[b].pubkey,
            decreases n - i,
        {
            let open_slot = self.entries[i].pubkey.is_sentinel();
            let mut j: usize = i + 1;
            while j < n
                invariant
                    i < n,
                    i + 1 <= j <= n,
                    n == self@.len(),
                    open_slot == (self@[i as int].pubkey == sentinel()),
                    forall|b: int| i < b < j ==> self@[i as int].score >= self@[b].score,
                    forall|b: int|
                        i < b < j && self@[i as int].pubkey != sentinel() ==> self@[i as int].pubkey
                            != self@[b].pubkey,
                decreases n - j,
            {
                if self.entries[i].score < self.entries[j].score {
                    return false;
                }
                if !open_slot && self.entries[i].pubkey.same_key(&self.entries[j].pubkey) {
                    proof {
                        lemma_unique_keys_pairwise(self@);
                    }
                    return false;
                }
                j = j + 1;
            }
            i = i + 1;
        }
        proof {
            lemma_unique_keys_pairwise(self@);
        }
        true
    }

    /// A board of `capacity` empty slots.
    pub fn new(capacity: usize) -> (r: ScoreBoard)
        ensures
            r@ == empty_board(capacity as nat),
            r.wf(),
    {
        let mut entries: Vec<Participant> = Vec::new();
        let mut k: usize = 0;
        while k < capacity
            invariant
                0 <= k <= capacity,
                entries@ == empty_board(k as nat),
            decreases capacity - k,
        {
            entries.push(Participant::default());
            k = k + 1;
            proof {
                assert(entries@ =~= empty_board(k as nat));
            }
        }
        let r = ScoreBoard { entries };
        proof {
            lemma_empty_board_wf(capacity as nat);
        }
        r
    }

    /// Number of slots.
    pub fn capacity(&self) -> (r: usize)
        ensures
            r == self@.len(),
    {
        self.entries.len()
    }

    /// Writes a batch of scores into the board, one row after another.
    ///
    /// A known key gets its new score. A newcomer takes the first empty slot,
    /// or else the last (lowest) row, and only with a strictly greater score
    /// than the row it replaces. The board is resorted after every row.
    /// A row with the sentinel key finds the first empty slot as its own row
    /// and sets that slot's score.
    /// A batch longer than the board is refused and the board kept.
    pub fn upsert(&mut self, batch: &Vec<Participant>) -> (r: Result<(), LeaderboardError>)
        ensures
            batch@.len() > old(self)@.len() ==> r == Err::<(), LeaderboardError>(
                LeaderboardError::TooManyEntries,
            ) && *final(self) == *old(self),
            batch@.len() <= old(self)@.len() ==> r is Ok && final(self)@ == upsert_all(
                old(self)@,
                batch@,
            ),
            final(self)@.len() == old(self)@.len(),
            old(self).wf() ==> final(self).wf(),
    {
        if batch.len() > self.entries.len() {
            return Err(LeaderboardError::TooManyEntries);
        }
        let ghost s0 = self@;
        let mut k: usize = 0;
        while k < batch.len()
            invariant
                0 <= k <= batch.len(),
                batch.len() <= s0.len(),
                self@ == upsert_all(s0, batch@.take(k as int)),
                self@.len() == s0.len(),
            decreases batch.len() - k,
        {
            let e = batch[k];
            proof {
                assert(batch@.take(k as int + 1).drop_last() =~= batch@.take(k as int));
                assert(batch@.take(k as int + 1).last() == e);
            }
            self.place(e);
            self.entries = sorted_copy(&self.entries);
            proof {
                lemma_upsert_one(upsert_all(s0, batch@.take(k as int)), e);
            }
            k = k + 1;
        }
        proof {
            assert(batch@.take(batch.len() as int) =~= batch@);
            lemma_upsert_all(s0, batch@);
        }
        Ok(())
    }

    /// Writes one row into the board without resorting it.
    fn place(&mut self, e: Participant)
        requires
            old(self)@.len() > 0,
        ensures
            final(self)@ == place_entry(old(self)@, e),
    {
        proof {
            lemma_find_key(self@, sentinel());
            lemma_find_key(self@, e.pubkey);
        }
        match position_of(&self.entries, &e.pubkey) {
            Some(i) => {
                self.entries.set(i, e);
            },
            None => {
                let zero = Pubkey::default();
                let slot = match position_of(&self.entries, &zero) {
                    Some(z) => z,
                    None => self.entries.len() - 1,
                };
                if e.score > self.entries[slot].score {
                    self.entries.set(slot, e);
                }
            },
        }
    }

    /// The first `k` rows, the top of the ranking.
    ///
    /// Refused with `InsufficientEntries` when the board has fewer than `k`
    /// rows, or, under `RequireParticipants`, fewer than `k` rows that are not
    /// empty slots.
    pub fn top(&self, k: usize, policy: WinnerPolicy) -> (r: Result<Vec<Participant>, LeaderboardError>)
        ensures
            top_refused(self@, k as int, policy) ==> r == Err::<Vec<Participant>, LeaderboardError>(
                LeaderboardError::InsufficientEntries,
            ),
            !top_refused(self@, k as int, policy) ==> (r matches Ok(w) && w@ == self@.take(k as int)),
    {
        if k > self.entries.len() {
            return Err(LeaderboardError::InsufficientEntries);
        }
        if policy == WinnerPolicy::RequireParticipants {
            let ranked = self.ranked_count();
            if ranked < k {
                return Err(LeaderboardError::InsufficientEntries);
            }
        }
        let mut w: Vec<Participant> = Vec::new();
        let mut i: usize = 0;
        while i < k
            invariant
                0 <= i <= k,
                k <= self@.len(),
                w@ == self@.take(i as int),
            decreases k - i,
        {
            w.push(self.entries[i]);
            i = i + 1;
            proof {
                assert(w@ =~= self@.take(i as int));
            }
        }
        Ok(w)
    }

    /// Number of rows that are not empty slots.
    pub fn ranked_count(&self) -> (r: usize)
        ensures
            r == count_ranked(self@),
    {
        let mut empty: usize = 0;
        let mut i: usize = 0;
        while i < self.entries.len()
            invariant
                0 <= i <= self@.len(),
                empty == count_key(self@.take(i as int), sentinel()),
                empty <= i,
            decreases self@.len() - i,
        {
            proof {
                assert(self@.take(i as int + 1).drop_last() =~= self@.take(i as int));
            }
            if self.entries[i].pubkey.is_sentinel() {
                empty = empty + 1;
            }
            i = i + 1;
        }
        proof {
            assert(self@.take(self@.len() as int) =~= self@);
        }
        self.entries.len() - empty
    }

    /// Empties every slot; the capacity is kept.
    pub fn reset(&mut self)
        ensures
            final(self)@ == empty_board(old(self)@.len()),
            final(self).wf(),
    {
        let n = self.entries.len();
        *self = ScoreBoard::new(n);
    }
}

/// A board of empty slots is sorted and has no duplicate key.
pub proof fn lemma_empty_board_wf(n: nat)
    ensures
        sorted_by_score(empty_board(n)),
        unique_keys(empty_board(n)),
{
    assert forall|k: Pubkey| k != sentinel() implies #[trigger] count_key(empty_board(n), k)
        <= 1 by {
        lemma_count_zero(empty_board(n), k);
    }
}

} // verus!
