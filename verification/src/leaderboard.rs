use crate::constants::LEADERBOARD_CAPACITY;
use crate::resources::{Leaderboard, LeaderboardEntry};
use vstd::prelude::*;

verus! {

/// Whether the entries are in rank order: best score first.
pub open spec fn is_sorted(board: Seq<LeaderboardEntry>) -> bool {
    forall|i: int, j: int|
        0 <= i < j < board.len() ==> (#[trigger] board[i]).score >= (#[trigger] board[j]).score
}

/// Whether no player has two entries.
pub open spec fn has_unique_users(board: Seq<LeaderboardEntry>) -> bool {
    forall|i: int, j: int|
        0 <= i < j < board.len() ==> (#[trigger] board[i]).user_id@ != (#[trigger] board[j]).user_id@
}

/// What every leaderboard keeps to: at most ten entries, best score first,
/// one entry for each player.
pub open spec fn is_ranked(board: Seq<LeaderboardEntry>) -> bool {
    &&& board.len() <= LEADERBOARD_CAPACITY
    &&& is_sorted(board)
    &&& has_unique_users(board)
}

/// Whether the player `user_id` has an entry.
pub open spec fn has_user(board: Seq<LeaderboardEntry>, user_id: Seq<char>) -> bool {
    exists|i: int| 0 <= i < board.len() && (#[trigger] board[i]).user_id@ == user_id
}

/// Where the entry of the player `user_id` stands, for a player who has one.
pub open spec fn index_of_user(board: Seq<LeaderboardEntry>, user_id: Seq<char>) -> int {
    choose|i: int| 0 <= i < board.len() && (#[trigger] board[i]).user_id@ == user_id
}

/// The number of entries that are at least as good as `score`. On a board
/// in rank order this is where a new entry with that score goes: behind
/// every entry that is as good, so that an earlier entry stays ahead of a
/// later one with the same score.
pub open spec fn slot(board: Seq<LeaderboardEntry>, score: u32) -> nat
    decreases board.len(),
{
    if board.len() == 0 {
        0
    } else if board.last().score >= score {
        slot(board.drop_last(), score) + 1
    } else {
        slot(board.drop_last(), score)
    }
}

/// The board with `entry` put at its slot, cut to the ten best.
pub open spec fn placed(board: Seq<LeaderboardEntry>, entry: LeaderboardEntry) -> Seq<
    LeaderboardEntry,
> {
    let grown = board.insert(slot(board, entry.score) as int, entry);
    if grown.len() > LEADERBOARD_CAPACITY {
        grown.take(LEADERBOARD_CAPACITY as int)
    } else {
        grown
    }
}

/// The board after one result has come in. A player who already stands on
/// the board with a score at least as good keeps their entry. Otherwise the
/// new entry takes the place of the old one, if there is one, and is ranked
/// among the others.
pub open spec fn spec_upsert(board: Seq<LeaderboardEntry>, entry: LeaderboardEntry) -> Seq<
    LeaderboardEntry,
> {
    if has_user(board, entry.user_id@) {
        let i = index_of_user(board, entry.user_id@);
        if board[i].score >= entry.score {
            board
        } else {
            placed(board.remove(i), entry)
        }
    } else {
        placed(board, entry)
    }
}

/// The board after the results of `incoming` have come in, one after the
/// other.
pub open spec fn spec_merge(board: Seq<LeaderboardEntry>, incoming: Seq<LeaderboardEntry>) -> Seq<
    LeaderboardEntry,
>
    decreases incoming.len(),
{
    if incoming.len() == 0 {
        board
    } else {
        spec_upsert(spec_merge(board, incoming.drop_last()), incoming.last())
    }
}

/// The leaderboard of a collection of results: for each player the best
/// score, best score first, the ten best only.
pub open spec fn spec_rank(entries: Seq<LeaderboardEntry>) -> Seq<LeaderboardEntry> {
    spec_merge(Seq::empty(), entries)
}

/// On a board in rank order the entries ahead of the slot are exactly those
/// that are at least as good as `score`.
pub proof fn lemma_slot(board: Seq<LeaderboardEntry>, score: u32)
    requires
        is_sorted(board),
    ensures
        slot(board, score) <= board.len(),
        forall|j: int| 0 <= j < slot(board, score) ==> (#[trigger] board[j]).score >= score,
        forall|j: int| slot(board, score) <= j < board.len() ==> (#[trigger] board[j]).score < score,
    decreases board.len(),
{
    if board.len() > 0 {
        let front = board.drop_last();
        assert forall|i: int, j: int| 0 <= i < j < front.len() implies (#[trigger] front[i]).score
            >= (#[trigger] front[j]).score by {
            assert(front[i] == board[i] && front[j] == board[j]);
        }
        lemma_slot(front, score);
        assert forall|j: int| 0 <= j < front.len() implies front[j] == board[j] by {}
        if board.last().score >= score {
            if slot(front, score) < front.len() {
                let k = slot(front, score) as int;
                assert(front[k].score < score);
                assert(board[k].score >= board[board.len() - 1].score);
            }
        }
    }
}

/// The first place at which the player `user_id` stands, or the length of
/// the list for a player who has no entry.
fn find_user(entries: &Vec<LeaderboardEntry>, user_id: &String) -> (i: usize)
    ensures
        i <= entries@.len(),
        forall|k: int| 0 <= k < i ==> (#[trigger] entries@[k]).user_id@ != user_id@,
        i < entries@.len() ==> entries@[i as int].user_id@ == user_id@,
{
    let mut i: usize = 0;
    while i < entries.len()
        invariant
            i <= entries@.len(),
            forall|k: int| 0 <= k < i ==> (#[trigger] entries@[k]).user_id@ != user_id@,
        decreases entries@.len() - i,
    {
        if entries[i].user_id == *user_id {
            return i;
        }
        i += 1;
    }
    i
}

/// The first place whose entry is worse than `score`, or the length of the
/// list if none is.
fn find_slot(entries: &Vec<LeaderboardEntry>, score: u32) -> (k: usize)
    requires
        is_sorted(entries@),
    ensures
        k == slot(entries@, score),
{
    let mut k: usize = 0;
    while k < entries.len() && entries[k].score >= score
        invariant
            k <= entries@.len(),
            forall|j: int| 0 <= j < k ==> (#[trigger] entries@[j]).score >= score,
        decreases entries@.len() - k,
    {
        k += 1;
    }
    proof {
        lemma_slot(entries@, score);
        let s = slot(entries@, score) as int;
        if k < s {
            assert(entries@[k as int].score >= score);
        }
        if s < k {
            assert(entries@[s].score >= score);
        }
    }
    k
}

/// The list that a board in rank order becomes when `entry` is put at its
/// slot, before the cut: it is in rank order, the entries ahead of the slot
/// keep their places and those behind move back by one.
proof fn lemma_grown(board: Seq<LeaderboardEntry>, entry: LeaderboardEntry)
    requires
        is_sorted(board),
    ensures
        ({
            let k = slot(board, entry.score) as int;
            let grown = board.insert(k, entry);
            &&& 0 <= k <= board.len()
            &&& grown.len() == board.len() + 1
            &&& grown[k] == entry
            &&& forall|i: int| 0 <= i < k ==> #[trigger] grown[i] == board[i]
            &&& forall|i: int| k < i < grown.len() ==> #[trigger] grown[i] == board[i - 1]
            &&& forall|i: int| 0 <= i < k ==> (#[trigger] board[i]).score >= entry.score
            &&& forall|i: int| k <= i < board.len() ==> (#[trigger] board[i]).score < entry.score
            &&& is_sorted(grown)
        }),
{
    lemma_slot(board, entry.score);
    let k = slot(board, entry.score) as int;
    let grown = board.insert(k, entry);
    assert forall|i: int, j: int| 0 <= i < j < grown.len() implies (#[trigger] grown[i]).score >= (
    #[trigger] grown[j]).score by {
        if i < k && j > k {
            assert(board[i].score >= board[j - 1].score);
        } else if i < k && j < k {
            assert(board[i].score >= board[j].score);
        } else if i > k {
            assert(board[i - 1].score >= board[j - 1].score);
        } else if i == k {
            assert(board[j - 1].score < entry.score);
        } else {
            assert(board[i].score >= entry.score);
        }
    }
}

/// Putting an entry at its slot keeps a board ranked, provided that the
/// player of the entry does not stand on the board yet.
pub proof fn lemma_placed_is_ranked(board: Seq<LeaderboardEntry>, entry: LeaderboardEntry)
    requires
        is_sorted(board),
        has_unique_users(board),
        !has_user(board, entry.user_id@),
    ensures
        is_ranked(placed(board, entry)),
{
    lemma_grown(board, entry);
    let k = slot(board, entry.score) as int;
    let grown = board.insert(k, entry);
    assert forall|i: int, j: int| 0 <= i < j < grown.len() implies (#[trigger] grown[i]).user_id@
        != (#[trigger] grown[j]).user_id@ by {
        let i0 = if i < k { i } else { i - 1 };
        let j0 = if j < k { j } else { j - 1 };
        if i == k {
            assert(board[j0].user_id@ != entry.user_id@);
        } else if j == k {
            assert(board[i0].user_id@ != entry.user_id@);
        } else {
            assert(board[i0].user_id@ != board[j0].user_id@);
        }
    }
    let result = placed(board, entry);
    assert forall|i: int| 0 <= i < result.len() implies (#[trigger] result[i]) == grown[i] by {}
}

/// Taking an entry off a board keeps it ranked, and the player of the entry
/// no longer stands on it.
pub proof fn lemma_remove_is_ranked(board: Seq<LeaderboardEntry>, i: int)
    requires
        is_sorted(board),
        has_unique_users(board),
        0 <= i < board.len(),
    ensures
        is_sorted(board.remove(i)),
        has_unique_users(board.remove(i)),
        !has_user(board.remove(i), board[i].user_id@),
        board.remove(i).len() == board.len() - 1,
{
    let rest = board.remove(i);
    assert forall|j: int| 0 <= j < rest.len() implies (#[trigger] rest[j]) == (if j < i {
        board[j]
    } else {
        board[j + 1]
    }) by {}
    assert forall|a: int, b: int| 0 <= a < b < rest.len() implies (#[trigger] rest[a]).score >= (
    #[trigger] rest[b]).score && rest[a].user_id@ != rest[b].user_id@ by {
        let a0 = if a < i { a } else { a + 1 };
        let b0 = if b < i { b } else { b + 1 };
        assert(board[a0].score >= board[b0].score);
        assert(board[a0].user_id@ != board[b0].user_id@);
    }
    assert forall|j: int| 0 <= j < rest.len() implies (#[trigger] rest[j]).user_id@
        != board[i].user_id@ by {
        let j0 = if j < i { j } else { j + 1 };
        if j0 < i {
            assert(board[j0].user_id@ != board[i].user_id@);
        } else {
            assert(board[i].user_id@ != board[j0].user_id@);
        }
    }
}

/// One result coming in keeps a ranked board ranked.
pub proof fn lemma_upsert_is_ranked(board: Seq<LeaderboardEntry>, entry: LeaderboardEntry)
    requires
        is_ranked(board),
    ensures
        is_ranked(spec_upsert(board, entry)),
{
    if has_user(board, entry.user_id@) {
        let i = index_of_user(board, entry.user_id@);
        if board[i].score < entry.score {
            lemma_remove_is_ranked(board, i);
            lemma_placed_is_ranked(board.remove(i), entry);
        }
    } else {
        lemma_placed_is_ranked(board, entry);
    }
}

/// Results coming in keep a ranked board ranked.
pub proof fn lemma_merge_is_ranked(board: Seq<LeaderboardEntry>, incoming: Seq<LeaderboardEntry>)
    requires
        is_ranked(board),
    ensures
        is_ranked(spec_merge(board, incoming)),
    decreases incoming.len(),
{
    if incoming.len() > 0 {
        lemma_merge_is_ranked(board, incoming.drop_last());
        lemma_upsert_is_ranked(spec_merge(board, incoming.drop_last()), incoming.last());
    }
}

/// Whether the board accounts for `entry`: either the player of the entry
/// stands on the board with a score at least as good, or the board is full
/// and even its last entry is at least as good.
pub open spec fn accounts_for(board: Seq<LeaderboardEntry>, entry: LeaderboardEntry) -> bool {
    ||| exists|i: int|
        0 <= i < board.len() && (#[trigger] board[i]).user_id@ == entry.user_id@ && board[i].score
            >= entry.score
    ||| board.len() == LEADERBOARD_CAPACITY && board[LEADERBOARD_CAPACITY - 1].score >= entry.score
}

/// A ranked board accounts for an entry that has just been put at its slot.
proof fn lemma_placed_accounts_for_entry(board: Seq<LeaderboardEntry>, entry: LeaderboardEntry)
    requires
        is_sorted(board),
        board.len() <= LEADERBOARD_CAPACITY,
    ensures
        accounts_for(placed(board, entry), entry),
{
    lemma_grown(board, entry);
    let k = slot(board, entry.score) as int;
    let grown = board.insert(k, entry);
    let after = placed(board, entry);
    if k < after.len() {
        assert(after[k] == entry);
    } else {
        assert(k == LEADERBOARD_CAPACITY);
        assert(after.len() == LEADERBOARD_CAPACITY);
        assert(after[LEADERBOARD_CAPACITY - 1] == board[LEADERBOARD_CAPACITY - 1]);
        assert(board[LEADERBOARD_CAPACITY - 1].score >= entry.score);
    }
}

/// Putting an entry at its slot keeps account of every entry that stood on
/// the board.
proof fn lemma_placed_accounts_for_old(
    board: Seq<LeaderboardEntry>,
    entry: LeaderboardEntry,
    j: int,
)
    requires
        is_sorted(board),
        board.len() <= LEADERBOARD_CAPACITY,
        0 <= j < board.len(),
    ensures
        accounts_for(placed(board, entry), board[j]),
{
    lemma_grown(board, entry);
    let k = slot(board, entry.score) as int;
    let grown = board.insert(k, entry);
    let after = placed(board, entry);
    let g = if j < k { j } else { j + 1 };
    assert(grown[g] == board[j]);
    if g < after.len() {
        assert(after[g] == board[j]);
    } else {
        assert(after.len() == LEADERBOARD_CAPACITY);
        assert(after[LEADERBOARD_CAPACITY - 1] == grown[LEADERBOARD_CAPACITY - 1]);
        assert(grown[LEADERBOARD_CAPACITY - 1].score >= grown[g].score);
    }
}

/// The last entry of a full board after an entry has been put at its slot is
/// the entry itself or one that stood on the board.
proof fn lemma_placed_last(board: Seq<LeaderboardEntry>, entry: LeaderboardEntry)
    requires
        is_sorted(board),
        LEADERBOARD_CAPACITY - 1 <= board.len() <= LEADERBOARD_CAPACITY,
    ensures
        placed(board, entry).len() == LEADERBOARD_CAPACITY,
        ({
            let last = placed(board, entry)[LEADERBOARD_CAPACITY - 1];
            ||| last == entry && (board.len() == LEADERBOARD_CAPACITY ==> entry.score
                > board[LEADERBOARD_CAPACITY - 1].score)
            ||| exists|j: int| 0 <= j < board.len() && last == #[trigger] board[j]
        }),
{
    lemma_grown(board, entry);
    let k = slot(board, entry.score) as int;
    let grown = board.insert(k, entry);
    let after = placed(board, entry);
    let last = LEADERBOARD_CAPACITY - 1;
    assert(after[last] == grown[last]);
    if last < k {
        assert(grown[last] == board[last]);
    } else if last > k {
        assert(grown[last] == board[last - 1]);
    } else {
        if board.len() == LEADERBOARD_CAPACITY {
            assert(board[k].score < entry.score);
        }
    }
}

/// One result coming in changes nothing on a ranked board that accounts for
/// it already.
pub proof fn lemma_upsert_of_accounted(board: Seq<LeaderboardEntry>, entry: LeaderboardEntry)
    requires
        is_ranked(board),
        accounts_for(board, entry),
    ensures
        spec_upsert(board, entry) == board,
{
    if has_user(board, entry.user_id@) {
        let i = index_of_user(board, entry.user_id@);
        if exists|w: int|
            0 <= w < board.len() && (#[trigger] board[w]).user_id@ == entry.user_id@
                && board[w].score >= entry.score {
            let w = choose|w: int|
                0 <= w < board.len() && (#[trigger] board[w]).user_id@ == entry.user_id@
                    && board[w].score >= entry.score;
            if w < i {
                assert(board[w].user_id@ != board[i].user_id@);
            }
            if i < w {
                assert(board[i].user_id@ != board[w].user_id@);
            }
        } else {
            let last = LEADERBOARD_CAPACITY - 1;
            if i < last {
                assert(board[i].score >= board[last].score);
            }
        }
    } else {
        lemma_grown(board, entry);
        let k = slot(board, entry.score) as int;
        let last = LEADERBOARD_CAPACITY - 1;
        assert(board.len() == LEADERBOARD_CAPACITY);
        if k <= last {
            assert(board[last].score < entry.score);
        }
        assert(placed(board, entry) =~= board);
    }
}

/// A ranked board accounts for a result that has just come in.
pub proof fn lemma_upsert_accounts_for_entry(board: Seq<LeaderboardEntry>, entry: LeaderboardEntry)
    requires
        is_ranked(board),
    ensures
        accounts_for(spec_upsert(board, entry), entry),
{
    if has_user(board, entry.user_id@) {
        let i = index_of_user(board, entry.user_id@);
        if board[i].score < entry.score {
            lemma_remove_is_ranked(board, i);
            lemma_placed_accounts_for_entry(board.remove(i), entry);
        }
    } else {
        lemma_placed_accounts_for_entry(board, entry);
    }
}

/// A result coming in never loses account of another: what a ranked board
/// accounted for before, it accounts for afterwards.
pub proof fn lemma_upsert_keeps_account(
    board: Seq<LeaderboardEntry>,
    entry: LeaderboardEntry,
    other: LeaderboardEntry,
)
    requires
        is_ranked(board),
        accounts_for(board, other),
    ensures
        accounts_for(spec_upsert(board, entry), other),
{
    let after = spec_upsert(board, entry);
    let last = LEADERBOARD_CAPACITY - 1;
    let replaces = has_user(board, entry.user_id@) && board[index_of_user(
        board,
        entry.user_id@,
    )].score < entry.score;
    let changes = replaces || !has_user(board, entry.user_id@);
    if changes {
        let i = index_of_user(board, entry.user_id@);
        let base = if replaces {
            board.remove(i)
        } else {
            board
        };
        if replaces {
            lemma_remove_is_ranked(board, i);
            assert forall|j: int| 0 <= j < base.len() implies (#[trigger] base[j]) == (if j < i {
                board[j]
            } else {
                board[j + 1]
            }) by {}
        }
        assert(after == placed(base, entry));
        if exists|w: int|
            0 <= w < board.len() && (#[trigger] board[w]).user_id@ == other.user_id@
                && board[w].score >= other.score {
            let w = choose|w: int|
                0 <= w < board.len() && (#[trigger] board[w]).user_id@ == other.user_id@
                    && board[w].score >= other.score;
            if replaces && w == i {
                lemma_placed_accounts_for_entry(base, entry);
                if exists|a: int|
                    0 <= a < after.len() && (#[trigger] after[a]).user_id@ == entry.user_id@
                        && after[a].score >= entry.score {
                    let a = choose|a: int|
                        0 <= a < after.len() && (#[trigger] after[a]).user_id@ == entry.user_id@
                            && after[a].score >= entry.score;
                    assert(after[a].user_id@ == other.user_id@ && after[a].score >= other.score);
                }
            } else {
                let b = if replaces && w > i {
                    w - 1
                } else {
                    w
                };
                assert(base[b] == board[w]);
                lemma_placed_accounts_for_old(base, entry, b);
                if exists|a: int|
                    0 <= a < after.len() && (#[trigger] after[a]).user_id@ == board[w].user_id@
                        && after[a].score >= board[w].score {
                    let a = choose|a: int|
                        0 <= a < after.len() && (#[trigger] after[a]).user_id@ == board[w].user_id@
                            && after[a].score >= board[w].score;
                    assert(after[a].user_id@ == other.user_id@ && after[a].score >= other.score);
                }
            }
        } else {
            assert(board.len() == LEADERBOARD_CAPACITY);
            assert(board[last].score >= other.score);
            lemma_placed_last(base, entry);
            let tail = after[last];
            if tail == entry {
                if replaces {
                    if i < last {
                        assert(board[i].score >= board[last].score);
                    }
                }
            } else {
                let j = choose|j: int| 0 <= j < base.len() && tail == #[trigger] base[j];
                let j0 = if replaces && j >= i {
                    j + 1
                } else {
                    j
                };
                assert(base[j] == board[j0]);
                if j0 < last {
                    assert(board[j0].score >= board[last].score);
                }
            }
        }
    }
}

/// After results have come in, the board accounts for each of them.
pub proof fn lemma_merge_accounts_for_incoming(
    board: Seq<LeaderboardEntry>,
    incoming: Seq<LeaderboardEntry>,
    k: int,
)
    requires
        is_ranked(board),
        0 <= k < incoming.len(),
    ensures
        accounts_for(spec_merge(board, incoming), incoming[k]),
    decreases incoming.len(),
{
    let front = incoming.drop_last();
    lemma_merge_is_ranked(board, front);
    if k == incoming.len() - 1 {
        lemma_upsert_accounts_for_entry(spec_merge(board, front), incoming.last());
    } else {
        lemma_merge_accounts_for_incoming(board, front, k);
        assert(front[k] == incoming[k]);
        lemma_upsert_keeps_account(spec_merge(board, front), incoming.last(), incoming[k]);
    }
}

/// After results have come in, the board still accounts for what it
/// accounted for before.
pub proof fn lemma_merge_keeps_account(
    board: Seq<LeaderboardEntry>,
    incoming: Seq<LeaderboardEntry>,
    other: LeaderboardEntry,
)
    requires
        is_ranked(board),
        accounts_for(board, other),
    ensures
        accounts_for(spec_merge(board, incoming), other),
    decreases incoming.len(),
{
    if incoming.len() > 0 {
        let front = incoming.drop_last();
        lemma_merge_is_ranked(board, front);
        lemma_merge_keeps_account(board, front, other);
        lemma_upsert_keeps_account(spec_merge(board, front), incoming.last(), other);
    }
}

/// Results that a ranked board accounts for already change nothing when
/// they come in.
pub proof fn lemma_merge_of_accounted(
    board: Seq<LeaderboardEntry>,
    incoming: Seq<LeaderboardEntry>,
)
    requires
        is_ranked(board),
        forall|k: int| 0 <= k < incoming.len() ==> accounts_for(board, #[trigger] incoming[k]),
    ensures
        spec_merge(board, incoming) == board,
    decreases incoming.len(),
{
    if incoming.len() > 0 {
        let front = incoming.drop_last();
        assert forall|k: int| 0 <= k < front.len() implies accounts_for(
            board,
            #[trigger] front[k],
        ) by {
            assert(front[k] == incoming[k]);
        }
        lemma_merge_of_accounted(board, front);
        lemma_upsert_of_accounted(board, incoming.last());
    }
}

/// Merging is idempotent: letting the same results come in a second time
/// leaves the board exactly as the first time left it.
pub proof fn lemma_merge_idempotent(board: Seq<LeaderboardEntry>, incoming: Seq<LeaderboardEntry>)
    requires
        is_ranked(board),
    ensures
        is_ranked(spec_merge(board, incoming)),
        spec_merge(spec_merge(board, incoming), incoming) == spec_merge(board, incoming),
{
    let once = spec_merge(board, incoming);
    lemma_merge_is_ranked(board, incoming);
    assert forall|k: int| 0 <= k < incoming.len() implies accounts_for(
        once,
        #[trigger] incoming[k],
    ) by {
        lemma_merge_accounts_for_incoming(board, incoming, k);
    }
    lemma_merge_of_accounted(once, incoming);
}

/// Merging a ranked board into itself leaves it exactly as it was, and
/// ranking the entries of a ranked board gives that board back.
pub proof fn lemma_merge_self(board: Seq<LeaderboardEntry>)
    requires
        is_ranked(board),
    ensures
        spec_merge(board, board) == board,
        spec_rank(board) == board,
{
    assert forall|k: int| 0 <= k < board.len() implies accounts_for(board, #[trigger] board[k]) by {}
    lemma_merge_of_accounted(board, board);
    lemma_rank_of_ranked(board);
}

/// Ranking the entries of a board that is ranked already gives that board
/// back: in rank order every entry goes to the end of what came before it.
proof fn lemma_rank_of_ranked(board: Seq<LeaderboardEntry>)
    requires
        is_ranked(board),
    ensures
        spec_rank(board) == board,
    decreases board.len(),
{
    if board.len() > 0 {
        let front = board.drop_last();
        let entry = board.last();
        assert forall|j: int| 0 <= j < front.len() implies #[trigger] front[j] == board[j] by {}
        assert(is_ranked(front)) by {
            assert forall|i: int, j: int| 0 <= i < j < front.len() implies (#[trigger] front[i]).score
                >= (#[trigger] front[j]).score && front[i].user_id@ != front[j].user_id@ by {
                assert(board[i].score >= board[j].score);
                assert(board[i].user_id@ != board[j].user_id@);
            }
        }
        lemma_rank_of_ranked(front);
        assert(!has_user(front, entry.user_id@)) by {
            assert forall|j: int| 0 <= j < front.len() implies (#[trigger] front[j]).user_id@
                != entry.user_id@ by {
                assert(board[j].user_id@ != board[board.len() - 1].user_id@);
            }
        }
        lemma_grown(front, entry);
        let k = slot(front, entry.score) as int;
        if k < front.len() {
            assert(front[k].score < entry.score);
            assert(board[k].score >= board[board.len() - 1].score);
        }
        assert(placed(front, entry) =~= board);
    }
}

/// Ranking is idempotent: ranking what ranking gave changes nothing.
pub proof fn lemma_rank_idempotent(entries: Seq<LeaderboardEntry>)
    ensures
        is_ranked(spec_rank(entries)),
        spec_rank(spec_rank(entries)) == spec_rank(entries),
{
    lemma_merge_is_ranked(Seq::empty(), entries);
    lemma_merge_self(spec_rank(entries));
}

/// Every entry of a board after one result has come in is that result or
/// stood on the board before.
pub proof fn lemma_upsert_entries_come_from(
    board: Seq<LeaderboardEntry>,
    entry: LeaderboardEntry,
    k: int,
)
    requires
        is_ranked(board),
        0 <= k < spec_upsert(board, entry).len(),
    ensures
        spec_upsert(board, entry)[k] == entry || board.contains(spec_upsert(board, entry)[k]),
{
    let after = spec_upsert(board, entry);
    if after != board {
        let i = index_of_user(board, entry.user_id@);
        let replaces = has_user(board, entry.user_id@);
        let base = if replaces {
            board.remove(i)
        } else {
            board
        };
        if replaces {
            lemma_remove_is_ranked(board, i);
            assert forall|j: int| 0 <= j < base.len() implies (#[trigger] base[j]) == (if j < i {
                board[j]
            } else {
                board[j + 1]
            }) by {}
        }
        lemma_grown(base, entry);
        let s = slot(base, entry.score) as int;
        let grown = base.insert(s, entry);
        assert(after[k] == grown[k]);
        if k < s {
            assert(grown[k] == base[k]);
            let k0 = if replaces && k >= i { k + 1 } else { k };
            assert(board[k0] == after[k]);
        } else if k > s {
            assert(grown[k] == base[k - 1]);
            let k0 = if replaces && k - 1 >= i { k } else { k - 1 };
            assert(board[k0] == after[k]);
        }
    } else {
        assert(board[k] == after[k]);
    }
}

/// Every entry of a board after results have come in is one of those
/// results or stood on the board before.
pub proof fn lemma_merge_entries_come_from(
    board: Seq<LeaderboardEntry>,
    incoming: Seq<LeaderboardEntry>,
    k: int,
)
    requires
        is_ranked(board),
        0 <= k < spec_merge(board, incoming).len(),
    ensures
        board.contains(spec_merge(board, incoming)[k]) || incoming.contains(
            spec_merge(board, incoming)[k],
        ),
    decreases incoming.len(),
{
    if incoming.len() > 0 {
        let front = incoming.drop_last();
        let before = spec_merge(board, front);
        let item = spec_merge(board, incoming)[k];
        lemma_merge_is_ranked(board, front);
        lemma_upsert_entries_come_from(before, incoming.last(), k);
        if item == incoming.last() {
            assert(incoming[incoming.len() - 1] == item);
        } else {
            let j = choose|j: int| 0 <= j < before.len() && before[j] == item;
            lemma_merge_entries_come_from(board, front, j);
            if front.contains(item) {
                let f = choose|f: int| 0 <= f < front.len() && front[f] == item;
                assert(incoming[f] == item);
            }
        }
    } else {
        assert(board[k] == spec_merge(board, incoming)[k]);
    }
}

/// The players who have an entry among `entries`.
pub open spec fn players(entries: Seq<LeaderboardEntry>) -> Set<Seq<char>> {
    Set::new(|user_id: Seq<char>| has_user(entries, user_id))
}

/// One more entry adds its player to the players, and there are finitely
/// many of them.
pub proof fn lemma_players_push(entries: Seq<LeaderboardEntry>, entry: LeaderboardEntry)
    ensures
        players(entries.push(entry)) == players(entries).insert(entry.user_id@),
        players(entries).finite(),
    decreases entries.len(),
{
    let more = entries.push(entry);
    assert forall|user_id: Seq<char>| #[trigger]
        players(more).contains(user_id) == players(entries).insert(entry.user_id@).contains(
            user_id,
        ) by {
        if has_user(entries, user_id) {
            let i = choose|i: int| 0 <= i < entries.len() && (#[trigger] entries[i]).user_id@ == user_id;
            assert(more[i].user_id@ == user_id);
        }
        if user_id == entry.user_id@ {
            assert(more[entries.len() as int].user_id@ == user_id);
        }
        if has_user(more, user_id) {
            let i = choose|i: int| 0 <= i < more.len() && (#[trigger] more[i]).user_id@ == user_id;
            if i < entries.len() {
                assert(entries[i].user_id@ == user_id);
            }
        }
    }
    assert(players(more) =~= players(entries).insert(entry.user_id@));
    if entries.len() == 0 {
        assert(players(entries) =~= Set::<Seq<char>>::empty());
    } else {
        lemma_players_push(entries.drop_last(), entries.last());
        assert(entries.drop_last().push(entries.last()) =~= entries);
    }
}

/// A board on which no player has two entries has as many players as
/// entries.
pub proof fn lemma_players_of_unique(board: Seq<LeaderboardEntry>)
    requires
        has_unique_users(board),
    ensures
        players(board).finite(),
        players(board).len() == board.len(),
    decreases board.len(),
{
    if board.len() == 0 {
        assert(players(board) =~= Set::<Seq<char>>::empty());
    } else {
        let front = board.drop_last();
        assert(board =~= front.push(board.last()));
        assert forall|j: int| 0 <= j < front.len() implies #[trigger] front[j] == board[j] by {}
        assert(has_unique_users(front)) by {
            assert forall|i: int, j: int| 0 <= i < j < front.len() implies (#[trigger] front[i]).user_id@
                != (#[trigger] front[j]).user_id@ by {
                assert(board[i].user_id@ != board[j].user_id@);
            }
        }
        lemma_players_of_unique(front);
        lemma_players_push(front, board.last());
        assert(!players(front).contains(board.last().user_id@)) by {
            if has_user(front, board.last().user_id@) {
                let i = choose|i: int|
                    0 <= i < front.len() && (#[trigger] front[i]).user_id@ == board.last().user_id@;
                assert(board[i].user_id@ != board[board.len() - 1].user_id@);
            }
        }
    }
}

/// How long a ranked board is after one result has come in: as long as
/// before if the player stood on it, and otherwise one entry longer, up to
/// the ten that a board holds.
pub proof fn lemma_upsert_len(board: Seq<LeaderboardEntry>, entry: LeaderboardEntry)
    requires
        is_ranked(board),
    ensures
        spec_upsert(board, entry).len() == if has_user(board, entry.user_id@) {
            board.len()
        } else if board.len() < LEADERBOARD_CAPACITY {
            board.len() + 1
        } else {
            LEADERBOARD_CAPACITY as nat
        },
{
    if has_user(board, entry.user_id@) {
        let i = index_of_user(board, entry.user_id@);
        if board[i].score < entry.score {
            lemma_remove_is_ranked(board, i);
            lemma_grown(board.remove(i), entry);
        }
    } else {
        lemma_grown(board, entry);
    }
}

/// Whether a board stands for the players `all` as far as it has room:
/// every player on the board is one of them, and each of them stands on
/// the board unless the board is full.
pub open spec fn stands_for(board: Seq<LeaderboardEntry>, all: Set<Seq<char>>) -> bool {
    &&& forall|i: int| 0 <= i < board.len() ==> all.contains((#[trigger] board[i]).user_id@)
    &&& forall|user_id: Seq<char>| #[trigger]
        all.contains(user_id) ==> has_user(board, user_id) || board.len() == LEADERBOARD_CAPACITY
}

/// One result coming in keeps a ranked board standing for its players,
/// with the player of the result among them.
pub proof fn lemma_upsert_stands_for(
    board: Seq<LeaderboardEntry>,
    entry: LeaderboardEntry,
    all: Set<Seq<char>>,
)
    requires
        is_ranked(board),
        stands_for(board, all),
    ensures
        stands_for(spec_upsert(board, entry), all.insert(entry.user_id@)),
{
    let after = spec_upsert(board, entry);
    let more = all.insert(entry.user_id@);
    lemma_upsert_len(board, entry);
    assert forall|i: int| 0 <= i < after.len() implies more.contains((#[trigger] after[i]).user_id@) by {
        lemma_upsert_entries_come_from(board, entry, i);
        if after[i] != entry {
            let j = choose|j: int| 0 <= j < board.len() && board[j] == after[i];
            assert(all.contains(board[j].user_id@));
        }
    }
    assert forall|user_id: Seq<char>| #[trigger] more.contains(user_id) implies has_user(
        after,
        user_id,
    ) || after.len() == LEADERBOARD_CAPACITY by {
        if user_id == entry.user_id@ {
            lemma_upsert_accounts_for_entry(board, entry);
            if exists|a: int|
                0 <= a < after.len() && (#[trigger] after[a]).user_id@ == entry.user_id@
                    && after[a].score >= entry.score {
                let a = choose|a: int|
                    0 <= a < after.len() && (#[trigger] after[a]).user_id@ == entry.user_id@
                        && after[a].score >= entry.score;
                assert(after[a].user_id@ == user_id);
            }
        } else if has_user(board, user_id) {
            let i = choose|i: int| 0 <= i < board.len() && (#[trigger] board[i]).user_id@ == user_id;
            assert(accounts_for(board, board[i]));
            lemma_upsert_keeps_account(board, entry, board[i]);
            if exists|a: int|
                0 <= a < after.len() && (#[trigger] after[a]).user_id@ == board[i].user_id@
                    && after[a].score >= board[i].score {
                let a = choose|a: int|
                    0 <= a < after.len() && (#[trigger] after[a]).user_id@ == board[i].user_id@
                        && after[a].score >= board[i].score;
                assert(after[a].user_id@ == user_id);
            }
        } else {
            assert(all.contains(user_id));
            assert(board.len() == LEADERBOARD_CAPACITY);
        }
    }
}

/// How long a board is after results have come in: it holds one entry for
/// each player who stood on it or has a result among those that came in, up
/// to the ten that a board holds. It stands for those players as far as it
/// has room.
pub proof fn lemma_merge_len(board: Seq<LeaderboardEntry>, incoming: Seq<LeaderboardEntry>)
    requires
        is_ranked(board),
    ensures
        players(board + incoming).finite(),
        spec_merge(board, incoming).len() == if players(board + incoming).len()
            < LEADERBOARD_CAPACITY {
            players(board + incoming).len()
        } else {
            LEADERBOARD_CAPACITY as nat
        },
        stands_for(spec_merge(board, incoming), players(board + incoming)),
    decreases incoming.len(),
{
    if incoming.len() == 0 {
        assert(board + incoming =~= board);
        lemma_players_of_unique(board);
        assert forall|i: int| 0 <= i < board.len() implies players(board).contains(
            (#[trigger] board[i]).user_id@,
        ) by {}
    } else {
        let front = incoming.drop_last();
        let entry = incoming.last();
        let before = spec_merge(board, front);
        let all = players(board + front);
        assert((board + front).push(entry) =~= board + incoming);
        lemma_merge_len(board, front);
        lemma_merge_is_ranked(board, front);
        lemma_players_push(board + front, entry);
        lemma_upsert_len(before, entry);
        lemma_upsert_stands_for(before, entry, all);
        if has_user(before, entry.user_id@) {
            let i = choose|i: int|
                0 <= i < before.len() && (#[trigger] before[i]).user_id@ == entry.user_id@;
            assert(all.contains(before[i].user_id@));
            assert(all.insert(entry.user_id@) =~= all);
        } else if all.contains(entry.user_id@) {
            assert(all.insert(entry.user_id@) =~= all);
        }
    }
}

/// How long the leaderboard of a collection of results is: the number of
/// players with a result among them, or ten if there are more.
pub proof fn lemma_rank_len(entries: Seq<LeaderboardEntry>)
    ensures
        players(entries).finite(),
        spec_rank(entries).len() == if players(entries).len() < LEADERBOARD_CAPACITY {
            players(entries).len()
        } else {
            LEADERBOARD_CAPACITY as nat
        },
        stands_for(spec_rank(entries), players(entries)),
{
    assert(Seq::<LeaderboardEntry>::empty() + entries =~= entries);
    lemma_merge_len(Seq::empty(), entries);
}

/// Whether no two entries share a score, on a board in rank order: each
/// entry is strictly better than those behind it.
pub open spec fn is_strictly_sorted(board: Seq<LeaderboardEntry>) -> bool {
    forall|i: int, j: int|
        0 <= i < j < board.len() ==> (#[trigger] board[i]).score > (#[trigger] board[j]).score
}

/// Places that rise strictly and stay below the number of places are the
/// places themselves.
proof fn lemma_rising_places(places: Seq<int>, k: int)
    requires
        forall|i: int| 0 <= i < places.len() ==> 0 <= #[trigger] places[i] < places.len(),
        forall|i: int, j: int|
            0 <= i < j < places.len() ==> #[trigger] places[i] < #[trigger] places[j],
        0 <= k < places.len(),
    ensures
        places[k] == k,
{
    lemma_rising_places_low(places, k);
    lemma_rising_places_high(places, k);
}

proof fn lemma_rising_places_low(places: Seq<int>, k: int)
    requires
        forall|i: int| 0 <= i < places.len() ==> 0 <= #[trigger] places[i] < places.len(),
        forall|i: int, j: int|
            0 <= i < j < places.len() ==> #[trigger] places[i] < #[trigger] places[j],
        0 <= k < places.len(),
    ensures
        places[k] >= k,
    decreases k,
{
    if k > 0 {
        lemma_rising_places_low(places, k - 1);
        assert(places[k - 1] < places[k]);
    }
}

proof fn lemma_rising_places_high(places: Seq<int>, k: int)
    requires
        forall|i: int| 0 <= i < places.len() ==> 0 <= #[trigger] places[i] < places.len(),
        forall|i: int, j: int|
            0 <= i < j < places.len() ==> #[trigger] places[i] < #[trigger] places[j],
        0 <= k < places.len(),
    ensures
        places[k] <= k,
    decreases places.len() - k,
{
    if k < places.len() - 1 {
        lemma_rising_places_high(places, k + 1);
        assert(places[k] < places[k + 1]);
    }
}

/// The order in which results arrive does not matter where no two share a
/// score: ranking the entries of such a ranked board, handed over in any
/// order and any number of times, gives that board back.
pub proof fn lemma_rank_of_any_order(board: Seq<LeaderboardEntry>, entries: Seq<LeaderboardEntry>)
    requires
        is_ranked(board),
        is_strictly_sorted(board),
        forall|entry: LeaderboardEntry| entries.contains(entry) <==> board.contains(entry),
    ensures
        spec_rank(entries) == board,
{
    let ranked = spec_rank(entries);
    lemma_merge_is_ranked(Seq::empty(), entries);
    lemma_rank_len(entries);
    lemma_players_of_unique(board);
    assert(players(entries) =~= players(board)) by {
        assert forall|user_id: Seq<char>| #[trigger]
            players(entries).contains(user_id) == players(board).contains(user_id) by {
            if has_user(entries, user_id) {
                let i = choose|i: int|
                    0 <= i < entries.len() && (#[trigger] entries[i]).user_id@ == user_id;
                assert(entries.contains(entries[i]));
                let j = choose|j: int| 0 <= j < board.len() && board[j] == entries[i];
                assert(board[j].user_id@ == user_id);
            }
            if has_user(board, user_id) {
                let j = choose|j: int| 0 <= j < board.len() && (#[trigger] board[j]).user_id@ == user_id;
                assert(board.contains(board[j]));
                let i = choose|i: int| 0 <= i < entries.len() && entries[i] == board[j];
                assert(entries[i].user_id@ == user_id);
            }
        }
    }
    assert(ranked.len() == board.len());
    let place = |k: int| choose|j: int| 0 <= j < board.len() && board[j] == ranked[k];
    let places = Seq::new(ranked.len(), place);
    assert forall|k: int| 0 <= k < ranked.len() implies 0 <= place(k) < board.len() && board[place(
        k,
    )] == ranked[k] by {
        lemma_merge_entries_come_from(Seq::empty(), entries, k);
        assert(entries.contains(ranked[k]));
        assert(board.contains(ranked[k]));
    }
    assert forall|i: int, j: int| 0 <= i < j < places.len() implies #[trigger] places[i]
        < #[trigger] places[j] by {
        assert(board[place(i)] == ranked[i] && board[place(j)] == ranked[j]);
        assert(ranked[i].score >= ranked[j].score);
        assert(ranked[i].user_id@ != ranked[j].user_id@);
        if place(i) > place(j) {
            assert(board[place(j)].score > board[place(i)].score);
        }
    }
    assert forall|k: int| 0 <= k < ranked.len() implies ranked[k] == board[k] by {
        assert(places[k] == place(k));
        lemma_rising_places(places, k);
    }
    assert(ranked =~= board);
}

impl Leaderboard {
    /// What every leaderboard keeps to; see [`is_ranked`].
    pub open spec fn wf(&self) -> bool {
        is_ranked(self@)
    }

    /// Decides `wf` at run time.
    pub fn is_valid(&self) -> (valid: bool)
        ensures
            valid == self.wf(),
    {
        if self.entries.len() > LEADERBOARD_CAPACITY {
            return false;
        }
        let mut j: usize = 0;
        while j < self.entries.len()
            invariant
                j <= self.entries@.len(),
                forall|a: int, b: int|
                    0 <= a < b < j ==> (#[trigger] self@[a]).score >= (#[trigger] self@[b]).score,
                forall|a: int, b: int|
                    0 <= a < b < j ==> (#[trigger] self@[a]).user_id@ != (
                    #[trigger] self@[b]).user_id@,
            decreases self.entries@.len() - j,
        {
            let mut i: usize = 0;
            while i < j
                invariant
                    i <= j < self.entries@.len(),
                    forall|a: int| 0 <= a < i ==> (#[trigger] self@[a]).score >= self@[j as int].score,
                    forall|a: int|
                        0 <= a < i ==> (#[trigger] self@[a]).user_id@ != self@[j as int].user_id@,
                decreases j - i,
            {
                if self.entries[i].score < self.entries[j].score || self.entries[i].user_id
                    == self.entries[j].user_id {
                    return false;
                }
                i += 1;
            }
            j += 1;
        }
        true
    }

    /// Lets one result come in; see [`spec_upsert`].
    pub fn upsert(&mut self, entry: LeaderboardEntry)
        requires
            old(self).wf(),
        ensures
            final(self)@ == spec_upsert(old(self)@, entry),
            final(self).wf(),
    {
        proof {
            lemma_upsert_is_ranked(self@, entry);
        }
        let i = find_user(&self.entries, &entry.user_id);
        if i < self.entries.len() {
            assert(has_user(self@, entry.user_id@));
            assert(index_of_user(self@, entry.user_id@) == i) by {
                let c = index_of_user(self@, entry.user_id@);
                if c < i {
                    assert(self@[c].user_id@ != self@[i as int].user_id@);
                }
                if i < c {
                    assert(self@[i as int].user_id@ != self@[c].user_id@);
                }
            }
            if self.entries[i].score >= entry.score {
                return ;
            }
            proof {
                lemma_remove_is_ranked(self@, i as int);
            }
            self.entries.remove(i);
        } else {
            assert(!has_user(self@, entry.user_id@));
        }
        let k = find_slot(&self.entries, entry.score);
        proof {
            lemma_slot(self@, entry.score);
        }
        self.entries.insert(k, entry);
        if self.entries.len() > LEADERBOARD_CAPACITY {
            self.entries.truncate(LEADERBOARD_CAPACITY);
        }
    }

    /// Lets the results of `incoming` come in, one after the other, the
    /// first of the list first; see [`spec_merge`].
    pub fn merge(&mut self, incoming: Vec<LeaderboardEntry>)
        requires
            old(self).wf(),
        ensures
            final(self)@ == spec_merge(old(self)@, incoming@),
            final(self).wf(),
    {
        let mut n: usize = 0;
        assert(incoming@.take(0) =~= Seq::<LeaderboardEntry>::empty());
        while n < incoming.len()
            invariant
                n <= incoming@.len(),
                self@ == spec_merge(old(self)@, incoming@.take(n as int)),
                self.wf(),
            decreases incoming@.len() - n,
        {
            let entry = incoming[n].clone();
            proof {
                let next = incoming@.take(n + 1);
                assert(next.drop_last() =~= incoming@.take(n as int));
                assert(next.last() == incoming@[n as int]);
            }
            self.upsert(entry);
            n += 1;
        }
        assert(incoming@.take(incoming@.len() as int) =~= incoming@);
    }

    /// The leaderboard of a collection of results; see [`spec_rank`].
    pub fn rank(entries: Vec<LeaderboardEntry>) -> (board: Leaderboard)
        ensures
            board@ == spec_rank(entries@),
            board.wf(),
    {
        let mut board = Leaderboard { entries: Vec::new() };
        board.merge(entries);
        board
    }
}

} // verus!
