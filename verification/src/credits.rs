//! Vote credits earned in the current epoch, and our rank among the validators.
use vstd::prelude::*;

verus! {

/// A vote account, as far as the ranking reads it.
#[derive(Debug)]
pub struct VoteAccountCredits {
    pub vote_pubkey: String,
    /// (epoch, credits, previous credits), oldest first.
    pub epoch_credits: Vec<(u64, u64, u64)>,
}

/// The credits earned in the latest epoch listed, or 0 where none is.
pub open spec fn earned_credits(epoch_credits: Seq<(u64, u64, u64)>) -> u64 {
    if epoch_credits.len() == 0 {
        0
    } else {
        let last = epoch_credits.last();
        if last.1 >= last.2 { (last.1 - last.2) as u64 } else { 0 }
    }
}

/// The credits of each account, in order.
pub open spec fn credits_of(accounts: Seq<VoteAccountCredits>) -> Seq<u64> {
    accounts.map_values(|a: VoteAccountCredits| earned_credits(a.epoch_credits@))
}

/// Whether account `j` comes before account `i` in the ranking: more credits,
/// or as many and listed earlier (the order of a stable sort by credits,
/// highest first).
pub open spec fn ranks_before(credits: Seq<u64>, j: int, i: int) -> bool {
    credits[j] > credits[i] || (credits[j] == credits[i] && j < i)
}

/// How many of the first `n` accounts come before account `i`.
pub open spec fn count_before(credits: Seq<u64>, i: int, n: int) -> nat
    decreases n,
{
    if n <= 0 {
        0
    } else {
        count_before(credits, i, n - 1) + if ranks_before(credits, n - 1, i) { 1nat } else { 0 }
    }
}

/// Whether account `i` is ours.
pub open spec fn is_ours(accounts: Seq<VoteAccountCredits>, ours: Seq<char>, i: int) -> bool {
    0 <= i < accounts.len() && accounts[i].vote_pubkey@ == ours
}

/// Whether account `m` is the first of ours in the ranking.
pub open spec fn first_ours(accounts: Seq<VoteAccountCredits>, ours: Seq<char>, m: int) -> bool {
    &&& is_ours(accounts, ours, m)
    &&& forall|k: int| is_ours(accounts, ours, k) ==> !ranks_before(credits_of(accounts), k, m)
}

/// Our rank (1 for the most credits) and our credits, or (0, 0) where our
/// vote account is not listed.
pub open spec fn rank_spec(accounts: Seq<VoteAccountCredits>, ours: Seq<char>) -> (u32, u64) {
    if exists|k: int| is_ours(accounts, ours, k) {
        let m = choose|m: int| first_ours(accounts, ours, m);
        ((count_before(credits_of(accounts), m, accounts.len() as int) + 1) as u32, credits_of(accounts)[m])
    } else {
        (0, 0)
    }
}

/// The credits earned in the latest epoch listed.
pub fn latest_epoch_credits(epoch_credits: &Vec<(u64, u64, u64)>) -> (earned: u64)
    ensures
        earned == earned_credits(epoch_credits@),
        epoch_credits@.len() == 0 ==> earned == 0,
        epoch_credits@.len() > 0 ==> earned as int == ({
            let last = epoch_credits@[epoch_credits@.len() - 1];
            if last.1 >= last.2 { last.1 - last.2 } else { 0 }
        }),
{
    if epoch_credits.len() == 0 {
        0
    } else {
        let last = epoch_credits[epoch_credits.len() - 1];
        last.1.saturating_sub(last.2)
    }
}

/// The credits of an account are those of the latest epoch it lists, its
/// last entry: that entry's credits less its previous credits, or 0 where
/// they fell; no earlier epoch changes them (nor, so, the ranking), and an
/// account that lists no epoch has earned nothing.
pub proof fn lemma_credits_come_from_the_last_epoch(epoch_credits: Seq<(u64, u64, u64)>, latest: (u64, u64, u64))
    ensures
        earned_credits(Seq::<(u64, u64, u64)>::empty()) == 0,
        earned_credits(epoch_credits.push(latest)) as int
            == if latest.1 >= latest.2 { latest.1 - latest.2 } else { 0 },
        earned_credits(epoch_credits.push(latest)) <= latest.1,
{
}

proof fn lemma_count_before_bound(credits: Seq<u64>, i: int, n: int)
    requires
        0 <= i < n <= credits.len(),
    ensures
        count_before(credits, i, n) < n,
    decreases n,
{
    if n - 1 > i {
        lemma_count_before_bound(credits, i, n - 1);
    } else {
        lemma_count_before_le(credits, i, n - 1);
    }
}

proof fn lemma_count_before_le(credits: Seq<u64>, i: int, n: int)
    requires
        0 <= n,
    ensures
        count_before(credits, i, n) <= n,
    decreases n,
{
    if n > 0 {
        lemma_count_before_le(credits, i, n - 1);
    }
}

/// At most one account is the first of ours in the ranking.
pub proof fn lemma_first_ours_unique(accounts: Seq<VoteAccountCredits>, ours: Seq<char>, a: int, b: int)
    requires
        first_ours(accounts, ours, a),
        first_ours(accounts, ours, b),
    ensures
        a == b,
{
    let c = credits_of(accounts);
    assert(!ranks_before(c, a, b));
    assert(!ranks_before(c, b, a));
}

/// Our rank among the vote accounts by the credits earned in the latest
/// epoch (highest first, ties in the listed order), and our credits; (0, 0)
/// where our vote account is not listed.
pub fn vote_credit_rank(accounts: &Vec<VoteAccountCredits>, vote_account: &String) -> (res: (u32, u64))
    ensures
        res == rank_spec(accounts@, vote_account@),
{
    let ghost acc = accounts@;
    let ghost ours = vote_account@;
    let n = accounts.len();
    let mut credits: Vec<u64> = Vec::new();
    let mut i: usize = 0;
    while i < n
        invariant
            n == accounts.len(),
            acc == accounts@,
            0 <= i <= n,
            credits@.len() == i,
            forall|j: int| 0 <= j < i ==> credits@[j] == credits_of(acc)[j],
        decreases n - i,
    {
        credits.push(latest_epoch_credits(&accounts[i].epoch_credits));
        i = i + 1;
    }
    assert(credits@ =~= credits_of(acc));
    // Find the first of ours in the ranking: most credits, then first listed.
    let mut best: Option<usize> = None;
    let mut i: usize = 0;
    while i < n
        invariant
            n == accounts.len(),
            acc == accounts@,
            credits@ == credits_of(acc),
            ours == vote_account@,
            0 <= i <= n,
            best matches Some(m) ==> m < i && is_ours(acc, ours, m as int)
                && forall|k: int| 0 <= k < i && is_ours(acc, ours, k) ==> !ranks_before(credits@, k, m as int),
            best is None ==> forall|k: int| 0 <= k < i ==> !is_ours(acc, ours, k),
        decreases n - i,
    {
        let mine = accounts[i].vote_pubkey == *vote_account;
        assert(mine == is_ours(acc, ours, i as int));
        if mine {
            match best {
                None => {
                    best = Some(i);
                },
                Some(m) => {
                    if credits[i] > credits[m] {
                        best = Some(i);
                    }
                },
            }
        }
        i = i + 1;
    }
    match best {
        None => {
            assert(!exists|k: int| is_ours(acc, ours, k));
            (0, 0)
        },
        Some(m) => {
            assert(first_ours(acc, ours, m as int));
            let ghost chosen = choose|x: int| first_ours(acc, ours, x);
            proof {
                lemma_first_ours_unique(acc, ours, chosen, m as int);
            }
            // Count the accounts ranked before ours.
            let mut count: usize = 0;
            let mut j: usize = 0;
            while j < n
                invariant
                    n == accounts.len(),
                    acc == accounts@,
                    credits@ == credits_of(acc),
                    credits@.len() == n,
                    m < n,
                    0 <= j <= n,
                    count == count_before(credits@, m as int, j as int),
                decreases n - j,
            {
                proof {
                    lemma_count_before_le(credits@, m as int, j as int);
                }
                if credits[j] > credits[m] || (credits[j] == credits[m] && j < m) {
                    count = count + 1;
                }
                j = j + 1;
            }
            proof {
                lemma_count_before_bound(credits@, m as int, n as int);
            }
            ((count + 1) as u32, credits[m])
        },
    }
}

/// The rank is 0 exactly where our vote account is not listed, and otherwise
/// between 1 and the number of accounts (where that fits in a `u32`); every
/// account ranked ahead of ours earned at least as many credits.
pub proof fn lemma_rank_bounds(accounts: Seq<VoteAccountCredits>, ours: Seq<char>)
    requires
        accounts.len() <= u32::MAX,
    ensures
        (rank_spec(accounts, ours).0 == 0) <==> !(exists|k: int| is_ours(accounts, ours, k)),
        rank_spec(accounts, ours).0 <= accounts.len(),
        (exists|k: int| is_ours(accounts, ours, k)) ==> {
            let m = choose|m: int| first_ours(accounts, ours, m);
            forall|j: int| 0 <= j < accounts.len() && ranks_before(credits_of(accounts), j, m)
                ==> credits_of(accounts)[j] >= rank_spec(accounts, ours).1
        },
{
    if exists|k: int| is_ours(accounts, ours, k) {
        let c = credits_of(accounts);
        let k0 = choose|k: int| is_ours(accounts, ours, k);
        // The first of ours in the ranking exists: take the best one found by a scan.
        let m = lemma_first_ours_exists(accounts, ours, k0, accounts.len() as int);
        assert(first_ours(accounts, ours, m));
        let chosen = choose|x: int| first_ours(accounts, ours, x);
        lemma_first_ours_unique(accounts, ours, chosen, m);
        lemma_count_before_bound(c, m, accounts.len() as int);
    }
}

/// Among the accounts of ours below `n` (one of which is `k0`), one ranks
/// before all the others.
proof fn lemma_first_ours_exists(accounts: Seq<VoteAccountCredits>, ours: Seq<char>, k0: int, n: int) -> (m: int)
    requires
        is_ours(accounts, ours, k0),
        k0 < n <= accounts.len(),
    ensures
        is_ours(accounts, ours, m),
        m < n,
        forall|k: int| is_ours(accounts, ours, k) && k < n ==> !ranks_before(credits_of(accounts), k, m),
    decreases n,
{
    let c = credits_of(accounts);
    if n - 1 == k0 {
        if k0 == 0 {
            k0
        } else {
            if exists|k: int| is_ours(accounts, ours, k) && k < n - 1 {
                let k1 = choose|k: int| is_ours(accounts, ours, k) && k < n - 1;
                let m1 = lemma_first_ours_exists(accounts, ours, k1, n - 1);
                if c[k0] > c[m1] { k0 } else { m1 }
            } else {
                k0
            }
        }
    } else {
        let m1 = lemma_first_ours_exists(accounts, ours, k0, n - 1);
        if is_ours(accounts, ours, n - 1) && c[n - 1] > c[m1] { n - 1 } else { m1 }
    }
}

} // verus!
