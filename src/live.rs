//! The decisions of the live API client: which HTTP outcomes are retried,
//! how long to back off, how far apart requests must be, and which teams of
//! an owners answer need a follow-up request for their members.
//!
//! The client's loop (send, wait, send again) runs where the network is;
//! each of its choices is made here.
use vstd::prelude::*;
use vstd::arithmetic::power::pow;
use crate::account::{AccountId, PublisherSet};
use crate::resolver::ApiError;

verus! {

broadcast use vstd::seq::Seq::lemma_push_to_set_commute;

/// How the client retries and paces its requests.
#[derive(Clone, Copy, Debug, PartialEq, Eq, Structural)]
pub struct RetryPolicy {
    /// Attempts per request, the first included.
    pub max_attempts: u32,
    /// The delay before the first retry, in milliseconds.
    pub base_delay_ms: u64,
    /// The factor by which each further delay grows.
    pub multiplier: u64,
    /// The least time between the starts of two requests, in milliseconds.
    pub min_interval_ms: u64,
}

/// How one HTTP request ended.
#[derive(Clone, Copy, Debug, PartialEq, Eq, Structural)]
pub enum Outcome {
    Status(u16),
    ConnectionReset,
    TimedOut,
}

/// What the client does next.
#[derive(Clone, Copy, Debug, PartialEq, Eq, Structural)]
pub enum Step {
    /// The response holds the answer.
    Accept,
    /// Send the request again after this many milliseconds.
    RetryAfter(u64),
    /// Give up with this error.
    Fail(ApiError),
}

/// `x`, capped at the largest `u64`.
pub open spec fn cap(x: int) -> int {
    if x > u64::MAX as int {
        u64::MAX as int
    } else {
        x
    }
}

/// The delay before retry number `k` (counted from zero): the base delay
/// times the multiplier to the power `k`, capped at the largest `u64`.
pub open spec fn backoff(p: RetryPolicy, k: nat) -> int {
    cap(p.base_delay_ms * pow(p.multiplier as int, k))
}

/// Is the outcome one worth trying again?
pub open spec fn transient(o: Outcome) -> bool {
    match o {
        Outcome::Status(s) => 500 <= s <= 599,
        _ => true,
    }
}

/// The step after attempt number `attempt` (counted from one) ended with `o`.
pub open spec fn next_step_spec(p: RetryPolicy, attempt: u32, o: Outcome) -> Step {
    if transient(o) {
        if attempt < p.max_attempts {
            Step::RetryAfter(backoff(p, (attempt - 1) as nat) as u64)
        } else {
            Step::Fail(ApiError::Transient)
        }
    } else {
        match o {
            Outcome::Status(s) => if 200 <= s <= 299 {
                Step::Accept
            } else if s == 404 {
                Step::Fail(ApiError::NotFound)
            } else {
                Step::Fail(ApiError::ClientError(s))
            },
            _ => Step::Fail(ApiError::Transient),
        }
    }
}

proof fn lemma_pow_nonneg(b: int, e: nat)
    requires
        b >= 0,
    ensures
        pow(b, e) >= 0,
    decreases e,
{
    reveal(pow);
    if e > 0 {
        lemma_pow_nonneg(b, (e - 1) as nat);
        assert(b * pow(b, (e - 1) as nat) >= 0) by (nonlinear_arith)
            requires
                b >= 0,
                pow(b, (e - 1) as nat) >= 0,
        ;
    }
}

proof fn lemma_cap_mul(x: int, m: int)
    requires
        x >= 0,
        m >= 0,
    ensures
        cap(cap(x) * m) == cap(x * m),
{
    if x > u64::MAX as int && m >= 1 {
        assert(x * m >= x) by (nonlinear_arith)
            requires
                m >= 1,
                x >= 0,
        ;
        assert(u64::MAX as int * m >= u64::MAX as int) by (nonlinear_arith)
            requires
                m >= 1,
        ;
    }
}

/// The delay before retry number `k` (counted from zero).
pub fn backoff_delay(p: &RetryPolicy, k: u32) -> (r: u64)
    ensures
        r == backoff(*p, k as nat),
{
    let mut d: u64 = p.base_delay_ms;
    let mut i: u32 = 0;
    proof {
        reveal(pow);
        assert(p.base_delay_ms * pow(p.multiplier as int, 0) == p.base_delay_ms);
    }
    while i < k
        invariant
            i <= k,
            d == backoff(*p, i as nat),
        decreases k - i,
    {
        proof {
            let x = p.base_delay_ms * pow(p.multiplier as int, i as nat);
            reveal(pow);
            assert(pow(p.multiplier as int, (i + 1) as nat) == p.multiplier * pow(p.multiplier as int, i as nat));
            assert(p.base_delay_ms * pow(p.multiplier as int, (i + 1) as nat) == x * p.multiplier) by (nonlinear_arith)
                requires
                    pow(p.multiplier as int, (i + 1) as nat) == p.multiplier * pow(p.multiplier as int, i as nat),
                    x == p.base_delay_ms * pow(p.multiplier as int, i as nat),
            ;
            lemma_pow_nonneg(p.multiplier as int, i as nat);
            assert(x >= 0) by (nonlinear_arith)
                requires
                    x == p.base_delay_ms * pow(p.multiplier as int, i as nat),
                    pow(p.multiplier as int, i as nat) >= 0,
                    p.base_delay_ms >= 0,
            ;
            lemma_cap_mul(x, p.multiplier as int);
        }
        d = match d.checked_mul(p.multiplier) {
            Some(v) => v,
            None => u64::MAX,
        };
        i = i + 1;
    }
    d
}

/// What the client does after attempt number `attempt` (counted from one)
/// ended with `o`: a 2xx status is accepted; 404 fails as not found and
/// another 4xx as a client error, neither retried; a 5xx status, a reset
/// or a timeout is retried after the backoff delay while attempts remain.
pub fn next_step(p: &RetryPolicy, attempt: u32, o: Outcome) -> (r: Step)
    requires
        attempt >= 1,
    ensures
        r == next_step_spec(*p, attempt, o),
{
    let retry = match o {
        Outcome::Status(s) => 500 <= s && s <= 599,
        _ => true,
    };
    if retry {
        if attempt < p.max_attempts {
            Step::RetryAfter(backoff_delay(p, attempt - 1))
        } else {
            Step::Fail(ApiError::Transient)
        }
    } else {
        match o {
            Outcome::Status(s) => if 200 <= s && s <= 299 {
                Step::Accept
            } else if s == 404 {
                Step::Fail(ApiError::NotFound)
            } else {
                Step::Fail(ApiError::ClientError(s))
            },
            _ => Step::Fail(ApiError::Transient),
        }
    }
}

/// How long to wait before the next request so that it starts at least
/// the policy's interval after the last one, at `last_ms`; no wait where
/// no request was made yet. A wait beyond the largest `u64` is capped.
pub fn pacing_delay(p: &RetryPolicy, last_ms: Option<u64>, now_ms: u64) -> (r: u64)
    ensures
        last_ms is None ==> r == 0,
        last_ms matches Some(last) ==> r as int == if last + p.min_interval_ms > now_ms {
            cap(last + p.min_interval_ms - now_ms)
        } else {
            0
        },
{
    match last_ms {
        None => 0,
        Some(last) => {
            let next: u128 = last as u128 + p.min_interval_ms as u128;
            if next > now_ms as u128 {
                let wait: u128 = next - now_ms as u128;
                if wait > u64::MAX as u128 {
                    u64::MAX
                } else {
                    wait as u64
                }
            } else {
                0
            }
        },
    }
}

/// The teams of an owners answer, whose members a follow-up request must
/// give: each once.
pub fn teams_to_expand(owners: &PublisherSet) -> (r: Vec<u64>)
    requires
        owners.wf(),
    ensures
        r@.no_duplicates(),
        forall|n: u64| r@.contains(n) <==> owners@.contains(AccountId::Team(n)),
{
    let v = owners.to_vec();
    proof {
        owners.lemma_order();
    }
    let mut r: Vec<u64> = Vec::new();
    let mut i: usize = 0;
    while i < v.len()
        invariant
            i <= v@.len(),
            v@.no_duplicates(),
            v@.to_set() == owners@,
            r@.no_duplicates(),
            forall|n: u64|
                r@.contains(n) <==> exists|j: int| 0 <= j < i && v@[j] == AccountId::Team(n),
        decreases v@.len() - i,
    {
        match v[i] {
            AccountId::Team(n) => {
                assert(!r@.contains(n)) by {
                    if r@.contains(n) {
                        let j = choose|j: int| 0 <= j < i && v@[j] == AccountId::Team(n);
                        assert(v@[j] == v@[i as int]);
                    }
                }
                let ghost old_r = r@;
                r.push(n);
                assert forall|m: u64|
                    r@.contains(m) <==> exists|j: int| 0 <= j < i + 1 && v@[j] == AccountId::Team(m) by {
                    if r@.contains(m) && m != n {
                        let q = choose|q: int| 0 <= q < r@.len() && r@[q] == m;
                        assert(old_r[q] == m);
                        assert(old_r.contains(m));
                    }
                    if exists|j: int| 0 <= j < i + 1 && v@[j] == AccountId::Team(m) {
                        let j = choose|j: int| 0 <= j < i + 1 && v@[j] == AccountId::Team(m);
                        if j < i {
                            assert(old_r.contains(m));
                            let q = choose|q: int| 0 <= q < old_r.len() && old_r[q] == m;
                            assert(r@[q] == m);
                        } else {
                            assert(r@[old_r.len() as int] == m);
                        }
                    }
                }
            },
            AccountId::User(_) => {},
        }
        i = i + 1;
    }
    assert forall|n: u64| r@.contains(n) <==> owners@.contains(AccountId::Team(n)) by {
        if owners@.contains(AccountId::Team(n)) {
            assert(v@.to_set().contains(AccountId::Team(n)));
            let j = choose|j: int| 0 <= j < v@.len() && v@[j] == AccountId::Team(n);
        }
        if r@.contains(n) {
            let j = choose|j: int| 0 <= j < v@.len() && v@[j] == AccountId::Team(n);
            assert(v@.contains(AccountId::Team(n)));
        }
    }
    r
}

/// The users that a follow-up request listed as members.
pub open spec fn member_users(members: Seq<u64>) -> Set<AccountId> {
    members.map_values(|u: u64| AccountId::User(u)).to_set()
}

/// An owners answer with team `team` replaced by the members that the
/// follow-up request about it returned.
pub fn merge_team_members(owners: &PublisherSet, team: u64, members: &Vec<u64>) -> (r: PublisherSet)
    requires
        owners.wf(),
    ensures
        r.wf(),
        r@ == owners@.remove(AccountId::Team(team)).union(member_users(members@)),
{
    let v = owners.to_vec();
    proof {
        owners.lemma_order();
    }
    let mut r = PublisherSet::new();
    let mut i: usize = 0;
    while i < v.len()
        invariant
            i <= v@.len(),
            r.wf(),
            r@ == v@.take(i as int).to_set().remove(AccountId::Team(team)),
        decreases v@.len() - i,
    {
        let a = v[i];
        assert(v@.take(i + 1) == v@.take(i as int).push(a));
        if a != AccountId::Team(team) {
            r.insert(a);
        }
        assert(r@ =~= v@.take(i + 1).to_set().remove(AccountId::Team(team)));
        i = i + 1;
    }
    assert(v@.take(i as int) == v@);
    let mut k: usize = 0;
    let ghost base = r@;
    assert(members@.take(0).map_values(|u: u64| AccountId::User(u)) =~= Seq::<AccountId>::empty());
    assert(member_users(members@.take(0)) =~= Set::<AccountId>::empty());
    assert(r@ =~= base.union(member_users(members@.take(0))));
    while k < members.len()
        invariant
            k <= members@.len(),
            r.wf(),
            r@ == base.union(member_users(members@.take(k as int))),
        decreases members@.len() - k,
    {
        let u = members[k];
        r.insert(AccountId::User(u));
        assert(members@.take(k + 1).map_values(|u: u64| AccountId::User(u)) =~= members@.take(
            k as int,
        ).map_values(|u: u64| AccountId::User(u)).push(AccountId::User(u)));
        assert(r@ =~= base.union(member_users(members@.take(k + 1))));
        k = k + 1;
    }
    assert(members@.take(k as int) == members@);
    r
}

} // verus!
