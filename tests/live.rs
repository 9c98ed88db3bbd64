use supply_chain::account::{AccountId, PublisherSet};
use supply_chain::live::{
    backoff_delay, merge_team_members, next_step, pacing_delay, teams_to_expand, Outcome, RetryPolicy, Step,
};
use supply_chain::resolver::ApiError;

fn policy() -> RetryPolicy {
    RetryPolicy { max_attempts: 4, base_delay_ms: 100, multiplier: 2, min_interval_ms: 1000 }
}

#[test]
fn backoff_grows_and_saturates() {
    let p = policy();
    assert_eq!(backoff_delay(&p, 0), 100);
    assert_eq!(backoff_delay(&p, 1), 200);
    assert_eq!(backoff_delay(&p, 3), 800);
    assert_eq!(backoff_delay(&p, 80), u64::MAX);
    let z = RetryPolicy { multiplier: 0, ..p };
    assert_eq!(backoff_delay(&z, 0), 100);
    assert_eq!(backoff_delay(&z, 5), 0);
}

#[test]
fn statuses_decide_the_next_step() {
    let p = policy();
    assert_eq!(next_step(&p, 1, Outcome::Status(200)), Step::Accept);
    assert_eq!(next_step(&p, 1, Outcome::Status(404)), Step::Fail(ApiError::NotFound));
    assert_eq!(next_step(&p, 1, Outcome::Status(403)), Step::Fail(ApiError::ClientError(403)));
    assert_eq!(next_step(&p, 1, Outcome::Status(503)), Step::RetryAfter(100));
    assert_eq!(next_step(&p, 3, Outcome::TimedOut), Step::RetryAfter(400));
    assert_eq!(next_step(&p, 2, Outcome::ConnectionReset), Step::RetryAfter(200));
    assert_eq!(next_step(&p, 4, Outcome::Status(500)), Step::Fail(ApiError::Transient));
}

#[test]
fn requests_are_paced() {
    let p = policy();
    assert_eq!(pacing_delay(&p, None, 5), 0);
    assert_eq!(pacing_delay(&p, Some(1000), 1200), 800);
    assert_eq!(pacing_delay(&p, Some(1000), 2000), 0);
    assert_eq!(pacing_delay(&p, Some(1000), 5000), 0);
}

fn set_of(accounts: &[AccountId]) -> PublisherSet {
    let mut s = PublisherSet::new();
    for a in accounts {
        s.insert(*a);
    }
    s
}

#[test]
fn teams_of_an_answer_are_expanded_once() {
    let owners = set_of(&[AccountId::Team(7), AccountId::User(1), AccountId::Team(9)]);
    assert_eq!(teams_to_expand(&owners), vec![7, 9]);
    assert_eq!(teams_to_expand(&set_of(&[AccountId::User(1)])), Vec::<u64>::new());
}

#[test]
fn team_members_replace_the_team() {
    let owners = set_of(&[AccountId::Team(7), AccountId::User(1), AccountId::Team(9)]);
    let merged = merge_team_members(&owners, 7, &vec![3, 4, 1]);
    assert_eq!(
        merged.to_vec(),
        vec![AccountId::User(1), AccountId::Team(9), AccountId::User(3), AccountId::User(4)]
    );
    let none = merge_team_members(&owners, 9, &vec![]);
    assert_eq!(none.to_vec(), vec![AccountId::Team(7), AccountId::User(1)]);
}
