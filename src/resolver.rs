//! Resolution of a list of packages to their publishers: the snapshot index
//! first, the registry's live API where the index cannot answer.
//!
//! Resolution runs in two steps around the network. `lookups_needed` says
//! which packages the live API must be asked about; the caller asks, once
//! per such package, and hands the answers to `resolve`, which merges them
//! with the snapshot in the caller's order.
use vstd::prelude::*;
use crate::account::{AccountId, PublisherSet};
use crate::index::{
    index_of, lemma_expanded_teams, lemma_lookup_first, lookup, publishers_spec, OwnerKind,
    RegistryIndex, Tables,
};

verus! {

/// Why the live API could not give a package's publishers.
#[derive(Clone, Copy, Debug, PartialEq, Eq, Structural)]
pub enum ApiError {
    /// The registry does not know the package (HTTP 404).
    NotFound,
    /// The registry refused the request with another 4xx status.
    ClientError(u16),
    /// Server errors, resets or timeouts went on past the last attempt.
    Transient,
}

/// A package as the caller names it.
#[derive(Clone, Debug)]
pub struct Package {
    pub name: String,
    pub version: Option<String>,
}

/// What is known of one requested package's publishers.
#[derive(Clone, Debug)]
pub struct Resolution {
    pub name: String,
    pub version: Option<String>,
    pub publishers: PublisherSet,
    /// Set where the publishers could not be fully determined; then
    /// `publishers` holds what the snapshot gave, possibly nothing.
    pub failure: Option<ApiError>,
}

/// The index view.
pub type IndexView = Seq<(Seq<char>, Set<AccountId>)>;

/// The live API's answer for one package, as sets.
pub type AnswerView = Option<Result<Set<AccountId>, ApiError>>;

/// Must the live API be asked about `name`? Where the snapshot lacks the
/// package, or holds a team whose members it does not list.
pub open spec fn needs_live(ix: IndexView, name: Seq<char>) -> bool {
    match lookup(ix, name) {
        None => true,
        Some(s) => exists|a: AccountId| s.contains(a) && a is Team,
    }
}

/// The snapshot's publishers of `name`; none where it lacks the package.
pub open spec fn snapshot_publishers(ix: IndexView, name: Seq<char>) -> Set<AccountId> {
    match lookup(ix, name) {
        Some(s) => s,
        None => Set::empty(),
    }
}

/// The publishers and the failure recorded for `name`, given the live API's
/// answer, if it was asked. A successful answer replaces the snapshot's
/// unexpanded teams and is joined with its users; a failed one leaves the
/// snapshot's data, with the failure.
pub open spec fn resolved(ix: IndexView, name: Seq<char>, answer: AnswerView) -> (
    Set<AccountId>,
    Option<ApiError>,
) {
    let snap = snapshot_publishers(ix, name);
    if !needs_live(ix, name) {
        (snap, None)
    } else {
        match answer {
            Some(Ok(live)) => (snap.filter(|a: AccountId| a is User).union(live), None),
            Some(Err(e)) => (snap, Some(e)),
            None => (snap, Some(ApiError::Transient)),
        }
    }
}

/// The sets of an answer.
pub open spec fn answer_view(a: Option<Result<PublisherSet, ApiError>>) -> AnswerView {
    match a {
        Some(Ok(p)) => Some(Ok(p@)),
        Some(Err(e)) => Some(Err(e)),
        None => None,
    }
}

/// Must the live API be asked about the package named `name`?
pub fn needs_live_lookup(index: &RegistryIndex, name: &String) -> (r: bool)
    requires
        index.wf(),
    ensures
        r == needs_live(index@, name@),
{
    let snapshot = index.publishers_of(name);
    match snapshot {
        None => true,
        Some(p) => {
            let r = p.has_team();
            if r {
                let ghost a = choose|a: AccountId| p@.contains(a) && a is Team;
                assert(lookup(index@, name@)->Some_0.contains(a));
            }
            r
        },
    }
}

/// For each requested package, in order, whether the live API must be asked
/// about it: each such package once.
pub fn lookups_needed(index: &RegistryIndex, packages: &Vec<Package>) -> (r: Vec<bool>)
    requires
        index.wf(),
    ensures
        r@.len() == packages@.len(),
        forall|i: int| 0 <= i < packages@.len() ==> r@[i] == needs_live(index@, packages@[i].name@),
{
    let mut r: Vec<bool> = Vec::new();
    let mut i: usize = 0;
    while i < packages.len()
        invariant
            index.wf(),
            i <= packages@.len(),
            r@.len() == i,
            forall|j: int| 0 <= j < i ==> r@[j] == needs_live(index@, packages@[j].name@),
        decreases packages@.len() - i,
    {
        r.push(needs_live_lookup(index, &packages[i].name));
        i = i + 1;
    }
    r
}

fn copy_version(v: &Option<String>) -> (r: Option<String>)
    ensures
        r == *v,
{
    match v {
        Some(s) => Some(s.clone()),
        None => None,
    }
}

/// Resolves one package named `name`, given the live API's answer about it,
/// if it was asked.
pub fn resolve_one(
    index: &RegistryIndex,
    name: &String,
    answer: &Option<Result<PublisherSet, ApiError>>,
) -> (r: (PublisherSet, Option<ApiError>))
    requires
        index.wf(),
    ensures
        r.0.wf(),
        (r.0@, r.1) == resolved(index@, name@, answer_view(*answer)),
{
    let live = needs_live_lookup(index, name);
    let snapshot = index.publishers_of(name);
    let snap = match snapshot {
        Some(p) => p.clone_set(),
        None => PublisherSet::new(),
    };
    if !live {
        return (snap, None);
    }
    match answer {
        Some(Ok(found)) => {
            let mut r = snap.users_only();
            r.extend(found);
            (r, None)
        },
        Some(Err(e)) => (snap, Some(*e)),
        None => (snap, Some(ApiError::Transient)),
    }
}

/// The answer handed in for package `i`; none past the end of `answers`.
pub open spec fn answer_at(answers: Seq<Option<Result<PublisherSet, ApiError>>>, i: int) -> AnswerView {
    if 0 <= i < answers.len() {
        answer_view(answers[i])
    } else {
        None
    }
}

/// Resolves every requested package, in the caller's order, whatever the
/// order in which the live answers came in. `answers[i]` is the live API's
/// answer about `packages[i]`, where it was asked; a package without a slot
/// in `answers` counts as not asked about.
pub fn resolve(
    index: &RegistryIndex,
    packages: &Vec<Package>,
    answers: &Vec<Option<Result<PublisherSet, ApiError>>>,
) -> (r: Vec<Resolution>)
    requires
        index.wf(),
    ensures
        r@.len() == packages@.len(),
        forall|i: int|
            0 <= i < packages@.len() ==> {
                &&& (#[trigger] r@[i]).name@ == packages@[i].name@
                &&& r@[i].version == packages@[i].version
                &&& r@[i].publishers.wf()
                &&& (r@[i].publishers@, r@[i].failure) == resolved(
                    index@,
                    packages@[i].name@,
                    answer_at(answers@, i),
                )
            },
{
    let mut r: Vec<Resolution> = Vec::new();
    let mut i: usize = 0;
    while i < packages.len()
        invariant
            index.wf(),
            i <= packages@.len(),
            r@.len() == i,
            forall|j: int|
                0 <= j < i ==> {
                    &&& (#[trigger] r@[j]).name@ == packages@[j].name@
                    &&& r@[j].version == packages@[j].version
                    &&& r@[j].publishers.wf()
                    &&& (r@[j].publishers@, r@[j].failure) == resolved(
                        index@,
                        packages@[j].name@,
                        answer_at(answers@, j),
                    )
                },
        decreases packages@.len() - i,
    {
        let p = &packages[i];
        let none: Option<Result<PublisherSet, ApiError>> = None;
        let answer = if i < answers.len() {
            &answers[i]
        } else {
            &none
        };
        let (publishers, failure) = resolve_one(index, &p.name, answer);
        r.push(
            Resolution { name: p.name.clone(), version: copy_version(&p.version), publishers, failure },
        );
        i = i + 1;
    }
    r
}

/// A package that the snapshot holds with its teams expanded is answered
/// from the snapshot alone: the live API is not asked, and the result is
/// the snapshot's publishers, whatever answer is handed in.
pub proof fn lemma_snapshot_suffices(ix: IndexView, name: Seq<char>, s: Set<AccountId>, answer: AnswerView)
    requires
        lookup(ix, name) == Some(s),
        forall|a: AccountId| #[trigger] s.contains(a) ==> a is User,
    ensures
        !needs_live(ix, name),
        resolved(ix, name, answer) == (s, None::<ApiError>),
{
}

/// For a package of a snapshot whose team owners all have listed members,
/// resolution gives what the index built from that snapshot holds for it,
/// without asking the live API.
pub proof fn lemma_expanded_snapshot_resolves_locally(t: Tables, i: int, answer: AnswerView)
    requires
        0 <= i < t.packages@.len(),
        forall|j: int| 0 <= j < i ==> (#[trigger] t.packages@[j]).name@ != t.packages@[i].name@,
        forall|k: int|
            0 <= k < t.owners@.len() && (#[trigger] t.owners@[k]).package_id == t.packages@[i].id
                && t.owners@[k].kind == OwnerKind::Team ==> crate::index::team_listed(
                t.members@,
                t.owners@[k].owner_id,
            ),
    ensures
        !needs_live(index_of(t), t.packages@[i].name@),
        resolved(index_of(t), t.packages@[i].name@, answer) == (
            publishers_spec(t.owners@, t.members@, t.packages@[i].id),
            None::<ApiError>,
        ),
{
    let ix = index_of(t);
    let name = t.packages@[i].name@;
    assert forall|j: int| 0 <= j < i implies (#[trigger] ix[j]).0 != name by {
        assert(ix[j].0 == t.packages@[j].name@);
    }
    lemma_lookup_first(ix, name, i);
    lemma_expanded_teams(t.owners@, t.members@, t.packages@[i].id);
    lemma_snapshot_suffices(ix, name, publishers_spec(t.owners@, t.members@, t.packages@[i].id), answer);
}

/// A package that the snapshot lacks is always asked about, and what the
/// live API answered is what comes out: its publishers when it succeeded,
/// an empty set with the failure when it did not.
pub proof fn lemma_absent_goes_live(ix: IndexView, name: Seq<char>, live: Set<AccountId>, e: ApiError)
    requires
        lookup(ix, name) is None,
    ensures
        needs_live(ix, name),
        resolved(ix, name, Some(Ok(live))) == (live, None::<ApiError>),
        resolved(ix, name, Some(Err(e))) == (Set::<AccountId>::empty(), Some(e)),
{
    assert(Set::<AccountId>::empty().filter(|a: AccountId| a is User).union(live) =~= live);
}

/// Where the snapshot holds a package only through a team whose members it
/// does not list, a successful live answer replaces that team with the
/// answer's accounts.
pub proof fn lemma_live_expands_team(ix: IndexView, name: Seq<char>, team: u64, live: Set<AccountId>)
    requires
        lookup(ix, name) == Some(set![AccountId::Team(team)]),
    ensures
        needs_live(ix, name),
        resolved(ix, name, Some(Ok(live))) == (live, None::<ApiError>),
{
    let s = set![AccountId::Team(team)];
    assert(lookup(ix, name)->Some_0.contains(AccountId::Team(team)));
    assert(s.filter(|a: AccountId| a is User).union(live) =~= live);
}

} // verus!
