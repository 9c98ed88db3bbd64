//! Publisher accounts and sets of them.
use vstd::prelude::*;

verus! {

broadcast use vstd::seq::Seq::lemma_push_to_set_commute;

/// A publisher identity on the registry: an individual user or a team.
/// The two kinds are numbered separately, so an account is known by its
/// kind and its number together.
#[derive(Clone, Copy, Debug, PartialEq, Eq, Structural, Hash)]
pub enum AccountId {
    User(u64),
    Team(u64),
}

impl AccountId {
    pub fn is_team(&self) -> (r: bool)
        ensures
            r == (*self is Team),
    {
        match self {
            AccountId::User(_) => false,
            AccountId::Team(_) => true,
        }
    }
}

/// The accounts attributed to one package, each at most once.
#[derive(Clone, Debug)]
pub struct PublisherSet {
    members: Vec<AccountId>,
}

impl View for PublisherSet {
    type V = Set<AccountId>;

    closed spec fn view(&self) -> Set<AccountId> {
        self.members@.to_set()
    }
}

impl PublisherSet {
    /// No account is held twice.
    pub closed spec fn wf(&self) -> bool {
        self.members@.no_duplicates()
    }

    /// The accounts in the order in which they were first added.
    pub closed spec fn order(&self) -> Seq<AccountId> {
        self.members@
    }

    pub proof fn lemma_order(&self)
        requires
            self.wf(),
        ensures
            self.order().no_duplicates(),
            self.order().to_set() == self@,
            self@.finite(),
            self@.len() == self.order().len(),
    {
        self.members@.unique_seq_to_set();
    }

    pub fn new() -> (r: PublisherSet)
        ensures
            r.wf(),
            r@ == Set::<AccountId>::empty(),
    {
        let r = PublisherSet { members: Vec::new() };
        assert(r@ =~= Set::<AccountId>::empty());
        r
    }

    pub fn contains(&self, a: AccountId) -> (r: bool)
        ensures
            r == self@.contains(a),
    {
        let mut i: usize = 0;
        while i < self.members.len()
            invariant
                i <= self.members@.len(),
                forall|j: int| 0 <= j < i ==> self.members@[j] != a,
            decreases self.members@.len() - i,
        {
            if self.members[i] == a {
                assert(self.members@.contains(a));
                return true;
            }
            i = i + 1;
        }
        false
    }

    /// Adds `a`, unless it is already there.
    pub fn insert(&mut self, a: AccountId)
        requires
            old(self).wf(),
        ensures
            final(self).wf(),
            final(self)@ == old(self)@.insert(a),
    {
        if !self.contains(a) {
            self.members.push(a);
            assert(self.members@ == old(self).members@.push(a));
        } else {
            assert(old(self)@.insert(a) =~= old(self)@);
        }
        assert(self@ =~= old(self)@.insert(a));
    }

    /// A copy of the set.
    pub fn clone_set(&self) -> (r: PublisherSet)
        ensures
            r.wf() == self.wf(),
            r@ == self@,
            r.order() == self.order(),
    {
        PublisherSet { members: self.members.clone() }
    }

    /// The number of accounts.
    pub fn len(&self) -> (r: usize)
        requires
            self.wf(),
        ensures
            r == self@.len(),
    {
        proof {
            self.lemma_order();
        }
        self.members.len()
    }

    /// The accounts, each once, in the order in which they were first added.
    pub fn to_vec(&self) -> (r: Vec<AccountId>)
        ensures
            r@ == self.order(),
    {
        self.members.clone()
    }

    /// Does the set hold a team that is not expanded into its members?
    pub fn has_team(&self) -> (r: bool)
        ensures
            r == exists|a: AccountId| self@.contains(a) && a is Team,
    {
        let mut i: usize = 0;
        while i < self.members.len()
            invariant
                i <= self.members@.len(),
                forall|j: int| 0 <= j < i ==> !(self.members@[j] is Team),
            decreases self.members@.len() - i,
        {
            if self.members[i].is_team() {
                assert(self@.contains(self.members@[i as int]));
                return true;
            }
            i = i + 1;
        }
        assert forall|a: AccountId| self@.contains(a) implies !(a is Team) by {
            let j = choose|j: int| 0 <= j < self.members@.len() && self.members@[j] == a;
        }
        false
    }

    /// The user accounts of the set.
    pub fn users_only(&self) -> (r: PublisherSet)
        requires
            self.wf(),
        ensures
            r.wf(),
            r@ == self@.filter(|a: AccountId| a is User),
    {
        let mut r = PublisherSet::new();
        let mut i: usize = 0;
        while i < self.members.len()
            invariant
                i <= self.members@.len(),
                r.wf(),
                r@ == self.members@.take(i as int).to_set().filter(|a: AccountId| a is User),
            decreases self.members@.len() - i,
        {
            let a = self.members[i];
            assert(self.members@.take(i + 1) == self.members@.take(i as int).push(a));
            if !a.is_team() {
                r.insert(a);
            }
            assert(r@ =~= self.members@.take(i + 1).to_set().filter(|a: AccountId| a is User));
            i = i + 1;
        }
        assert(self.members@.take(i as int) == self.members@);
        r
    }

    /// Adds every account of `other`.
    pub fn extend(&mut self, other: &PublisherSet)
        requires
            old(self).wf(),
        ensures
            final(self).wf(),
            final(self)@ == old(self)@.union(other@),
    {
        let mut i: usize = 0;
        while i < other.members.len()
            invariant
                i <= other.members@.len(),
                self.wf(),
                self@ == old(self)@.union(other.members@.take(i as int).to_set()),
            decreases other.members@.len() - i,
        {
            let a = other.members[i];
            assert(other.members@.take(i + 1) == other.members@.take(i as int).push(a));
            self.insert(a);
            assert(self@ =~= old(self)@.union(other.members@.take(i + 1).to_set()));
            i = i + 1;
        }
        assert(other.members@.take(i as int) == other.members@);
    }
}

/// The details of one account, from the users or the teams table: for a
/// user its login, for a team its organisation, and a display name.
#[derive(Clone, Debug)]
pub struct AccountRow {
    pub id: u64,
    pub handle: String,
    pub name: String,
}

/// The details of the snapshot's users and teams.
#[derive(Clone, Debug)]
pub struct Directory {
    pub users: Vec<AccountRow>,
    pub teams: Vec<AccountRow>,
}

/// The position of the first row numbered `id`.
fn find_row(rows: &Vec<AccountRow>, id: u64) -> (r: Option<usize>)
    ensures
        r matches Some(i) ==> i < rows@.len() && rows@[i as int].id == id && forall|j: int|
            0 <= j < i ==> (#[trigger] rows@[j]).id != id,
        r is None ==> forall|j: int| 0 <= j < rows@.len() ==> (#[trigger] rows@[j]).id != id,
{
    let mut i: usize = 0;
    while i < rows.len()
        invariant
            i <= rows@.len(),
            forall|j: int| 0 <= j < i ==> (#[trigger] rows@[j]).id != id,
        decreases rows@.len() - i,
    {
        if rows[i].id == id {
            return Some(i);
        }
        i = i + 1;
    }
    None
}

/// The number of an account, within its kind.
pub open spec fn number_of(a: AccountId) -> u64 {
    match a {
        AccountId::User(n) => n,
        AccountId::Team(n) => n,
    }
}

/// Is `row` the first of `rows` numbered `id`?
pub open spec fn first_row(rows: Seq<AccountRow>, id: u64, row: AccountRow) -> bool {
    exists|i: int|
        #![trigger rows[i]]
        0 <= i < rows.len() && rows[i] == row && row.id == id && forall|j: int|
            0 <= j < i ==> (#[trigger] rows[j]).id != id
}

fn first_in(rows: &Vec<AccountRow>, id: u64) -> (r: Option<&AccountRow>)
    ensures
        r matches Some(row) ==> first_row(rows@, id, *row),
        r is None ==> forall|j: int| 0 <= j < rows@.len() ==> (#[trigger] rows@[j]).id != id,
{
    match find_row(rows, id) {
        Some(i) => {
            let row = &rows[i];
            assert(rows@[i as int] == *row);
            Some(row)
        },
        None => None,
    }
}

impl Directory {
    /// The table that holds the details of accounts of `a`'s kind.
    pub open spec fn rows_for(&self, a: AccountId) -> Seq<AccountRow> {
        match a {
            AccountId::User(_) => self.users@,
            AccountId::Team(_) => self.teams@,
        }
    }

    /// The details of account `a`: the first row of its number in the users
    /// table for a user, in the teams table for a team; none where there is
    /// no such row.
    pub fn details(&self, a: AccountId) -> (r: Option<&AccountRow>)
        ensures
            r matches Some(row) ==> first_row(self.rows_for(a), number_of(a), *row),
            r is None ==> forall|j: int|
                0 <= j < self.rows_for(a).len() ==> (#[trigger] self.rows_for(a)[j]).id != number_of(a),
    {
        match a {
            AccountId::User(n) => first_in(&self.users, n),
            AccountId::Team(n) => first_in(&self.teams, n),
        }
    }
}

} // verus!
