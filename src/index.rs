//! The registry index: which accounts publish each package of a snapshot.
use vstd::prelude::*;
use crate::account::{AccountId, PublisherSet};

verus! {

/// Whether a package-owner row names a user or a team.
#[derive(Clone, Copy, Debug, PartialEq, Eq, Structural)]
pub enum OwnerKind {
    User,
    Team,
}

/// One row of the packages table.
#[derive(Clone, Debug)]
pub struct PackageRow {
    pub id: u64,
    pub name: String,
}

/// One row of the package-owners table.
#[derive(Clone, Copy, Debug, PartialEq, Eq, Structural)]
pub struct OwnerRow {
    pub package_id: u64,
    pub owner_id: u64,
    pub kind: OwnerKind,
}

/// One row of the team-membership table.
#[derive(Clone, Copy, Debug, PartialEq, Eq, Structural)]
pub struct MemberRow {
    pub team_id: u64,
    pub user_id: u64,
}

/// The tables of one snapshot that decide who publishes what.
#[derive(Clone, Debug)]
pub struct Tables {
    pub packages: Vec<PackageRow>,
    pub owners: Vec<OwnerRow>,
    pub members: Vec<MemberRow>,
}

/// Does the snapshot list any member of team `team`?
pub open spec fn team_listed(members: Seq<MemberRow>, team: u64) -> bool {
    exists|k: int| 0 <= k < members.len() && (#[trigger] members[k]).team_id == team
}

/// The users that the first `n` membership rows list for team `team`.
pub open spec fn listed_members(members: Seq<MemberRow>, team: u64, n: int) -> Set<AccountId> {
    Set::new(
        |a: AccountId|
            exists|k: int|
                0 <= k < n && k < members.len() && (#[trigger] members[k]).team_id == team && a
                    == AccountId::User(members[k].user_id),
    )
}

/// The accounts that one owner row stands for: a user stands for itself; a
/// team with listed members for those members; a team with none listed for
/// itself, left to be expanded later.
pub open spec fn owner_accounts(o: OwnerRow, members: Seq<MemberRow>) -> Set<AccountId> {
    match o.kind {
        OwnerKind::User => set![AccountId::User(o.owner_id)],
        OwnerKind::Team => if team_listed(members, o.owner_id) {
            listed_members(members, o.owner_id, members.len() as int)
        } else {
            set![AccountId::Team(o.owner_id)]
        },
    }
}

/// The accounts that the first `n` owner rows attribute to package `package_id`.
pub open spec fn owners_upto(
    owners: Seq<OwnerRow>,
    members: Seq<MemberRow>,
    package_id: u64,
    n: int,
) -> Set<AccountId> {
    Set::new(
        |a: AccountId|
            exists|i: int|
                0 <= i < n && i < owners.len() && (#[trigger] owners[i]).package_id == package_id
                    && owner_accounts(owners[i], members).contains(a),
    )
}

/// The publishers of package `package_id` according to the snapshot.
pub open spec fn publishers_spec(
    owners: Seq<OwnerRow>,
    members: Seq<MemberRow>,
    package_id: u64,
) -> Set<AccountId> {
    owners_upto(owners, members, package_id, owners.len() as int)
}

/// Adds to `set` the accounts that owner row `o` stands for.
fn add_owner(o: OwnerRow, members: &Vec<MemberRow>, set: &mut PublisherSet)
    requires
        old(set).wf(),
    ensures
        final(set).wf(),
        final(set)@ == old(set)@.union(owner_accounts(o, members@)),
{
    match o.kind {
        OwnerKind::User => {
            set.insert(AccountId::User(o.owner_id));
            assert(final(set)@ =~= old(set)@.union(owner_accounts(o, members@)));
        },
        OwnerKind::Team => {
            let mut found = false;
            let mut k: usize = 0;
            while k < members.len()
                invariant
                    k <= members@.len(),
                    set.wf(),
                    found == exists|j: int| 0 <= j < k && (#[trigger] members@[j]).team_id == o.owner_id,
                    set@ == old(set)@.union(listed_members(members@, o.owner_id, k as int)),
                decreases members@.len() - k,
            {
                let m = members[k];
                if m.team_id == o.owner_id {
                    set.insert(AccountId::User(m.user_id));
                    found = true;
                }
                assert(set@ =~= old(set)@.union(listed_members(members@, o.owner_id, k + 1)));
                k = k + 1;
            }
            if !found {
                set.insert(AccountId::Team(o.owner_id));
                assert(listed_members(members@, o.owner_id, k as int) =~= Set::empty());
                assert(set@ =~= old(set)@.union(owner_accounts(o, members@)));
            }
        },
    }
}

/// The publishers of package `package_id`, from the owner and membership tables.
pub fn publishers_from_tables(
    owners: &Vec<OwnerRow>,
    members: &Vec<MemberRow>,
    package_id: u64,
) -> (r: PublisherSet)
    ensures
        r.wf(),
        r@ == publishers_spec(owners@, members@, package_id),
{
    let mut r = PublisherSet::new();
    let mut i: usize = 0;
    assert(r@ =~= owners_upto(owners@, members@, package_id, 0));
    while i < owners.len()
        invariant
            i <= owners@.len(),
            r.wf(),
            r@ == owners_upto(owners@, members@, package_id, i as int),
        decreases owners@.len() - i,
    {
        let o = owners[i];
        if o.package_id == package_id {
            add_owner(o, members, &mut r);
        }
        assert(r@ =~= owners_upto(owners@, members@, package_id, i + 1));
        i = i + 1;
    }
    r
}

/// One package of the index and its publishers.
#[derive(Clone, Debug)]
pub struct IndexEntry {
    name: String,
    publishers: PublisherSet,
}

/// Package name to publishers, built once from a snapshot's tables and not
/// changed after.
#[derive(Clone, Debug)]
pub struct RegistryIndex {
    entries: Vec<IndexEntry>,
    members: Vec<MemberRow>,
}

impl View for RegistryIndex {
    /// The packages in the order of the packages table, each with its name
    /// and its publishers.
    type V = Seq<(Seq<char>, Set<AccountId>)>;

    closed spec fn view(&self) -> Seq<(Seq<char>, Set<AccountId>)> {
        self.entries@.map_values(|e: IndexEntry| (e.name@, e.publishers@))
    }
}

/// The index that a snapshot's tables give.
pub open spec fn index_of(t: Tables) -> Seq<(Seq<char>, Set<AccountId>)> {
    t.packages@.map_values(
        |p: PackageRow| (p.name@, publishers_spec(t.owners@, t.members@, p.id)),
    )
}

/// What a lookup by name finds in an index: the publishers of the first
/// package of that name.
pub open spec fn lookup(ix: Seq<(Seq<char>, Set<AccountId>)>, name: Seq<char>) -> Option<
    Set<AccountId>,
>
    decreases ix.len(),
{
    if ix.len() == 0 {
        None
    } else if ix[0].0 == name {
        Some(ix[0].1)
    } else {
        lookup(ix.drop_first(), name)
    }
}

impl RegistryIndex {
    /// Every publisher set of the index is well formed.
    pub closed spec fn wf(&self) -> bool {
        forall|i: int| 0 <= i < self.entries@.len() ==> (#[trigger] self.entries@[i]).publishers.wf()
    }

    /// The membership rows that the index was built with.
    pub closed spec fn member_rows(&self) -> Seq<MemberRow> {
        self.members@
    }

    /// Builds the index of a snapshot's tables, expanding each team owner
    /// into its listed members.
    pub fn build(t: &Tables) -> (r: RegistryIndex)
        ensures
            r.wf(),
            r@ == index_of(*t),
            r.member_rows() == t.members@,
    {
        let mut entries: Vec<IndexEntry> = Vec::new();
        let mut i: usize = 0;
        while i < t.packages.len()
            invariant
                i <= t.packages@.len(),
                entries@.len() == i,
                forall|j: int| 0 <= j < i ==> (#[trigger] entries@[j]).publishers.wf(),
                forall|j: int|
                    0 <= j < i ==> (#[trigger] entries@[j]).name@ == t.packages@[j].name@
                        && entries@[j].publishers@ == publishers_spec(
                        t.owners@,
                        t.members@,
                        t.packages@[j].id,
                    ),
            decreases t.packages@.len() - i,
        {
            let p = &t.packages[i];
            let publishers = publishers_from_tables(&t.owners, &t.members, p.id);
            entries.push(IndexEntry { name: p.name.clone(), publishers });
            i = i + 1;
        }
        let r = RegistryIndex { entries, members: t.members.clone() };
        assert(r@ =~= index_of(*t));
        r
    }

    /// The number of packages in the index.
    pub fn len(&self) -> (r: usize)
        ensures
            r == self@.len(),
    {
        self.entries.len()
    }

    /// The publishers of the package named `name`, or none where the
    /// snapshot does not hold it.
    ///
    /// The entries are scanned in table order, in time linear in the size of
    /// the index: the index keeps its entries in a vector, in the order of
    /// the packages table, and looks names up by comparing them in turn.
    pub fn publishers_of(&self, name: &String) -> (r: Option<&PublisherSet>)
        requires
            self.wf(),
        ensures
            lookup(self@, name@) == match r {
                Some(p) => Some(p@),
                None => None::<Set<AccountId>>,
            },
            r matches Some(p) ==> p.wf(),
    {
        let mut i: usize = 0;
        assert(self@.subrange(0, self@.len() as int) =~= self@);
        while i < self.entries.len()
            invariant
                i <= self.entries@.len(),
                self.wf(),
                lookup(self@, name@) == lookup(self@.subrange(i as int, self@.len() as int), name@),
            decreases self.entries@.len() - i,
        {
            let e = &self.entries[i];
            let ghost rest = self@.subrange(i as int, self@.len() as int);
            assert(rest[0] == self@[i as int]);
            assert(rest.drop_first() =~= self@.subrange(i + 1, self@.len() as int));
            if e.name == *name {
                return Some(&e.publishers);
            }
            i = i + 1;
        }
        None
    }

    /// The users that the snapshot lists as members of team `team`, in the
    /// order of the membership table; none where it lists no member.
    pub fn team_members(&self, team: u64) -> (r: Option<Vec<u64>>)
        ensures
            r is None <==> !team_listed(self.member_rows(), team),
            r matches Some(v) ==> v@ == self.member_rows().filter(
                |m: MemberRow| m.team_id == team,
            ).map_values(|m: MemberRow| m.user_id),
    {
        let mut v: Vec<u64> = Vec::new();
        let mut k: usize = 0;
        while k < self.members.len()
            invariant
                k <= self.members@.len(),
                v@ == self.members@.take(k as int).filter(|m: MemberRow| m.team_id == team).map_values(
                    |m: MemberRow| m.user_id,
                ),
                (v@.len() == 0) == !exists|j: int|
                    0 <= j < k && (#[trigger] self.members@[j]).team_id == team,
            decreases self.members@.len() - k,
        {
            let m = self.members[k];
            let ghost pre = self.members@.take(k as int);
            let ghost next = self.members@.take(k + 1);
            assert(next.drop_last() =~= pre);
            assert(next.last() == m);
            reveal(Seq::filter);
            let ghost f = next.filter(|m: MemberRow| m.team_id == team);
            let ghost g = pre.filter(|m: MemberRow| m.team_id == team);
            if m.team_id == team {
                assert(f == g.push(m));
                v.push(m.user_id);
            } else {
                assert(f == g);
            }
            assert(v@ =~= self.members@.take(k + 1).filter(|m: MemberRow| m.team_id == team).map_values(
                |m: MemberRow| m.user_id,
            ));
            k = k + 1;
        }
        assert(self.members@.take(k as int) == self.members@);
        if v.len() == 0 {
            None
        } else {
            Some(v)
        }
    }
}

/// A lookup finds the first package of the name asked for.
pub proof fn lemma_lookup_first(ix: Seq<(Seq<char>, Set<AccountId>)>, name: Seq<char>, i: int)
    requires
        0 <= i < ix.len(),
        ix[i].0 == name,
        forall|j: int| 0 <= j < i ==> (#[trigger] ix[j]).0 != name,
    ensures
        lookup(ix, name) == Some(ix[i].1),
    decreases i,
{
    if i > 0 {
        assert forall|j: int| 0 <= j < i - 1 implies (#[trigger] ix.drop_first()[j]).0 != name by {
            assert(ix.drop_first()[j] == ix[j + 1]);
        }
        lemma_lookup_first(ix.drop_first(), name, i - 1);
    }
}

/// Where every team among a package's owners has listed members, the
/// package's publishers are all users.
pub proof fn lemma_expanded_teams(owners: Seq<OwnerRow>, members: Seq<MemberRow>, package_id: u64)
    requires
        forall|i: int|
            0 <= i < owners.len() && (#[trigger] owners[i]).package_id == package_id && owners[i].kind
                == OwnerKind::Team ==> team_listed(members, owners[i].owner_id),
    ensures
        forall|a: AccountId| #[trigger]
            publishers_spec(owners, members, package_id).contains(a) ==> a is User,
{
}

/// A snapshot with package `n1` owned by user `u1`, and package `n2` owned
/// by team `t1`, whose one listed member is user `u2`, gives an index in
/// which `n1` is published by `u1` alone and `n2` by `u2` alone.
pub proof fn lemma_index_round_trip(
    t: Tables,
    n1: Seq<char>,
    n2: Seq<char>,
    pkg_a: u64,
    pkg_b: u64,
    u1: u64,
    u2: u64,
    t1: u64,
)
    requires
        n1 != n2,
        pkg_a != pkg_b,
        t.packages@.len() == 2,
        t.packages@[0].id == pkg_a,
        t.packages@[0].name@ == n1,
        t.packages@[1].id == pkg_b,
        t.packages@[1].name@ == n2,
        t.owners@ == seq![
            OwnerRow { package_id: pkg_a, owner_id: u1, kind: OwnerKind::User },
            OwnerRow { package_id: pkg_b, owner_id: t1, kind: OwnerKind::Team },
        ],
        t.members@ == seq![MemberRow { team_id: t1, user_id: u2 }],
    ensures
        lookup(index_of(t), n1) == Some(set![AccountId::User(u1)]),
        lookup(index_of(t), n2) == Some(set![AccountId::User(u2)]),
{
    let ix = index_of(t);
    let owners = t.owners@;
    let members = t.members@;
    assert(team_listed(members, t1)) by {
        assert(members[0].team_id == t1);
    }
    assert(owner_accounts(owners[1], members) =~= set![AccountId::User(u2)]) by {
        assert(listed_members(members, t1, 1).contains(AccountId::User(u2))) by {
            assert(members[0].team_id == t1);
        }
    }
    assert(owner_accounts(owners[0], members) =~= set![AccountId::User(u1)]);
    assert(publishers_spec(owners, members, pkg_a) =~= set![AccountId::User(u1)]) by {
        assert(owners[0].package_id == pkg_a);
    }
    assert(publishers_spec(owners, members, pkg_b) =~= set![AccountId::User(u2)]) by {
        assert(owners[1].package_id == pkg_b);
    }
    lemma_lookup_first(ix, n1, 0);
    lemma_lookup_first(ix, n2, 1);
}

} // verus!
