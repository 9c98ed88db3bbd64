use supply_chain::account::{AccountId, PublisherSet};
use supply_chain::index::{MemberRow, OwnerKind, OwnerRow, PackageRow, RegistryIndex, Tables};
use supply_chain::resolver::{lookups_needed, needs_live_lookup, resolve, ApiError, Package};

fn pkg_row(id: u64, name: &str) -> PackageRow {
    PackageRow { id, name: name.to_string() }
}

fn owner(package_id: u64, owner_id: u64, kind: OwnerKind) -> OwnerRow {
    OwnerRow { package_id, owner_id, kind }
}

fn set_of(accounts: &[AccountId]) -> PublisherSet {
    let mut s = PublisherSet::new();
    for a in accounts {
        s.insert(*a);
    }
    s
}

fn sorted(s: &PublisherSet) -> Vec<AccountId> {
    let mut v = s.to_vec();
    v.sort_by_key(|a| match a {
        AccountId::User(n) => (0, *n),
        AccountId::Team(n) => (1, *n),
    });
    v
}

fn package(name: &str) -> Package {
    Package { name: name.to_string(), version: None }
}

const U1: u64 = 11;
const U2: u64 = 12;
const U3: u64 = 13;
const U4: u64 = 14;
const T1: u64 = 21;
const CORE_TEAM: u64 = 22;

/// serde owned by U1; rand owned by team T1 with member U2; alpha owned by
/// core-team, whose members are not listed.
fn sample_tables() -> Tables {
    Tables {
        packages: vec![pkg_row(1, "serde"), pkg_row(2, "rand"), pkg_row(3, "alpha")],
        owners: vec![
            owner(1, U1, OwnerKind::User),
            owner(2, T1, OwnerKind::Team),
            owner(3, CORE_TEAM, OwnerKind::Team),
        ],
        members: vec![MemberRow { team_id: T1, user_id: U2 }],
    }
}

#[test]
fn index_round_trip() {
    let ix = RegistryIndex::build(&sample_tables());
    assert_eq!(ix.len(), 3);
    assert_eq!(sorted(ix.publishers_of(&"serde".to_string()).unwrap()), vec![AccountId::User(U1)]);
    assert_eq!(sorted(ix.publishers_of(&"rand".to_string()).unwrap()), vec![AccountId::User(U2)]);
    assert_eq!(
        sorted(ix.publishers_of(&"alpha".to_string()).unwrap()),
        vec![AccountId::Team(CORE_TEAM)]
    );
    assert!(ix.publishers_of(&"ghost".to_string()).is_none());
}

#[test]
fn team_members_in_table_order() {
    let t = Tables {
        packages: vec![pkg_row(1, "p")],
        owners: vec![owner(1, T1, OwnerKind::Team), owner(1, U1, OwnerKind::User)],
        members: vec![
            MemberRow { team_id: T1, user_id: U3 },
            MemberRow { team_id: CORE_TEAM, user_id: U4 },
            MemberRow { team_id: T1, user_id: U1 },
        ],
    };
    let ix = RegistryIndex::build(&t);
    assert_eq!(ix.team_members(T1), Some(vec![U3, U1]));
    assert_eq!(ix.team_members(99), None);
    // U1 is both a direct owner and a member of T1: it is listed once.
    let p = ix.publishers_of(&"p".to_string()).unwrap();
    assert_eq!(p.len(), 2);
    assert_eq!(sorted(p), vec![AccountId::User(U1), AccountId::User(U3)]);
}

#[test]
fn expanded_snapshot_needs_no_live_lookup() {
    let ix = RegistryIndex::build(&sample_tables());
    let pkgs = vec![package("serde"), package("rand")];
    assert_eq!(lookups_needed(&ix, &pkgs), vec![false, false]);
    // Whatever is handed in for them is not used.
    let answers = vec![Some(Ok(set_of(&[AccountId::User(U4)]))), Some(Err(ApiError::Transient))];
    let r = resolve(&ix, &pkgs, &answers);
    assert_eq!(sorted(&r[0].publishers), vec![AccountId::User(U1)]);
    assert_eq!(sorted(&r[1].publishers), vec![AccountId::User(U2)]);
    assert!(r[0].failure.is_none());
    assert!(r[1].failure.is_none());
}

#[test]
fn absent_package_goes_live() {
    let ix = RegistryIndex::build(&sample_tables());
    assert!(needs_live_lookup(&ix, &"newcomer".to_string()));
    let pkgs = vec![package("newcomer")];
    let answers = vec![Some(Ok(set_of(&[AccountId::User(U3)])))];
    let r = resolve(&ix, &pkgs, &answers);
    assert_eq!(sorted(&r[0].publishers), vec![AccountId::User(U3)]);
    assert!(r[0].failure.is_none());
}

#[test]
fn unexpanded_team_is_filled_by_live_api() {
    let ix = RegistryIndex::build(&sample_tables());
    let pkgs = vec![package("alpha")];
    assert_eq!(lookups_needed(&ix, &pkgs), vec![true]);
    let answers = vec![Some(Ok(set_of(&[AccountId::User(U3), AccountId::User(U4)])))];
    let r = resolve(&ix, &pkgs, &answers);
    assert_eq!(r[0].name, "alpha");
    assert_eq!(sorted(&r[0].publishers), vec![AccountId::User(U3), AccountId::User(U4)]);
    assert!(r[0].failure.is_none());
}

#[test]
fn not_found_is_annotated_and_others_complete() {
    let ix = RegistryIndex::build(&sample_tables());
    let pkgs = vec![package("ghost"), package("serde")];
    assert_eq!(lookups_needed(&ix, &pkgs), vec![true, false]);
    let answers = vec![Some(Err(ApiError::NotFound)), None];
    let r = resolve(&ix, &pkgs, &answers);
    assert_eq!(r.len(), 2);
    assert_eq!(r[0].name, "ghost");
    assert_eq!(r[0].publishers.len(), 0);
    assert_eq!(r[0].failure, Some(ApiError::NotFound));
    assert_eq!(sorted(&r[1].publishers), vec![AccountId::User(U1)]);
    assert!(r[1].failure.is_none());
}

#[test]
fn failed_team_expansion_keeps_snapshot_data() {
    let ix = RegistryIndex::build(&sample_tables());
    let pkgs = vec![package("alpha")];
    let r = resolve(&ix, &pkgs, &vec![Some(Err(ApiError::ClientError(403)))]);
    assert_eq!(sorted(&r[0].publishers), vec![AccountId::Team(CORE_TEAM)]);
    assert_eq!(r[0].failure, Some(ApiError::ClientError(403)));
    // An answer that never came is a failure too, never an empty success.
    let r = resolve(&ix, &pkgs, &vec![None]);
    assert_eq!(r[0].failure, Some(ApiError::Transient));
}

#[test]
fn output_keeps_input_order() {
    let ix = RegistryIndex::build(&sample_tables());
    let mut pkgs = vec![package("tokio"), package("serde"), package("rand")];
    pkgs[0].version = Some("1.0.0".to_string());
    let answers = vec![Some(Ok(set_of(&[AccountId::User(U4)]))), None, None];
    let r = resolve(&ix, &pkgs, &answers);
    let names: Vec<&str> = r.iter().map(|x| x.name.as_str()).collect();
    assert_eq!(names, vec!["tokio", "serde", "rand"]);
    assert_eq!(r[0].version.as_deref(), Some("1.0.0"));
    assert_eq!(sorted(&r[0].publishers), vec![AccountId::User(U4)]);
    assert_eq!(sorted(&r[1].publishers), vec![AccountId::User(U1)]);
    assert_eq!(sorted(&r[2].publishers), vec![AccountId::User(U2)]);
}

#[test]
fn publisher_set_dedups_by_account() {
    let mut s = PublisherSet::new();
    s.insert(AccountId::User(1));
    s.insert(AccountId::User(1));
    s.insert(AccountId::Team(1));
    assert_eq!(s.len(), 2);
    assert!(s.contains(AccountId::Team(1)));
    assert!(s.has_team());
    assert_eq!(s.users_only().to_vec(), vec![AccountId::User(1)]);
    let mut t = set_of(&[AccountId::User(2)]);
    t.extend(&s);
    assert_eq!(t.to_vec(), vec![AccountId::User(2), AccountId::User(1), AccountId::Team(1)]);
}

#[test]
fn missing_answer_slots_count_as_not_asked() {
    let ix = RegistryIndex::build(&sample_tables());
    let pkgs = vec![package("serde"), package("ghost")];
    let r = resolve(&ix, &pkgs, &vec![]);
    assert_eq!(r.len(), 2);
    assert_eq!(sorted(&r[0].publishers), vec![AccountId::User(U1)]);
    assert!(r[0].failure.is_none());
    assert_eq!(r[1].publishers.len(), 0);
    assert_eq!(r[1].failure, Some(ApiError::Transient));
}
