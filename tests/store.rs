use supply_chain::freshness::MaxAge;
use supply_chain::store::{check_download, current_snapshot, wanted_entry, FetchError, StoreListing, TableFile};

fn full(timestamp: Option<u64>) -> StoreListing {
    StoreListing { timestamp, has_packages: true, has_owners: true, has_users: true, has_teams: true, has_members: false }
}

#[test]
fn snapshot_needs_all_tables_and_timestamp() {
    assert_eq!(current_snapshot(&full(Some(5))).unwrap().acquired_at, 5);
    assert!(!current_snapshot(&full(Some(5))).unwrap().has_members);
    let with_members = StoreListing { has_members: true, ..full(Some(5)) };
    assert!(current_snapshot(&with_members).unwrap().has_members);
    assert!(current_snapshot(&full(None)).is_none());
    let partial = StoreListing { has_teams: false, ..full(Some(5)) };
    assert!(current_snapshot(&partial).is_none());
}

#[test]
fn snapshot_freshness() {
    let s = current_snapshot(&full(Some(1000))).unwrap();
    assert!(s.is_fresh(1000 + 47 * 3600, MaxAge::default_max_age()));
    assert!(!s.is_fresh(1000 + 48 * 3600, MaxAge::default_max_age()));
}

#[test]
fn downloads_are_checked() {
    assert_eq!(check_download(200, 10, Some(10)), Ok(()));
    assert_eq!(check_download(200, 10, None), Ok(()));
    assert_eq!(check_download(200, 9, Some(10)), Err(FetchError::Truncated));
    assert_eq!(check_download(503, 10, Some(10)), Err(FetchError::HttpStatus(503)));
}

#[test]
fn only_needed_tables_are_kept() {
    assert_eq!(wanted_entry("2024-01-01-020017/data/crates.csv"), Some(TableFile::Packages));
    assert_eq!(wanted_entry("2024-01-01-020017/data/crate_owners.csv"), Some(TableFile::Owners));
    assert_eq!(wanted_entry("2024-01-01-020017/data/users.csv"), Some(TableFile::Users));
    assert_eq!(wanted_entry("2024-01-01-020017/data/teams.csv"), Some(TableFile::Teams));
    assert_eq!(wanted_entry("2024-01-01-020017/data/team_members.csv"), Some(TableFile::Members));
    assert_eq!(wanted_entry("2024-01-01-020017/data/versions.csv"), None);
    assert_eq!(wanted_entry("crates.csv"), None);
}
