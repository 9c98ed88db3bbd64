//! The snapshot store and fetcher: when a snapshot on disk may be used, and
//! what of a downloaded dump is kept.
//!
//! Reading and writing the files, and the rename that installs a new
//! snapshot in one step, happen outside the library; the checks on what was
//! found or received are made here.
use vstd::prelude::*;
use vstd::string::StrSliceExecFns;
use crate::cli::text_eq;
use crate::freshness::{fresh, is_fresh, MaxAge};

verus! {

/// The tables that a snapshot holds: four always, and the team
/// memberships where the dump has them.
#[derive(Clone, Copy, Debug, PartialEq, Eq, Structural)]
pub enum TableFile {
    Packages,
    Owners,
    Users,
    Teams,
    Members,
}

/// What was found in the snapshot directory.
#[derive(Clone, Copy, Debug, PartialEq, Eq, Structural)]
pub struct StoreListing {
    /// The acquisition time that the sidecar records, in seconds.
    pub timestamp: Option<u64>,
    pub has_packages: bool,
    pub has_owners: bool,
    pub has_users: bool,
    pub has_teams: bool,
    /// The team-membership table, which a dump need not hold.
    pub has_members: bool,
}

/// A complete snapshot on disk.
#[derive(Clone, Copy, Debug, PartialEq, Eq, Structural)]
pub struct Snapshot {
    /// When its download completed, in seconds.
    pub acquired_at: u64,
    /// Whether it holds the team-membership table; without it, every team
    /// owner stays unexpanded.
    pub has_members: bool,
}

/// The snapshot that a listing shows: there is one only where the
/// acquisition time and the four required tables are there; the membership
/// table is used where it is there too.
pub fn current_snapshot(l: &StoreListing) -> (r: Option<Snapshot>)
    ensures
        r is Some <==> (l.timestamp is Some && l.has_packages && l.has_owners && l.has_users
            && l.has_teams),
        r matches Some(s) ==> l.timestamp == Some(s.acquired_at) && s.has_members == l.has_members,
{
    match l.timestamp {
        Some(t) => if l.has_packages && l.has_owners && l.has_users && l.has_teams {
            Some(Snapshot { acquired_at: t, has_members: l.has_members })
        } else {
            None
        },
        None => None,
    }
}

impl Snapshot {
    /// Is the snapshot still fresh at `now` (seconds)?
    pub fn is_fresh(&self, now: u64, max_age: MaxAge) -> (r: bool)
        requires
            max_age.wf(),
        ensures
            r == fresh(self.acquired_at as int, now as int, max_age),
    {
        is_fresh(self.acquired_at, now, max_age)
    }
}

/// Why a dump could not be fetched.
#[derive(Clone, Copy, Debug, PartialEq, Eq, Structural)]
pub enum FetchError {
    /// The registry could not be reached.
    Network,
    /// The registry answered with a status other than 2xx.
    HttpStatus(u16),
    /// Fewer or more bytes arrived than the response announced.
    Truncated,
    /// The archive could not be unpacked.
    Unpack,
}

/// Was a download complete? A status other than 2xx fails first; then the
/// bytes received must match the announced length, where one was announced.
pub fn check_download(status: u16, received: u64, content_length: Option<u64>) -> (r: Result<
    (),
    FetchError,
>)
    ensures
        !(200 <= status <= 299) ==> r == Err::<(), FetchError>(FetchError::HttpStatus(status)),
        (200 <= status <= 299) ==> (r is Ok <==> (content_length is None || content_length
            == Some(received))),
        (200 <= status <= 299) && r is Err ==> r == Err::<(), FetchError>(FetchError::Truncated),
{
    if status < 200 || status > 299 {
        return Err(FetchError::HttpStatus(status));
    }
    match content_length {
        Some(n) => if n == received {
            Ok(())
        } else {
            Err(FetchError::Truncated)
        },
        None => Ok(()),
    }
}

/// Does `path` end with `suffix`?
pub open spec fn ends_with(path: Seq<char>, suffix: Seq<char>) -> bool {
    suffix.len() <= path.len() && path.skip(path.len() - suffix.len()) == suffix
}

fn has_suffix(path: &str, suffix: &str) -> (r: bool)
    ensures
        r == ends_with(path@, suffix@),
{
    let n = path.unicode_len();
    let k = suffix.unicode_len();
    if k > n {
        return false;
    }
    let tail = path.substring_char(n - k, n);
    assert(tail@ == path@.skip(n - k)) by {
        assert(path@.subrange((n - k) as int, n as int) =~= path@.skip(n - k));
    }
    text_eq(tail, suffix)
}

/// The table that an archive entry holds, by the end of its path; none for
/// the entries that are not kept.
pub open spec fn entry_table(path: Seq<char>) -> Option<TableFile> {
    if ends_with(path, "/data/crates.csv"@) {
        Some(TableFile::Packages)
    } else if ends_with(path, "/data/crate_owners.csv"@) {
        Some(TableFile::Owners)
    } else if ends_with(path, "/data/users.csv"@) {
        Some(TableFile::Users)
    } else if ends_with(path, "/data/teams.csv"@) {
        Some(TableFile::Teams)
    } else if ends_with(path, "/data/team_members.csv"@) {
        Some(TableFile::Members)
    } else {
        None
    }
}

/// Which table an entry of the dump archive holds, if it is kept.
pub fn wanted_entry(path: &str) -> (r: Option<TableFile>)
    ensures
        r == entry_table(path@),
{
    if has_suffix(path, "/data/crates.csv") {
        Some(TableFile::Packages)
    } else if has_suffix(path, "/data/crate_owners.csv") {
        Some(TableFile::Owners)
    } else if has_suffix(path, "/data/users.csv") {
        Some(TableFile::Users)
    } else if has_suffix(path, "/data/teams.csv") {
        Some(TableFile::Teams)
    } else if has_suffix(path, "/data/team_members.csv") {
        Some(TableFile::Members)
    } else {
        None
    }
}

} // verus!
