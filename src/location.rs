//! Where a store lives: its directory, and the names of its main, temporary and backup files.
use vstd::prelude::*;
use vstd::string::StringExecFns;

verus! {

/// Where the store's files are.
#[derive(Clone, Debug, PartialEq, Eq)]
pub enum DbLocation {
    /// The directory `.local/share/cred-man` under the user's home directory.
    DotLocal,
    /// A directory given by path.
    SpecifiedDirectory(String),
}

/// The three files of a store.
#[derive(Clone, Copy, Debug, PartialEq, Eq, Structural)]
pub enum PathKind {
    Main,
    Temp,
    Backup,
}

/// `name` inside the directory `dir`.
pub open spec fn join_spec(dir: Seq<char>, name: Seq<char>) -> Seq<char> {
    if dir.len() == 0 || dir.last() == '/' {
        dir + name
    } else {
        dir + seq!['/'] + name
    }
}

/// The directory of the store at `location`, for a user whose home directory is `home`.
pub open spec fn dir_spec(location: DbLocation, home: Seq<char>) -> Seq<char> {
    match location {
        DbLocation::DotLocal => join_spec(join_spec(join_spec(home, ".local"@), "share"@), "cred-man"@),
        DbLocation::SpecifiedDirectory(d) => d@,
    }
}

/// The name of a store's file of the given kind; a backup's name holds the time stamp `stamp`.
pub open spec fn file_name_spec(kind: PathKind, stamp: Seq<char>) -> Seq<char> {
    match kind {
        PathKind::Main => "keys.db"@,
        PathKind::Temp => "keys.tmp.db"@,
        PathKind::Backup => "keys.backup."@ + stamp + ".db"@,
    }
}

pub open spec fn db_path_spec(kind: PathKind, location: DbLocation, home: Seq<char>, stamp: Seq<char>) -> Seq<char> {
    join_spec(dir_spec(location, home), file_name_spec(kind, stamp))
}

/// `name` inside the directory `dir`.
pub fn join_path(dir: &str, name: &str) -> (r: String)
    ensures
        r@ == join_spec(dir@, name@),
{
    let mut r = String::from_str(dir);
    let n = dir.unicode_len();
    if n == 0 || dir.get_char(n - 1) == '/' {
        r.append(name);
    } else {
        r.append("/");
        proof {
            reveal_strlit("/");
        }
        r.append(name);
    }
    r
}

/// The path of the store's file of kind `kind` at `location`, for a user whose home
/// directory is `home`; `stamp` goes into a backup's name.
pub fn get_db_path(kind: PathKind, location: &DbLocation, home: &str, stamp: &str) -> (r: String)
    ensures
        r@ == db_path_spec(kind, *location, home@, stamp@),
{
    let dir = match location {
        DbLocation::DotLocal => {
            let local = join_path(home, ".local");
            let share = join_path(local.as_str(), "share");
            join_path(share.as_str(), "cred-man")
        },
        DbLocation::SpecifiedDirectory(d) => d.clone(),
    };
    let name = match kind {
        PathKind::Main => String::from_str("keys.db"),
        PathKind::Temp => String::from_str("keys.tmp.db"),
        PathKind::Backup => {
            let mut n = String::from_str("keys.backup.");
            n.append(stamp);
            n.append(".db");
            n
        },
    };
    join_path(dir.as_str(), name.as_str())
}

/// Relies on dirs::home_dir: the current user's home directory, when one is known. It
/// depends on the environment, so nothing is promised of it.
#[verifier::external_body]
fn home_dir() -> (r: Option<String>) {
    let path = dirs::home_dir()?;
    path.into_os_string().into_string().ok()
}

/// The path of the store's file of kind `kind` at `location`. A directory given by path
/// is used as it is; the default location needs the user's home directory, and there is
/// no path when that is unknown.
pub fn locate(kind: PathKind, location: &DbLocation, stamp: &str) -> (r: Option<String>)
    ensures
        location is SpecifiedDirectory ==> (r matches Some(p) && p@ == db_path_spec(
            kind,
            *location,
            Seq::empty(),
            stamp@,
        )),
        r matches Some(p) ==> exists|home: Seq<char>| p@ == db_path_spec(kind, *location, home, stamp@),
{
    match location {
        DbLocation::SpecifiedDirectory(_) => Some(get_db_path(kind, location, "", stamp)),
        DbLocation::DotLocal => match home_dir() {
            Some(home) => Some(get_db_path(kind, location, home.as_str(), stamp)),
            None => None,
        },
    }
}

} // verus!
