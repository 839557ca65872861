//! Where a roost keeps its files: `<roosts dir>/<name>/` holding the sled
//! database, the identity key, the lock file and the logs.

use std::path::PathBuf;
use vstd::prelude::*;

verus! {

#[verifier::external_type_specification]
#[verifier::external_body]
pub struct ExPathBuf(PathBuf);

/// What `Path::join` returns for a base path and one relative segment.
pub uninterp spec fn path_join(base: PathBuf, segment: Seq<char>) -> PathBuf;

/// An ASCII letter, digit, `-`, `_` or `.`.
pub open spec fn is_plain_char(c: char) -> bool {
    ('a' <= c && c <= 'z') || ('A' <= c && c <= 'Z') || ('0' <= c && c <= '9') || c == '-' || c == '_'
        || c == '.'
}

/// Every character of `s` is plain.
pub open spec fn plain_chars(s: Seq<char>) -> bool
    decreases s.len(),
{
    s.len() == 0 || (is_plain_char(s[0]) && plain_chars(s.drop_first()))
}

/// One plain path component: non-empty, made of ASCII letters, digits,
/// `-`, `_` and `.`, and neither `.` nor `..`.
pub open spec fn is_plain_segment(s: Seq<char>) -> bool {
    &&& s.len() > 0
    &&& s != seq!['.']
    &&& s != seq!['.', '.']
    &&& plain_chars(s)
}

/// The names of a roost's files are plain and different from each other.
proof fn lemma_file_names()
    ensures
        is_plain_segment("roost.db"@),
        is_plain_segment("identity.key"@),
        is_plain_segment("lock.pid"@),
        "roost.db"@ != "identity.key"@,
        "roost.db"@ != "lock.pid"@,
        "identity.key"@ != "lock.pid"@,
{
    reveal_strlit("roost.db");
    reveal_strlit("identity.key");
    reveal_strlit("lock.pid");
    reveal_with_fuel(plain_chars, 13);
    assert("roost.db"@.len() == 8);
    assert("identity.key"@.len() == 12);
    assert("lock.pid"@.len() == 8);
}

/// Calls `std::path::Path::join`; the result is named
/// `path_join(base, segment)`. A plain segment is a relative path, which
/// `join` appends to the base (after a separator where one is needed), so
/// two different plain segments joined to one base give different paths.
#[verifier::external_body]
fn join(base: &PathBuf, segment: &str) -> (r: PathBuf)
    ensures
        r == path_join(*base, segment@),
        forall|other: Seq<char>|
            is_plain_segment(segment@) && is_plain_segment(other) && other != segment@ ==> r != #[trigger] path_join(
                *base,
                other,
            ),
{
    base.join(segment)
}

/// The directory of roost `name` under the directory that holds all roosts.
pub fn roost_data_dir(roosts_dir: &PathBuf, name: &str) -> (r: PathBuf)
    ensures
        r == path_join(*roosts_dir, name@),
        forall|other: Seq<char>|
            is_plain_segment(name@) && is_plain_segment(other) && other != name@ ==> r != #[trigger] path_join(
                *roosts_dir,
                other,
            ),
{
    join(roosts_dir, name)
}

/// The sled database of roost `name`.
pub fn roost_db_path(roosts_dir: &PathBuf, name: &str) -> (r: PathBuf)
    ensures
        r == path_join(path_join(*roosts_dir, name@), "roost.db"@),
        r != path_join(path_join(*roosts_dir, name@), "identity.key"@),
        r != path_join(path_join(*roosts_dir, name@), "lock.pid"@),
{
    let dir = roost_data_dir(roosts_dir, name);
    proof {
        lemma_file_names();
    }
    join(&dir, "roost.db")
}

/// The 32-byte identity key of roost `name`.
pub fn roost_key_path(roosts_dir: &PathBuf, name: &str) -> (r: PathBuf)
    ensures
        r == path_join(path_join(*roosts_dir, name@), "identity.key"@),
        r != path_join(path_join(*roosts_dir, name@), "roost.db"@),
        r != path_join(path_join(*roosts_dir, name@), "lock.pid"@),
{
    let dir = roost_data_dir(roosts_dir, name);
    proof {
        lemma_file_names();
    }
    join(&dir, "identity.key")
}

/// The lock file, holding the PID, of a running roost `name`.
pub fn roost_lock_path(roosts_dir: &PathBuf, name: &str) -> (r: PathBuf)
    ensures
        r == path_join(path_join(*roosts_dir, name@), "lock.pid"@),
        r != path_join(path_join(*roosts_dir, name@), "roost.db"@),
        r != path_join(path_join(*roosts_dir, name@), "identity.key"@),
{
    let dir = roost_data_dir(roosts_dir, name);
    proof {
        lemma_file_names();
    }
    join(&dir, "lock.pid")
}

/// The current log file of roost `name`.
pub fn roost_log_path(roosts_dir: &PathBuf, name: &str) -> (r: PathBuf)
    ensures
        r == path_join(path_join(*roosts_dir, name@), "logs/latest.log"@),
{
    let dir = roost_data_dir(roosts_dir, name);
    join(&dir, "logs/latest.log")
}

} // verus!
