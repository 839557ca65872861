//! Decisions of the roost's command-line lifecycle: whether a roost may be
//! destroyed, the PID in its lock file, the health checks of `doctor`, and
//! the member listing of `members`.

use vstd::prelude::*;
use vstd::string::StringSliceAdditionalSpecFns;

use crate::bytes_order::{compare_bytes, lex_lt, Cmp};
use crate::text::is_white_space;

verus! {

/// Why `destroy` refuses.
#[derive(Clone, Copy, Debug, PartialEq, Eq, Structural)]
pub enum DestroyRefusal {
    /// No roost of that name exists.
    NotFound,
    /// `--force` was not given.
    NotForced,
    /// A process holds the roost's lock: it is running.
    Running,
}

/// Whether a roost may be destroyed: it must exist, `--force` must be
/// given, and it must not be running (no process holds its lock); the
/// checks come in that order.
pub fn destroy_decision(dir_exists: bool, force: bool, lock_held: bool) -> (r: Result<(), DestroyRefusal>)
    ensures
        !dir_exists ==> r == Err::<(), DestroyRefusal>(DestroyRefusal::NotFound),
        dir_exists && !force ==> r == Err::<(), DestroyRefusal>(DestroyRefusal::NotForced),
        dir_exists && force && lock_held ==> r == Err::<(), DestroyRefusal>(DestroyRefusal::Running),
        dir_exists && force && !lock_held ==> r is Ok,
{
    if !dir_exists {
        Err(DestroyRefusal::NotFound)
    } else if !force {
        Err(DestroyRefusal::NotForced)
    } else if lock_held {
        Err(DestroyRefusal::Running)
    } else {
        Ok(())
    }
}

/// `s` without its leading white space.
pub open spec fn trim_start(s: Seq<char>) -> Seq<char>
    decreases s.len(),
{
    if s.len() > 0 && is_white_space(s[0]) {
        trim_start(s.drop_first())
    } else {
        s
    }
}

/// `s` without its trailing white space.
pub open spec fn trim_end(s: Seq<char>) -> Seq<char>
    decreases s.len(),
{
    if s.len() > 0 && is_white_space(s.last()) {
        trim_end(s.drop_last())
    } else {
        s
    }
}

/// What `str::trim` leaves of a string: leading and trailing white space
/// removed.
pub open spec fn trimmed(s: Seq<char>) -> Seq<char> {
    trim_end(trim_start(s))
}

/// Calls `str::trim`, which removes leading and trailing white space.
#[verifier::external_body]
fn trim(s: &str) -> (r: &str)
    ensures
        r@ == trimmed(s@),
{
    s.trim()
}

/// The value of an ASCII decimal digit byte.
pub open spec fn digit_val(b: u8) -> Option<nat> {
    if 0x30 <= b && b <= 0x39 {
        Some((b - 0x30) as nat)
    } else {
        None
    }
}

/// The value of a string of decimal digit bytes, if it is one.
pub open spec fn digits_value(s: Seq<u8>) -> Option<nat>
    decreases s.len(),
{
    if s.len() == 0 {
        Some(0)
    } else {
        match (digits_value(s.drop_last()), digit_val(s.last())) {
            (Some(v), Some(d)) => Some(10 * v + d),
            _ => None,
        }
    }
}

/// What `u32::from_str` reads from these bytes: an optional `+`, then at
/// least one decimal digit, the value fitting in 32 bits.
pub open spec fn parse_u32_spec(s: Seq<u8>) -> Option<u32> {
    let digits = if s.len() > 0 && s[0] == 0x2bu8 { s.drop_first() } else { s };
    if digits.len() == 0 {
        None
    } else {
        match digits_value(digits) {
            Some(v) => if v <= u32::MAX {
                Some(v as u32)
            } else {
                None
            },
            None => None,
        }
    }
}

proof fn lemma_digits_value_none_extends(s: Seq<u8>, t: Seq<u8>)
    requires
        digits_value(s) is None,
    ensures
        digits_value(s + t) is None,
    decreases t.len(),
{
    if t.len() == 0 {
        assert(s + t =~= s);
    } else {
        lemma_digits_value_none_extends(s, t.drop_last());
        assert((s + t).drop_last() =~= s + t.drop_last());
    }
}

proof fn lemma_digits_value_monotone(s: Seq<u8>, t: Seq<u8>)
    requires
        digits_value(s) is Some,
        digits_value(s + t) is Some,
    ensures
        digits_value(s + t).unwrap() >= digits_value(s).unwrap(),
    decreases t.len(),
{
    if t.len() == 0 {
        assert(s + t =~= s);
    } else {
        assert((s + t).drop_last() =~= s + t.drop_last());
        lemma_digits_value_monotone(s, t.drop_last());
    }
}

/// Reads a number as `u32::from_str` does.
pub fn parse_u32(s: &str) -> (r: Option<u32>)
    ensures
        r == parse_u32_spec(s.spec_bytes()),
{
    let b = s.as_bytes();
    let n = b.len();
    let start: usize = if n > 0 && b[0] == 0x2b { 1 } else { 0 };
    let ghost digits = if b@.len() > 0 && b@[0] == 0x2bu8 { b@.drop_first() } else { b@ };
    assert(digits =~= b@.subrange(start as int, n as int));
    if start == n {
        return None;
    }
    let mut value: u64 = 0;
    let mut i: usize = start;
    while i < n
        invariant
            start <= i <= n,
            n == b@.len(),
            b@ == s.spec_bytes(),
            start < n,
            digits == (if b@.len() > 0 && b@[0] == 0x2bu8 { b@.drop_first() } else { b@ }),
            digits == b@.subrange(start as int, n as int),
            digits_value(b@.subrange(start as int, i as int)) == Some(value as nat),
            value <= u32::MAX,
        decreases n - i,
    {
        let ghost pre = b@.subrange(start as int, i as int);
        let ghost next = b@.subrange(start as int, i + 1);
        assert(next.drop_last() =~= pre);
        assert(next.last() == b@[i as int]);
        if b[i] < 0x30 || b[i] > 0x39 {
            proof {
                assert(digits =~= next + b@.subrange(i + 1, n as int));
                lemma_digits_value_none_extends(next, b@.subrange(i + 1, n as int));
            }
            return None;
        }
        value = value * 10 + (b[i] - 0x30) as u64;
        if value > 0xffff_ffff {
            proof {
                assert(digits =~= next + b@.subrange(i + 1, n as int));
                if digits_value(digits) is Some {
                    lemma_digits_value_monotone(next, b@.subrange(i + 1, n as int));
                }
            }
            return None;
        }
        i = i + 1;
    }
    Some(value as u32)
}

/// Reads the PID that a running roost wrote to its lock file, as
/// `request_shutdown` reads it: white space around it is ignored.
pub fn parse_pid(contents: &str) -> (r: Option<u32>)
    ensures
        r == parse_u32_spec(vstd::utf8::encode_utf8(trimmed(contents@))),
{
    parse_u32(trim(contents))
}

/// The roost's identity key file, as `doctor` finds it.
#[derive(Clone, Copy, Debug, PartialEq, Eq, Structural)]
pub enum KeyFile {
    Missing,
    /// Present, with its size in bytes.
    Present(u64),
}

/// What `doctor` found in one of the database's trees.
#[derive(Clone, Copy, Debug, PartialEq, Eq, Structural)]
pub enum TreeReport {
    /// The tree could not be opened.
    OpenFailed,
    /// Scanning the tree failed.
    ScanFailed,
    /// The tree was scanned; it holds this many entries.
    Scanned(usize),
}

/// What `doctor` read as the history schema version.
#[derive(Clone, Copy, Debug, PartialEq, Eq, Structural)]
pub enum SchemaReport {
    /// Reading it failed.
    ReadFailed,
    /// It is not there.
    Missing,
    /// It is the supported version `1`.
    Supported,
    /// It is some other version.
    Unsupported,
}

/// The database, as `doctor` finds it with the roost stopped.
pub enum DatabaseReport {
    Missing,
    /// It could not be opened.
    Unreadable,
    /// It opened; the five trees `events`, `space_index`, `session_heads`,
    /// `heads` and `schema` were checked in that order, and the schema
    /// version was read when the `schema` tree scanned.
    Trees(Vec<TreeReport>, SchemaReport),
}

/// A problem `doctor` reports.
#[derive(Clone, Copy, Debug, PartialEq, Eq, Structural)]
pub enum Issue {
    KeyMissing,
    /// The identity key has this many bytes, not 32.
    KeyWrongSize(u64),
    DatabaseMissing,
    /// The database file has this many bytes, less than one page.
    DatabaseTooSmall(u64),
    DatabaseUnreadable,
    /// The tree at this index could not be opened.
    TreeUnavailable(usize),
    /// Scanning the tree at this index failed.
    TreeScanFailed(usize),
    SchemaReadFailed,
    SchemaMissing,
    SchemaUnsupported,
}

/// The size below which a database file cannot be a valid sled database.
pub const MIN_DATABASE_BYTES: u64 = 4096;

/// The index of the `schema` tree among the checked trees.
pub const SCHEMA_TREE: usize = 4;

/// The history schema version this roost reads and writes.
pub open spec fn schema_version() -> Seq<u8> {
    seq![0x31u8]
}

/// What the stored history schema version says: none stored, the supported
/// version `1`, or another one.
pub fn schema_status(stored: Option<&[u8]>) -> (r: SchemaReport)
    ensures
        match stored {
            None => r == SchemaReport::Missing,
            Some(v) => if v@ == schema_version() {
                r == SchemaReport::Supported
            } else {
                r == SchemaReport::Unsupported
            },
        },
{
    match stored {
        None => SchemaReport::Missing,
        Some(v) => {
            if v.len() == 1 && v[0] == 0x31 {
                assert(v@ =~= schema_version());
                SchemaReport::Supported
            } else {
                assert(v@ != schema_version()) by {
                    if v@.len() == 1 {
                        assert(v@[0] != schema_version()[0]);
                    }
                }
                SchemaReport::Unsupported
            }
        },
    }
}

/// The issue with the identity key, if any.
pub open spec fn key_issue_spec(key: KeyFile) -> Option<Issue> {
    match key {
        KeyFile::Missing => Some(Issue::KeyMissing),
        KeyFile::Present(size) => if size != 32 {
            Some(Issue::KeyWrongSize(size))
        } else {
            None
        },
    }
}

/// The issue with the identity key, if any: it must exist and hold exactly
/// 32 bytes.
pub fn key_issue(key: KeyFile) -> (r: Option<Issue>)
    ensures
        r == key_issue_spec(key),
{
    match key {
        KeyFile::Missing => Some(Issue::KeyMissing),
        KeyFile::Present(size) => if size != 32 {
            Some(Issue::KeyWrongSize(size))
        } else {
            None
        },
    }
}

/// The issue with the database file while the roost runs, if any: it must
/// exist and hold at least one page. `None` for a missing file.
pub fn readonly_database_issue(size: Option<u64>) -> (r: Option<Issue>)
    ensures
        size is None ==> r == Some(Issue::DatabaseMissing),
        match size {
            Some(s) => if s < MIN_DATABASE_BYTES {
                r == Some(Issue::DatabaseTooSmall(s))
            } else {
                r is None
            },
            None => true,
        },
{
    match size {
        None => Some(Issue::DatabaseMissing),
        Some(s) => if s < MIN_DATABASE_BYTES {
            Some(Issue::DatabaseTooSmall(s))
        } else {
            None
        },
    }
}

/// The issue with the tree at index `i`, if any.
pub open spec fn tree_issue_spec(i: int, t: TreeReport, schema: SchemaReport) -> Option<Issue> {
    match t {
        TreeReport::OpenFailed => Some(Issue::TreeUnavailable(i as usize)),
        TreeReport::ScanFailed => Some(Issue::TreeScanFailed(i as usize)),
        TreeReport::Scanned(_) => if i == SCHEMA_TREE {
            match schema {
                SchemaReport::ReadFailed => Some(Issue::SchemaReadFailed),
                SchemaReport::Missing => Some(Issue::SchemaMissing),
                SchemaReport::Unsupported => Some(Issue::SchemaUnsupported),
                SchemaReport::Supported => None,
            }
        } else {
            None
        },
    }
}

/// The issues of the trees from index 0 up to `n`, in order.
pub open spec fn tree_issues_spec(trees: Seq<TreeReport>, schema: SchemaReport, n: int) -> Seq<Issue>
    decreases n,
{
    if n <= 0 {
        Seq::empty()
    } else {
        let before = tree_issues_spec(trees, schema, n - 1);
        match tree_issue_spec(n - 1, trees[n - 1], schema) {
            Some(issue) => before.push(issue),
            None => before,
        }
    }
}

/// The issues `doctor` reports for a stopped roost, in order: the key's,
/// then the database's.
pub open spec fn doctor_issues_spec(key: KeyFile, db: DatabaseReport) -> Seq<Issue> {
    let k: Seq<Issue> = match key_issue_spec(key) {
        Some(i) => seq![i],
        None => Seq::empty(),
    };
    k + match db {
        DatabaseReport::Missing => seq![Issue::DatabaseMissing],
        DatabaseReport::Unreadable => seq![Issue::DatabaseUnreadable],
        DatabaseReport::Trees(trees, schema) => tree_issues_spec(trees@, schema, trees@.len() as int),
    }
}

/// The issues `doctor` reports for a stopped roost.
pub fn doctor_issues(key: KeyFile, db: &DatabaseReport) -> (r: Vec<Issue>)
    ensures
        r@ == doctor_issues_spec(key, *db),
{
    let mut out: Vec<Issue> = Vec::new();
    match key_issue(key) {
        Some(i) => out.push(i),
        None => {},
    }
    let ghost k = out@;
    match db {
        DatabaseReport::Missing => {
            out.push(Issue::DatabaseMissing);
        },
        DatabaseReport::Unreadable => {
            out.push(Issue::DatabaseUnreadable);
        },
        DatabaseReport::Trees(trees, schema) => {
            let mut i: usize = 0;
            while i < trees.len()
                invariant
                    i <= trees@.len(),
                    out@ == k + tree_issues_spec(trees@, *schema, i as int),
                decreases trees@.len() - i,
            {
                let issue: Option<Issue> = match trees[i] {
                    TreeReport::OpenFailed => Some(Issue::TreeUnavailable(i)),
                    TreeReport::ScanFailed => Some(Issue::TreeScanFailed(i)),
                    TreeReport::Scanned(_) => if i == SCHEMA_TREE {
                        match schema {
                            SchemaReport::ReadFailed => Some(Issue::SchemaReadFailed),
                            SchemaReport::Missing => Some(Issue::SchemaMissing),
                            SchemaReport::Unsupported => Some(Issue::SchemaUnsupported),
                            SchemaReport::Supported => None,
                        }
                    } else {
                        None
                    },
                };
                assert(issue == tree_issue_spec(i as int, trees@[i as int], *schema));
                match issue {
                    Some(x) => {
                        out.push(x);
                        assert(out@ =~= k + tree_issues_spec(trees@, *schema, i + 1));
                    },
                    None => {
                        assert(out@ =~= k + tree_issues_spec(trees@, *schema, i + 1));
                    },
                }
                i = i + 1;
            }
        },
    }
    assert(out@ =~= doctor_issues_spec(key, *db));
    out
}

/// The names of the roles at the given indices that exist, in order.
pub open spec fn role_names_spec(indices: Seq<usize>, roles: Seq<Seq<char>>) -> Seq<Seq<char>>
    decreases indices.len(),
{
    if indices.len() == 0 {
        Seq::empty()
    } else {
        let before = role_names_spec(indices.drop_last(), roles);
        if indices.last() < roles.len() {
            before.push(roles[indices.last() as int])
        } else {
            before
        }
    }
}

/// The names of a member's roles, skipping indices with no role.
pub fn role_names(indices: &Vec<usize>, roles: &Vec<String>) -> (r: Vec<String>)
    ensures
        crate::text::string_views(r@) == role_names_spec(indices@, crate::text::string_views(roles@)),
{
    let mut out: Vec<String> = Vec::new();
    let mut i: usize = 0;
    while i < indices.len()
        invariant
            i <= indices@.len(),
            crate::text::string_views(out@) == role_names_spec(
                indices@.subrange(0, i as int),
                crate::text::string_views(roles@),
            ),
        decreases indices@.len() - i,
    {
        let ghost next = indices@.subrange(0, i + 1);
        assert(next.drop_last() =~= indices@.subrange(0, i as int));
        let idx = indices[i];
        if idx < roles.len() {
            out.push(roles[idx].clone());
            assert(crate::text::string_views(out@) =~= role_names_spec(
                next,
                crate::text::string_views(roles@),
            ));
        }
        i = i + 1;
    }
    assert(indices@.subrange(0, indices@.len() as int) =~= indices@);
    out
}

/// Inserts a member after every member whose id does not sort after its id.
pub open spec fn insert_member(d: Seq<([u8; 32], Vec<usize>)>, m: ([u8; 32], Vec<usize>)) -> Seq<([u8; 32], Vec<usize>)>
    decreases d.len(),
{
    if d.len() == 0 {
        seq![m]
    } else if lex_lt(m.0@, d.last().0@) {
        insert_member(d.drop_last(), m).push(d.last())
    } else {
        d.push(m)
    }
}

/// Members sorted by id (a stable sort).
pub open spec fn sort_members_spec(c: Seq<([u8; 32], Vec<usize>)>) -> Seq<([u8; 32], Vec<usize>)>
    decreases c.len(),
{
    if c.len() == 0 {
        Seq::empty()
    } else {
        insert_member(sort_members_spec(c.drop_last()), c.last())
    }
}

proof fn lemma_insert_member_at(d: Seq<([u8; 32], Vec<usize>)>, m: ([u8; 32], Vec<usize>), p: int)
    requires
        0 <= p <= d.len(),
        forall|q: int| p <= q < d.len() ==> lex_lt(m.0@, (#[trigger] d[q]).0@),
        p > 0 ==> !lex_lt(m.0@, d[p - 1].0@),
    ensures
        insert_member(d, m) == d.subrange(0, p) + seq![m] + d.subrange(p, d.len() as int),
    decreases d.len(),
{
    if d.len() == 0 {
        assert(d.subrange(0, p) + seq![m] + d.subrange(p, d.len() as int) =~= seq![m]);
    } else if p == d.len() {
        assert(d.subrange(0, p) + seq![m] + d.subrange(p, d.len() as int) =~= d.push(m));
    } else {
        let dl = d.drop_last();
        assert forall|q: int| p <= q < dl.len() implies lex_lt(m.0@, (#[trigger] dl[q]).0@) by {
            assert(dl[q] == d[q]);
        }
        lemma_insert_member_at(dl, m, p);
        assert((dl.subrange(0, p) + seq![m] + dl.subrange(p, dl.len() as int)).push(d.last())
            =~= d.subrange(0, p) + seq![m] + d.subrange(p, d.len() as int));
    }
}

/// Inserts a member at its stable sorted place.
fn insert_member_exec(d: &mut Vec<([u8; 32], Vec<usize>)>, m: ([u8; 32], Vec<usize>))
    ensures
        final(d)@ == insert_member(old(d)@, m),
{
    let mut p: usize = d.len();
    while p > 0 && compare_bytes(&m.0, &d[p - 1].0) == Cmp::Less
        invariant
            p <= d.len(),
            d@ == old(d)@,
            forall|q: int| p <= q < d.len() ==> lex_lt(m.0@, (#[trigger] d@[q]).0@),
        decreases p,
    {
        p = p - 1;
    }
    proof {
        lemma_insert_member_at(d@, m, p as int);
    }
    d.insert(p, m);
    assert(d@ =~= old(d)@.subrange(0, p as int) + seq![m] + old(d)@.subrange(p as int, old(d)@.len() as int));
}

/// Sorts the members by id, for listing.
pub fn sort_members(c: Vec<([u8; 32], Vec<usize>)>) -> (r: Vec<([u8; 32], Vec<usize>)>)
    ensures
        r@ == sort_members_spec(c@),
{
    let ghost original = c@;
    let mut c = c;
    let mut d: Vec<([u8; 32], Vec<usize>)> = Vec::new();
    let ghost mut k: int = 0;
    assert(original.subrange(0, 0) =~= Seq::<([u8; 32], Vec<usize>)>::empty());
    while c.len() > 0
        invariant
            0 <= k <= original.len(),
            c@ == original.subrange(k, original.len() as int),
            d@ == sort_members_spec(original.subrange(0, k)),
        decreases c@.len(),
    {
        let m = c.remove(0);
        proof {
            assert(original.subrange(0, k + 1).drop_last() =~= original.subrange(0, k));
            assert(original.subrange(0, k + 1).last() == m);
        }
        insert_member_exec(&mut d, m);
        proof {
            k = k + 1;
        }
        assert(c@ =~= original.subrange(k, original.len() as int));
    }
    assert(original.subrange(0, k) =~= original);
    d
}

} // verus!
