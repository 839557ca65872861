use starling_server::lifecycle::{
    destroy_decision, doctor_issues, key_issue, readonly_database_issue, role_names, sort_members,
    parse_pid, schema_status, DatabaseReport, DestroyRefusal, Issue, KeyFile, SchemaReport, TreeReport,
};

#[test]
fn destroy_checks_existence_then_force_then_lock() {
    assert_eq!(destroy_decision(false, true, true), Err(DestroyRefusal::NotFound));
    assert_eq!(destroy_decision(true, false, true), Err(DestroyRefusal::NotForced));
    assert_eq!(destroy_decision(true, true, true), Err(DestroyRefusal::Running));
    assert_eq!(destroy_decision(true, true, false), Ok(()));
}

#[test]
fn lock_file_pid_ignores_surrounding_white_space() {
    assert_eq!(parse_pid("  42\n"), Some(42));
    assert_eq!(parse_pid("\u{3000}7\u{a0}"), Some(7));
    assert_eq!(parse_pid("4 2"), None);
    assert_eq!(parse_pid("\t"), None);
}

#[test]
fn key_file_must_hold_32_bytes() {
    assert_eq!(key_issue(KeyFile::Missing), Some(Issue::KeyMissing));
    assert_eq!(key_issue(KeyFile::Present(31)), Some(Issue::KeyWrongSize(31)));
    assert_eq!(key_issue(KeyFile::Present(32)), None);
}

#[test]
fn running_database_must_hold_a_page() {
    assert_eq!(readonly_database_issue(None), Some(Issue::DatabaseMissing));
    assert_eq!(readonly_database_issue(Some(4095)), Some(Issue::DatabaseTooSmall(4095)));
    assert_eq!(readonly_database_issue(Some(4096)), None);
}

#[test]
fn doctor_reports_key_then_database_issues_in_order() {
    assert_eq!(
        doctor_issues(KeyFile::Present(32), &DatabaseReport::Missing),
        vec![Issue::DatabaseMissing]
    );
    assert_eq!(
        doctor_issues(KeyFile::Missing, &DatabaseReport::Unreadable),
        vec![Issue::KeyMissing, Issue::DatabaseUnreadable]
    );
    let healthy = DatabaseReport::Trees(
        vec![TreeReport::Scanned(3), TreeReport::Scanned(0), TreeReport::Scanned(1), TreeReport::Scanned(0), TreeReport::Scanned(1)],
        SchemaReport::Supported,
    );
    assert_eq!(doctor_issues(KeyFile::Present(32), &healthy), vec![]);
    let broken = DatabaseReport::Trees(
        vec![TreeReport::OpenFailed, TreeReport::Scanned(0), TreeReport::ScanFailed, TreeReport::Scanned(0), TreeReport::Scanned(1)],
        SchemaReport::Unsupported,
    );
    assert_eq!(
        doctor_issues(KeyFile::Present(5), &broken),
        vec![
            Issue::KeyWrongSize(5),
            Issue::TreeUnavailable(0),
            Issue::TreeScanFailed(2),
            Issue::SchemaUnsupported
        ]
    );
    // The schema is only judged when its tree could be scanned.
    let schema_tree_failed = DatabaseReport::Trees(
        vec![TreeReport::Scanned(0), TreeReport::Scanned(0), TreeReport::Scanned(0), TreeReport::Scanned(0), TreeReport::OpenFailed],
        SchemaReport::Missing,
    );
    assert_eq!(doctor_issues(KeyFile::Present(32), &schema_tree_failed), vec![Issue::TreeUnavailable(4)]);
    let schema_missing = DatabaseReport::Trees(
        vec![TreeReport::Scanned(0), TreeReport::Scanned(0), TreeReport::Scanned(0), TreeReport::Scanned(0), TreeReport::Scanned(0)],
        SchemaReport::Missing,
    );
    assert_eq!(doctor_issues(KeyFile::Present(32), &schema_missing), vec![Issue::SchemaMissing]);
    let schema_unread = DatabaseReport::Trees(
        vec![TreeReport::Scanned(0), TreeReport::Scanned(0), TreeReport::Scanned(0), TreeReport::Scanned(0), TreeReport::Scanned(0)],
        SchemaReport::ReadFailed,
    );
    assert_eq!(doctor_issues(KeyFile::Present(32), &schema_unread), vec![Issue::SchemaReadFailed]);
}

#[test]
fn role_names_skip_missing_roles() {
    let roles: Vec<String> = vec!["admin".into(), "mod".into()];
    assert_eq!(role_names(&vec![1, 5, 0, 1], &roles), vec!["mod", "admin", "mod"]);
    assert!(role_names(&vec![], &roles).is_empty());
    assert!(role_names(&vec![0], &vec![]).is_empty());
}

#[test]
fn members_sort_by_id_and_keep_equal_ids_in_order() {
    let mut a = [0u8; 32];
    a[0] = 1;
    let mut b = [0u8; 32];
    b[0] = 1;
    b[31] = 1;
    let c = [0u8; 32];
    let sorted = sort_members(vec![(b, vec![1]), (a, vec![2]), (c, vec![3]), (a, vec![4])]);
    let order: Vec<([u8; 32], Vec<usize>)> = vec![(c, vec![3]), (a, vec![2]), (a, vec![4]), (b, vec![1])];
    assert_eq!(sorted, order);
    assert!(sort_members(vec![]).is_empty());
}

#[test]
fn history_schema_version_one_is_supported() {
    assert_eq!(schema_status(None), SchemaReport::Missing);
    assert_eq!(schema_status(Some(b"1")), SchemaReport::Supported);
    assert_eq!(schema_status(Some(b"2")), SchemaReport::Unsupported);
    assert_eq!(schema_status(Some(b"10")), SchemaReport::Unsupported);
    assert_eq!(schema_status(Some(b"")), SchemaReport::Unsupported);
}
