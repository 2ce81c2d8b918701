use surge::models::Timestamp;
use surge::platform::Platform;
use surge::sanitizer::{expand_home, PathProbe, PathSanitizer, ValidationError};

const DAY: i64 = 86_400;

fn now() -> Timestamp {
    Timestamp::new(1_700_000_000, 0)
}

fn days_ago(days: i64) -> Timestamp {
    Timestamp::new(1_700_000_000 - days * DAY, 0)
}

/// A path that exists, resolves to itself and was modified `age_days` days ago.
fn resolved(path: &str, age_days: i64) -> PathProbe {
    PathProbe {
        path: path.to_string(),
        home: Some("/Users/alice".to_string()),
        canonical: Some(path.to_string()),
        parent_exists: true,
        exists: true,
        modified: Some(days_ago(age_days)),
    }
}

/// A path that does not exist while its parent does.
fn missing(path: &str) -> PathProbe {
    PathProbe {
        path: path.to_string(),
        home: Some("/Users/alice".to_string()),
        canonical: None,
        parent_exists: true,
        exists: false,
        modified: None,
    }
}

#[test]
fn test_blacklisted_paths() {
    let sanitizer = PathSanitizer::default();

    assert!(sanitizer.sanitize_path(&resolved("/System", 3650), &now()).is_err());
    assert!(sanitizer.sanitize_path(&resolved("/bin", 3650), &now()).is_err());
    assert!(sanitizer.sanitize_path(&resolved("/usr/bin", 3650), &now()).is_err());
}

#[test]
fn test_age_protection() {
    let probe = resolved("/tmp/work/recent.txt", 0);

    let sanitizer = PathSanitizer::default();
    assert!(sanitizer.sanitize_path(&probe, &now()).is_err());

    let sanitizer_no_age = PathSanitizer::default().without_age_protection();
    assert!(sanitizer_no_age.sanitize_path(&probe, &now()).is_ok());
}

#[test]
fn test_home_expansion() {
    let home = Some("/Users/alice".to_string());
    if let Some(expanded) = expand_home("~/test", &home) {
        assert!(!expanded.contains('~'));
        assert_eq!(expanded, "/Users/alice/test");
    } else {
        panic!("a known home directory expands");
    }
}

#[test]
fn home_marker_alone_is_the_home_directory() {
    let home = Some("/Users/alice".to_string());
    assert_eq!(expand_home("~", &home), Some("/Users/alice".to_string()));
    assert_eq!(expand_home("~", &None), None);
    assert_eq!(expand_home("~/x", &None), None);
    assert_eq!(expand_home("/tmp/~", &None), Some("/tmp/~".to_string()));
    assert_eq!(expand_home("~x", &home), Some("~x".to_string()));
}

#[test]
fn home_expansion_of_an_absolute_rest_leaves_the_home_directory() {
    let home = Some("/Users/alice".to_string());
    assert_eq!(expand_home("~//bin", &home), Some("/bin".to_string()));
    let probe = PathProbe {
        path: "~//bin/ls".to_string(),
        home,
        canonical: None,
        parent_exists: true,
        exists: false,
        modified: None,
    };
    let result = PathSanitizer::default().sanitize_path(&probe, &now());
    assert!(matches!(result, Err(ValidationError::Blacklisted(p)) if p == "/bin/ls"));
}

#[test]
fn blacklist_reason_does_not_depend_on_age_settings() {
    for sanitizer in [
        PathSanitizer::default(),
        PathSanitizer::default().without_age_protection(),
        PathSanitizer::new(0, true),
        PathSanitizer::new(10_000, true),
    ] {
        for age in [0, 3650] {
            let result = sanitizer.sanitize_path(&resolved("/System", age), &now());
            assert!(matches!(result, Err(ValidationError::Blacklisted(p)) if p == "/System"));
        }
    }
}

#[test]
fn old_file_outside_the_blacklist_passes() {
    let probe = resolved("/tmp/work/old.bin", 3650);
    let result = PathSanitizer::default().sanitize_path(&probe, &now());
    assert_eq!(result.unwrap(), "/tmp/work/old.bin");

    let fresh = resolved("/tmp/work/old.bin", 0);
    let lenient = PathSanitizer::default().without_age_protection();
    assert_eq!(lenient.sanitize_path(&fresh, &now()).unwrap(), "/tmp/work/old.bin");
    assert!(lenient.is_safe_to_delete(&fresh, &now()));
    assert!(!PathSanitizer::default().is_safe_to_delete(&fresh, &now()));
}

#[test]
fn validating_the_result_again_gives_the_same_result() {
    let sanitizer = PathSanitizer::default();
    let first = sanitizer.sanitize_path(&resolved("/tmp/work/old.bin", 30), &now()).unwrap();
    let second = sanitizer.sanitize_path(&resolved(&first, 30), &now()).unwrap();
    assert_eq!(first, second);
}

#[test]
fn paths_below_a_protected_directory_are_rejected() {
    let sanitizer = PathSanitizer::default().without_age_protection();
    for path in ["/usr/bin/env", "/etc/hosts", "/Users/alice/Documents/tax/2020.pdf", "/Users"] {
        let result = sanitizer.sanitize_path(&resolved(path, 100), &now());
        assert!(matches!(result, Err(ValidationError::Blacklisted(p)) if p == path));
    }
    // A name that only starts like a protected directory is not below it.
    assert!(sanitizer.sanitize_path(&resolved("/binary/tool", 100), &now()).is_ok());
    assert!(sanitizer.sanitize_path(&resolved("/usr/binaries", 100), &now()).is_ok());
}

#[test]
fn the_resolved_path_is_judged_not_the_given_one() {
    let probe = PathProbe {
        path: "/tmp/link".to_string(),
        home: Some("/Users/alice".to_string()),
        canonical: Some("/etc/passwd".to_string()),
        parent_exists: true,
        exists: true,
        modified: Some(days_ago(400)),
    };
    let result = PathSanitizer::default().sanitize_path(&probe, &now());
    assert!(matches!(result, Err(ValidationError::Blacklisted(p)) if p == "/etc/passwd"));
}

#[test]
fn linux_table_differs_from_the_default() {
    let linux = PathSanitizer::default().with_platform(Platform::Linux);
    assert_eq!(linux.platform(), Platform::Linux);
    assert_eq!(PathSanitizer::default().platform(), Platform::MacOs);
    let probe = missing("/System");
    assert!(linux.sanitize_path(&probe, &now()).is_ok());
    assert!(PathSanitizer::default().sanitize_path(&probe, &now()).is_err());
    let proc_entry = resolved("/proc/1/status", 100);
    assert!(matches!(
        linux.sanitize_path(&proc_entry, &now()),
        Err(ValidationError::Blacklisted(_))
    ));
    let home_docs = resolved("/Users/alice/Videos/a.mkv", 100);
    assert!(linux.sanitize_path(&home_docs, &now()).is_err());
}

#[test]
fn missing_path_with_missing_parent_does_not_exist() {
    let probe = PathProbe {
        path: "/nowhere/at/all".to_string(),
        home: None,
        canonical: None,
        parent_exists: false,
        exists: false,
        modified: None,
    };
    let result = PathSanitizer::default().sanitize_path(&probe, &now());
    assert!(matches!(result, Err(ValidationError::DoesNotExist(p)) if p == "/nowhere/at/all"));
}

#[test]
fn missing_path_with_existing_parent_is_taken_as_given() {
    let mut probe = missing("~/scratch/new.tmp");
    probe.home = Some("/srv/alice".to_string());
    let result = PathSanitizer::default().sanitize_path(&probe, &now());
    assert_eq!(result.unwrap(), "/srv/alice/scratch/new.tmp");
    // Below the home directories of the platform nothing is accepted.
    let result = PathSanitizer::default().sanitize_path(&missing("~/scratch/new.tmp"), &now());
    assert!(matches!(result, Err(ValidationError::Blacklisted(p)) if p == "/Users/alice/scratch/new.tmp"));
}

#[test]
fn parent_segments_are_rejected() {
    let sanitizer = PathSanitizer::default();
    for path in ["/tmp/a/../b", "/tmp/a/.."] {
        let result = sanitizer.sanitize_path(&missing(path), &now());
        assert!(matches!(result, Err(ValidationError::PathTraversal(p)) if p == path));
    }
    assert!(sanitizer.check_path_traversal("/tmp/a..b/c..").is_ok());
    assert!(sanitizer.check_path_traversal("/tmp/..hidden").is_ok());
    assert!(sanitizer.check_path_traversal("../relative").is_ok());
    assert!(sanitizer.check_path_traversal("/..").is_err());
}

#[test]
fn too_recent_reports_the_age_in_days() {
    let sanitizer = PathSanitizer::default();
    let result = sanitizer.sanitize_path(&resolved("/tmp/work/a.log", 6), &now());
    assert!(matches!(result, Err(ValidationError::TooRecent(p, 6)) if p == "/tmp/work/a.log"));
    assert!(sanitizer.sanitize_path(&resolved("/tmp/work/a.log", 7), &now()).is_ok());
    let custom = PathSanitizer::default().with_min_age(30);
    assert_eq!(custom.min_age_days(), 30);
    assert!(custom.enforce_age_protection());
    assert!(matches!(
        custom.sanitize_path(&resolved("/tmp/work/a.log", 29), &now()),
        Err(ValidationError::TooRecent(_, 29))
    ));
}

#[test]
fn a_file_from_the_future_has_age_zero() {
    let probe = resolved("/tmp/work/a.log", -5);
    let result = PathSanitizer::default().sanitize_path(&probe, &now());
    assert!(matches!(result, Err(ValidationError::TooRecent(_, 0))));
}

#[test]
fn unknown_home_or_unreadable_time_is_not_safe() {
    let mut probe = resolved("/tmp/work/a.log", 100);
    probe.home = None;
    let result = PathSanitizer::default().sanitize_path(&probe, &now());
    assert!(matches!(result, Err(ValidationError::NotSafeToDelete(p)) if p == "/tmp/work/a.log"));

    let mut probe = resolved("/tmp/work/a.log", 100);
    probe.modified = None;
    let result = PathSanitizer::default().sanitize_path(&probe, &now());
    assert!(matches!(result, Err(ValidationError::NotSafeToDelete(_))));

    let mut probe = resolved("/bin/sh", 100);
    probe.home = None;
    let result = PathSanitizer::default().sanitize_path(&probe, &now());
    assert!(matches!(result, Err(ValidationError::Blacklisted(_))));

    let probe = PathProbe {
        path: "~/x".to_string(),
        home: None,
        canonical: None,
        parent_exists: true,
        exists: false,
        modified: None,
    };
    let result = PathSanitizer::default().sanitize_path(&probe, &now());
    assert!(matches!(result, Err(ValidationError::NotSafeToDelete(p)) if p == "~/x"));
}

#[test]
fn batch_stops_at_the_first_rejection() {
    let sanitizer = PathSanitizer::default();
    let good = vec![resolved("/tmp/a", 10), resolved("/tmp/b", 20)];
    assert_eq!(
        sanitizer.sanitize_paths(&good, &now()).unwrap(),
        vec!["/tmp/a".to_string(), "/tmp/b".to_string()]
    );
    let mixed = vec![resolved("/tmp/a", 10), resolved("/tmp/b", 2), resolved("/bin", 20)];
    assert!(matches!(
        sanitizer.sanitize_paths(&mixed, &now()),
        Err(ValidationError::TooRecent(p, 2)) if p == "/tmp/b"
    ));
    assert_eq!(sanitizer.sanitize_paths(&Vec::new(), &now()).unwrap(), Vec::<String>::new());
}

#[test]
fn error_messages_name_the_reason_and_the_path() {
    assert_eq!(
        ValidationError::PathTraversal("/a/..".to_string()).message(),
        "Path traversal detected: /a/.."
    );
    assert_eq!(
        ValidationError::Blacklisted("/bin".to_string()).message(),
        "Path is blacklisted: /bin"
    );
    assert_eq!(
        ValidationError::DoesNotExist("/x".to_string()).message(),
        "Path does not exist: /x"
    );
    assert_eq!(
        ValidationError::TooRecent("/x".to_string(), 3).message(),
        "File too recent (3 days old): /x"
    );
    assert_eq!(
        ValidationError::TooRecent("/x".to_string(), 0).message(),
        "File too recent (0 days old): /x"
    );
    assert_eq!(
        ValidationError::TooRecent("/x".to_string(), 18_446_744_073_709_551_615).message(),
        "File too recent (18446744073709551615 days old): /x"
    );
    assert_eq!(
        ValidationError::NotSafeToDelete("/x".to_string()).message(),
        "Not safe to delete: /x"
    );
}
