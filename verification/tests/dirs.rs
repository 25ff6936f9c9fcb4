//! Which paths lie under which directories.

use graph::matching::{path_is_enforced, path_len, path_matches, path_matches_any};
use graph::{is_enforced, is_monitored, is_under, ENFORCED_DIR, MONITORED_DIRS};

#[test]
fn is_under_boundaries() {
    assert!(is_under("/var/secure", "/var/secure"));
    assert!(is_under("/var/secure/x", "/var/secure"));
    assert!(is_under("/var/secure/sub/dir/f", "/var/secure"));
    assert!(is_under("/home/secure_area/f", "/home/secure_area"));
    assert!(!is_under("/var/securex", "/var/secure"));
    assert!(!is_under("/var/secure_2", "/var/secure"));
    assert!(!is_under("/var/security", "/var/secure"));
    assert!(!is_under("/opt/protected2/x", "/opt/protected"));
    assert!(!is_under("/var", "/var/secure"));
    assert!(!is_under("/", "/var/secure"));
}

#[test]
fn is_monitored_and_enforced() {
    assert!(is_monitored("/opt/protected/a"));
    assert!(is_monitored("/var/secure"));
    assert!(is_monitored("/home/secure_area/x/y"));
    assert!(!is_monitored("/tmp/x"));
    assert!(!is_monitored("/var/secure_2"));

    assert!(is_enforced("/var/secure/f"));
    assert!(is_enforced("/var/secure"));
    assert!(!is_enforced("/opt/protected/f"));
    assert!(!is_enforced("/home/secure_area/f"));
    assert!(!is_enforced("/var/secure_2"));
}

#[test]
fn nesting_goes_on() {
    assert!(is_under("/var/secure/a/b", "/var/secure/a"));
    assert!(is_under("/var/secure/a", "/var/secure"));
    assert!(is_under("/var/secure/a/b", "/var/secure"));
}

#[test]
fn directory_may_end_with_a_separator() {
    assert!(is_under("/a", "/"));
    assert!(is_under("/", "/"));
    assert!(is_under("/var/secure/x", "/"));
    assert!(!is_under("a", "/"));
    assert!(!is_under("", "/"));
    assert!(is_under("/var/secure/x", "/var/secure/"));
    assert!(is_under("/var/secure/", "/var/secure"));
    assert!(!is_under("/var/secure_2/x", "/var/secure/"));
    // U+012F ends in the same bits as the separator, but is another character.
    assert!(!is_under("/į_2", "/į"));
    assert!(!is_under("/įx", "/į"));
}

#[test]
fn paths_under_each_other_are_the_same() {
    assert!(is_under("/a/", "/a"));
    assert!(!is_under("/a", "/a/"));
    assert!(is_under("/a/b", "/a/b"));
}

#[test]
fn text_beyond_ascii_matches_by_component_too() {
    assert!(is_under("/dä/ö", "/dä"));
    assert!(!is_under("/däö", "/dä"));
    assert!(!is_under("/d", "/dä"));
    assert!(is_under("", ""));
    assert!(is_under("/x", ""));
    assert!(!is_under("x", ""));
}

#[test]
fn raw_paths_match_like_text() {
    assert!(path_matches(b"/var/secure\0/x", b"/var/secure"));
    assert!(path_matches(b"/var/secure/x\0junk", b"/var/secure"));
    assert!(!path_matches(b"/var/sec\0ure", b"/var/secure"));
    assert!(!path_matches(b"/var/secure_2\0", b"/var/secure"));
    assert!(!path_matches(b"\0/var/secure", b"/var/secure"));
    assert_eq!(path_len(b"/var\0x"), 4);
    assert_eq!(path_len(b"/var"), 4);
    assert!(path_matches_any(b"/opt/protected/a\0"));
    assert!(path_matches_any(b"/var/secure\0"));
    assert!(path_matches_any(b"/home/secure_area/\xff\0"));
    assert!(!path_matches_any(b"/tmp/x\0"));
    assert!(!path_matches_any(b"home/secure_area\0"));
    assert!(path_is_enforced(b"/var/secure/f\0"));
    assert!(!path_is_enforced(b"/opt/protected/f\0"));
}

#[test]
fn long_prefixes_match_to_their_end() {
    let mut dir = vec![b'/'; 1];
    dir.resize(40, b'd');
    let mut path = dir.clone();
    path.extend_from_slice(b"/f\0");
    assert!(path_matches(&path, &dir));
    path[36] = b'e';
    assert!(!path_matches(&path, &dir));
}

#[test]
fn enforced_paths_are_monitored() {
    for path in ["/var/secure", "/var/secure/x"] {
        assert!(is_enforced(path) && is_monitored(path));
    }
    assert!(MONITORED_DIRS.contains(&ENFORCED_DIR));
}
