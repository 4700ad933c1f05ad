use etcd_store::text::{concatenated, contains, equal, split, starts_with, strip_prefix, trim_end_matches};

const SAMPLES: [&str; 9] = ["", "/", "a", "/a", "/a/", "/a//", "ä", "/ä€", "/ä"];

#[test]
fn prefixes_are_found_and_stripped() {
    for s in SAMPLES {
        for p in SAMPLES {
            assert_eq!(starts_with(s, p), s.starts_with(p));
            assert_eq!(equal(s, p), s == p);
            if s.starts_with(p) {
                assert_eq!(strip_prefix(s, p), s.strip_prefix(p).unwrap());
            }
        }
    }
}

#[test]
fn texts_are_searched_put_together_and_trimmed() {
    for s in SAMPLES {
        assert_eq!(trim_end_matches(s, '/'), s.trim_end_matches('/'));
        assert_eq!(split(s, '/'), s.split('/').collect::<Vec<&str>>());
        for p in SAMPLES {
            assert_eq!(contains(s, p), s.contains(p));
            assert_eq!(concatenated(s, p), format!("{s}{p}"));
        }
    }
    assert!(contains("xx Timeout expired yy", "Timeout expired"));
    assert!(!contains("timeout expired", "Timeout expired"));
    assert!(contains("aab", "ab"));
}
