use issue_viewer::timefmt::{format_rfc3339_local, format_unix_local, shown_or_raw};

#[test]
fn rfc3339_is_not_github_raw() {
    let s = format_rfc3339_local("2026-09-19T00:04:46Z");
    assert!(!s.contains('T'), "{s}");
    assert!(s.contains("2026-09-19"), "{s}");
}

#[test]
fn unix_is_not_raw_digits_only() {
    let s = format_unix_local("1789795222");
    assert_ne!(s, "1789795222");
    assert!(s.contains('-'), "{s}");
}

#[test]
fn unparsable_text_is_shown_unchanged() {
    assert_eq!(format_rfc3339_local("yesterday"), "yesterday");
    assert_eq!(format_unix_local("yesterday"), "yesterday");
    assert_eq!(format_unix_local("9223372036854775807"), "9223372036854775807");
}

#[test]
fn shown_text_wins_over_raw() {
    assert_eq!(shown_or_raw(Some("local".into()), "raw"), "local");
    assert_eq!(shown_or_raw(None, "raw"), "raw");
}

fn laid_out_as_shown(s: &str) -> bool {
    s.chars().all(|c| c.is_ascii_digit() || "+-: ".contains(c))
}

#[test]
fn unix_range_ends_where_chrono_ends() {
    for raw in ["8210266876799", "-8334601228800", "0", "-1"] {
        let s = format_unix_local(raw);
        assert_ne!(s, raw);
        assert!(laid_out_as_shown(&s), "{s}");
    }
    assert_eq!(format_unix_local("8210266876800"), "8210266876800");
    assert_eq!(format_unix_local("-8334601228801"), "-8334601228801");
}

#[test]
fn rfc3339_with_space_and_offset_is_laid_out_anew() {
    let raw = "2026-09-19 00:04:46+00:00";
    let s = format_rfc3339_local(raw);
    assert_ne!(s, raw);
    assert!(laid_out_as_shown(&s), "{s}");
    assert!(format_rfc3339_local("0000-01-01T00:00:00Z").contains(':'));
}

#[test]
fn same_instant_shows_the_same_text() {
    assert_eq!(format_unix_local("0"), format_rfc3339_local("1970-01-01T00:00:00Z"));
    let a = format_unix_local("1789795222");
    assert_eq!(a, format_rfc3339_local("2026-09-19T05:20:22Z"));
    assert_eq!(a, format_rfc3339_local("2026-09-19T14:20:22+09:00"));
    assert_eq!(a, format_unix_local("2026-09-19T05:20:22.5Z"));
    assert_ne!(a, format_unix_local("1789798822"));
}
