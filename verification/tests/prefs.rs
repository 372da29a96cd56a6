use nexthop::prefs::{default_dark, Prefs};

#[test]
fn default_is_dark() {
    assert!(Prefs::default().dark_mode);
}

#[test]
fn clone_produces_equal_value() {
    let p = Prefs { dark_mode: true };
    let q = p.clone();
    assert_eq!(p.dark_mode, q.dark_mode);
}

#[test]
fn debug_format_contains_dark_mode() {
    let p = Prefs { dark_mode: false };
    let s = format!("{p:?}");
    assert!(s.contains("dark_mode"), "got: {s}");
}

#[test]
fn missing_dark_mode_key_reads_as_dark() {
    assert!(default_dark());
    assert_eq!(Prefs::default(), Prefs { dark_mode: default_dark() });
}
