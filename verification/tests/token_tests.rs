use issue_viewer::token::{MemoryTokenStore, TokenStore};

#[test]
fn memory_roundtrip() {
    let mut s = MemoryTokenStore::default();
    assert!(s.load().is_none());
    s.save("gho_test");
    assert_eq!(s.load().as_deref(), Some("gho_test"));
    s.clear();
    assert!(s.load().is_none());
}

#[test]
fn save_replaces_earlier_token() {
    let mut s = MemoryTokenStore::default();
    s.save("a");
    s.save("b");
    assert_eq!(s.load().as_deref(), Some("b"));
}
