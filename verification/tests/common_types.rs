use bigbirdeval::common_types::Uri;

#[test]
fn benign_and_malicious_uris() {
    let b = Uri::benign(7);
    assert_eq!(b.id, 7);
    assert!(!b.malicious);
    let m = Uri::malicious(7);
    assert_eq!(m.id, 7);
    assert!(m.malicious);
    assert_ne!(b, m);
}
