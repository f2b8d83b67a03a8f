use xai_gork_telegram::auth::AuthPolicy;

#[test]
fn empty_denies() {
    let p = AuthPolicy::from_csv("");
    assert!(!p.authorize(Some(1)));
    assert!(p.is_empty());
}

#[test]
fn allowlist_works() {
    let p = AuthPolicy::from_csv("42, 99");
    assert!(p.authorize(Some(42)));
    assert!(!p.authorize(Some(1)));
    assert!(!p.authorize(None));
}

#[test]
fn allowlist_accepts_signs_spaces_and_skips_junk() {
    let p = AuthPolicy::from_csv(" +7,,\t-3\nabc 9223372036854775808 -9223372036854775808 x12 ");
    assert!(p.authorize(Some(7)));
    assert!(p.authorize(Some(-3)));
    assert!(p.authorize(Some(i64::MIN)));
    assert!(!p.authorize(Some(12)));
    assert!(!p.authorize(Some(0)));
    assert!(!p.is_empty());
}

#[test]
fn allowlist_of_only_junk_is_empty_and_denies() {
    let p = AuthPolicy::from_csv("abc, -, +, 99999999999999999999");
    assert!(p.is_empty());
    assert!(!p.authorize(Some(99)));
    assert!(!p.authorize(None));
}

#[test]
fn allowlist_splits_on_unicode_white_space() {
    let p = AuthPolicy::from_csv("5\u{3000}6\u{a0}7");
    assert!(p.authorize(Some(5)));
    assert!(p.authorize(Some(6)));
    assert!(p.authorize(Some(7)));
}

#[test]
fn joined_allowlists_admit_either() {
    for joined in ["1,2 3", "1,2\t3"] {
        let both = AuthPolicy::from_csv(joined);
        let left = AuthPolicy::from_csv("1,2");
        let right = AuthPolicy::from_csv("3");
        for u in [1, 2, 3, 4] {
            assert_eq!(both.authorize(Some(u)), left.authorize(Some(u)) || right.authorize(Some(u)));
        }
    }
    let with_empty = AuthPolicy::from_csv(", 5");
    assert!(with_empty.authorize(Some(5)));
    assert!(!with_empty.authorize(Some(6)));
}
