use std::cmp::Ordering;

use lemmaspec::upgrade::{compare_versions, is_parsable_version, Install};

#[test]
fn classifies_installs_by_where_the_binary_lives() {
    assert_eq!(
        Install::detect_from("/opt/homebrew/Cellar/lemmaspec/0.1.0/bin/lemmaspec", None),
        Install::Homebrew
    );
    assert_eq!(Install::detect_from("/home/me/.cargo/bin/lemmaspec", None), Install::Cargo);
    let receipt = "/home/me/.config/lemmaspec/lemmaspec-receipt.json".to_string();
    assert_eq!(
        Install::detect_from("/home/me/.cargo/bin/lemmaspec", Some(receipt.clone())),
        Install::Installer { receipt: receipt.clone() }
    );
    assert_eq!(
        Install::detect_from("/src/lemmaspec/target/debug/lemmaspec", Some(receipt.clone())),
        Install::Unknown,
        "a receipt elsewhere does not claim a repository build"
    );
}

#[test]
fn orders_versions_numerically() {
    assert_eq!(compare_versions("0.1.0", "v0.2.0"), Ordering::Less);
    assert_eq!(compare_versions("0.10.0", "0.9.9"), Ordering::Greater);
    assert_eq!(compare_versions("1.0.0", "1.0.0"), Ordering::Equal);
}

#[test]
fn unparsable_versions_sort_first() {
    assert_eq!(compare_versions("1.x.0", "0.1.0"), Ordering::Less);
    assert_eq!(compare_versions("garbage", "0.0.1"), Ordering::Less);
    assert_eq!(compare_versions("0.0.1", "garbage"), Ordering::Greater);
    assert_eq!(compare_versions("1.0.0-rc1", "v1.0.0"), Ordering::Equal);
    assert!(is_parsable_version("v1.2.3+build"));
    assert!(!is_parsable_version("1.2"));
    assert!(!is_parsable_version("1.2.x"));
}
