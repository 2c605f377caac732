use pascal::error::PascalError;
use pascal::names::{
    bare_dependency_name, dependency_name, same_text, starts_with, to_hyphen, to_underscore,
    validate_name,
};

#[test]
fn validate_name_accepts_simple_name() {
    assert!(validate_name("cart").is_ok());
}

#[test]
fn validate_name_accepts_hyphens_and_underscores() {
    assert!(validate_name("my-pkg").is_ok());
    assert!(validate_name("my_pkg").is_ok());
    assert!(validate_name("my-pkg_v2").is_ok());
}

#[test]
fn validate_name_accepts_digits() {
    assert!(validate_name("pkg2").is_ok());
}

#[test]
fn validate_name_rejects_empty() {
    assert!(validate_name("").is_err());
}

#[test]
fn validate_name_rejects_spaces() {
    assert!(validate_name("my pkg").is_err());
}

#[test]
fn validate_name_rejects_dots() {
    assert!(validate_name("my.pkg").is_err());
}

#[test]
fn validate_name_rejects_slashes() {
    assert!(validate_name("a/b").is_err());
}

#[test]
fn validate_name_error_carries_the_name() {
    assert_eq!(validate_name("bad name!"), Err(PascalError::InvalidName("bad name!".to_string())));
}

#[test]
fn spellings_convert_both_ways() {
    assert_eq!(to_underscore("my-pkg-v2"), "my_pkg_v2");
    assert_eq!(to_hyphen("my_pkg_v2"), "my-pkg-v2");
    assert_eq!(to_underscore("cart"), "cart");
}

#[test]
fn bare_name_stops_at_each_delimiter() {
    assert_eq!(bare_dependency_name("httpx>=0.27"), "httpx");
    assert_eq!(bare_dependency_name("pkg<2"), "pkg");
    assert_eq!(bare_dependency_name("pkg==1.0"), "pkg");
    assert_eq!(bare_dependency_name("pkg[extra]"), "pkg");
    assert_eq!(bare_dependency_name("pkg; python_version<'3.12'"), "pkg");
    assert_eq!(bare_dependency_name("pkg (>=1)"), "pkg");
    assert_eq!(bare_dependency_name("plain"), "plain");
    assert_eq!(bare_dependency_name(""), "");
}

#[test]
fn dependency_name_normalizes_hyphens() {
    assert_eq!(dependency_name("my-lib>=1.0"), "my_lib");
}

#[test]
fn prefix_and_equality() {
    assert!(starts_with("cart>=1", "cart"));
    assert!(!starts_with("car", "cart"));
    assert!(same_text("cart", "cart"));
    assert!(!same_text("cart", "carts"));
}
