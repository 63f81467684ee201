use perf_history::errors::Error;
use perf_history::run::Kind;

#[test]
fn serialize_kind() {
    assert_eq!(
        serde_json::to_string(Kind::Benchmarks.name()).unwrap(),
        r#""benchmarks""#
    );
    assert_eq!(
        Kind::from_name(&serde_json::from_str::<String>(r#""benchmarks""#).unwrap()).unwrap(),
        Kind::Benchmarks
    );
    assert_eq!(serde_json::to_string(Kind::Rustc.name()).unwrap(), r#""rustc""#);
    assert_eq!(
        Kind::from_name(&serde_json::from_str::<String>(r#""rustc""#).unwrap()).unwrap(),
        Kind::Rustc
    );
}

#[test]
fn kind_names() {
    assert_eq!(Kind::Rustc.name(), "rustc");
    assert_eq!(Kind::Benchmarks.name(), "benchmarks");
    assert_eq!(Kind::from_name("rustc"), Some(Kind::Rustc));
    assert_eq!(Kind::from_name("benchmarks"), Some(Kind::Benchmarks));
    assert_eq!(Kind::from_name("Rustc"), None);
    assert_eq!(Kind::from_name(""), None);
}

#[test]
fn only_the_reserved_name_is_the_whole_compiler() {
    assert_eq!(Kind::of_test("rustc"), Kind::Rustc);
    assert_eq!(Kind::of_test("rust-encoding.0.2.32"), Kind::Benchmarks);
    assert_eq!(Kind::of_test("benchmarks"), Kind::Benchmarks);
    assert_eq!(Kind::of_test(""), Kind::Benchmarks);
    assert_eq!(Kind::of_test("rustc "), Kind::Benchmarks);
}

#[test]
fn fatal_errors_are_those_of_the_whole_load() {
    assert!(!Error::MalformedInput.is_fatal());
    assert!(!Error::UnresolvableDate.is_fatal());
    assert!(Error::NoData.is_fatal());
    assert!(Error::InternalInvariantViolation.is_fatal());
}
