use copula_core::VERSION;

#[test]
fn test_library_version() {
    assert_eq!(VERSION, "0.2.0");
}
