use memcrabd::log::{LogFormat, Verbosity};

#[test]
fn verbosity_filters() {
    assert_eq!(Verbosity(0).to_filter_string(), "warn");
    assert_eq!(Verbosity(1).to_filter_string(), "info");
    assert_eq!(Verbosity(2).to_filter_string(), "debug");
    assert_eq!(Verbosity(3).to_filter_string(), "trace");
    assert_eq!(Verbosity(200).to_filter_string(), "trace");
    assert_eq!(Verbosity::default(), Verbosity(0));
    assert_eq!(LogFormat::default(), LogFormat::Human);
}
