use memcrabd::args::{check_max_item_size, worker_threads, ItemSizeLimitError};
use memcrabd::server::port::{item_size_valid, port_in_range};

#[test]
fn accepts_2m() {
    let Ok(size) = item_size_valid("2m") else {
        panic!("item size 2m should be valid");
    };

    assert_eq!(size, 2_000_000);
}

#[test]
fn item_size_units_and_plain_bytes() {
    assert_eq!(item_size_valid("1048576"), Ok(1_048_576));
    assert_eq!(item_size_valid("3k"), Ok(3_000));
    assert_eq!(item_size_valid("1G"), Ok(1_000_000_000));
    assert_eq!(item_size_valid("+5"), Ok(5));
}

#[test]
fn item_size_refused() {
    assert_eq!(item_size_valid("m"), Err("`m` isn't a valid item size".to_string()));
    assert_eq!(item_size_valid("12x"), Err("`12x` isn't a valid item size".to_string()));
    assert_eq!(
        item_size_valid("18446744073709551615k"),
        Err("`18446744073709551615k` isn't a valid item size".to_string())
    );
    assert!(item_size_valid("").is_err());
}

#[test]
fn port_accepts_range() {
    assert_eq!(port_in_range("11211"), Ok(11211));
    assert_eq!(port_in_range("1"), Ok(1));
    assert_eq!(port_in_range("65535"), Ok(65535));
    assert_eq!(port_in_range("+80"), Ok(80));
}

#[test]
fn port_refuses_out_of_range_and_text() {
    assert_eq!(port_in_range("0"), Err("port not in range 1 - 65535".to_string()));
    assert_eq!(port_in_range("65536"), Err("port not in range 1 - 65535".to_string()));
    assert_eq!(port_in_range("abc"), Err("`abc` isn't a port number".to_string()));
    assert_eq!(port_in_range(" 80"), Err("` 80` isn't a port number".to_string()));
    assert_eq!(port_in_range("-1"), Err("`-1` isn't a port number".to_string()));
}

#[test]
fn max_item_size_bounds() {
    assert_eq!(check_max_item_size(1023), Err(ItemSizeLimitError::TooSmall));
    assert_eq!(check_max_item_size(1024), Ok(()));
    assert_eq!(check_max_item_size(1024 * 1024 * 1024), Ok(()));
    assert_eq!(check_max_item_size(1024 * 1024 * 1024 + 1), Err(ItemSizeLimitError::TooLarge));
}

#[test]
fn threads_at_least_one() {
    assert_eq!(worker_threads(0), 1);
    assert_eq!(worker_threads(4), 4);
}
