use httpstat::options::{items_to_print, DEFAULT_NUMBER_OF_ITEMS_TO_PRINT};

#[test]
fn default_number_of_items() {
    assert_eq!(items_to_print(None), Ok(10));
    assert_eq!(DEFAULT_NUMBER_OF_ITEMS_TO_PRINT, 10);
}

#[test]
fn given_number_of_items() {
    assert_eq!(items_to_print(Some("3".to_string())), Ok(3));
    assert_eq!(items_to_print(Some("025".to_string())), Ok(25));
}

#[test]
fn invalid_number_of_items_is_handed_back() {
    assert_eq!(items_to_print(Some("0".to_string())), Err("0".to_string()));
    assert_eq!(items_to_print(Some("-1".to_string())), Err("-1".to_string()));
    assert_eq!(items_to_print(Some("ten".to_string())), Err("ten".to_string()));
    assert_eq!(items_to_print(Some("".to_string())), Err("".to_string()));
    assert_eq!(
        items_to_print(Some("99999999999999999999".to_string())),
        Err("99999999999999999999".to_string())
    );
}
