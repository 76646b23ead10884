use core_nft::pagination::{check_take, token_page};

#[test]
fn token_pages_are_sorted_and_start_after_prev() {
    let ids = vec![5u128, 1, 9, 3, 7];
    assert_eq!(token_page(&ids, None, None, None), vec![1, 3, 5, 7, 9]);
    assert_eq!(token_page(&ids, Some(3), Some(2), None), vec![5, 7]);
    assert_eq!(token_page(&ids, Some(4), None, Some(1)), vec![5]);
    assert_eq!(token_page(&ids, Some(9), None, None), Vec::<u128>::new());
    assert_eq!(token_page(&ids, Some(0), Some(0), None), Vec::<u128>::new());
}

#[test]
fn huge_take_falls_back_to_default() {
    let ids: Vec<u128> = (0..150).collect();
    assert_eq!(token_page(&ids, None, Some(u128::MAX), None).len(), 100);
}

#[test]
fn take_limit() {
    assert!(check_take(None, 10).is_ok());
    assert!(check_take(Some(10), 10).is_ok());
    assert_eq!(
        check_take(Some(11), 10).err().unwrap(),
        "max_take_value exceeded. Limit is 10. Retry with a smaller take value."
    );
}
