use cat_dev::fsemul::errors::FSEmulAPIError;
use cat_dev::fsemul::file_handles::FileHandleNumbers;

#[test]
fn host_descriptors_by_default() {
    let mut numbers = FileHandleNumbers::new();
    assert_eq!(numbers.handle_for_open(17), 17);
    assert_eq!(numbers.handle_for_open(3), 3);
}

#[test]
fn unique_numbers_count_up_from_one() {
    let mut numbers = FileHandleNumbers::new();
    assert_eq!(numbers.force_unique_fds(), Ok(()));
    assert_eq!(numbers.handle_for_open(17), 1);
    assert_eq!(numbers.handle_for_open(17), 2);
}

#[test]
fn the_strategy_is_fixed_once_a_file_is_open() {
    let mut numbers = FileHandleNumbers::new();
    numbers.handle_for_open(5);
    assert_eq!(numbers.force_unique_fds(), Err(FSEmulAPIError::CannotSwapFdStrategy));
    assert_eq!(numbers.handle_for_open(6), 6);
}
