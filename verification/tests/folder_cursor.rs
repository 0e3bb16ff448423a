use cat_dev::fsemul::folder_cursor::FolderCursor;

fn names(list: &[&str]) -> Vec<Vec<u8>> {
    list.iter().map(|n| n.as_bytes().to_vec()).collect()
}

#[test]
fn entries_come_in_name_order_then_run_out() {
    let mut folder = FolderCursor::new(names(&["b.txt", "a", "B", "ab"]), Some(1));
    assert_eq!(folder.next_candidate(), Some(b"B".to_vec()));
    assert_eq!(folder.next_candidate(), Some(b"a".to_vec()));
    assert_eq!(folder.next_candidate(), Some(b"ab".to_vec()));
    assert_eq!(folder.next_candidate(), Some(b"b.txt".to_vec()));
    assert_eq!(folder.next_candidate(), None);
    assert_eq!(folder.next_candidate(), None);
    folder.rewind_one();
    assert_eq!(folder.next_candidate(), Some(b"b.txt".to_vec()));
}

#[test]
fn rewinding_at_the_start_does_nothing() {
    let mut folder = FolderCursor::new(names(&["x"]), None);
    folder.rewind_one();
    assert_eq!(folder.next_candidate(), Some(b"x".to_vec()));
    let mut empty = FolderCursor::new(Vec::new(), None);
    assert_eq!(empty.next_candidate(), None);
    empty.rewind_one();
    assert_eq!(empty.next_candidate(), None);
}

#[test]
fn folders_belong_to_their_stream() {
    let folder = FolderCursor::new(Vec::new(), Some(4));
    assert!(folder.allows(Some(4)));
    assert!(!folder.allows(Some(5)));
    assert!(folder.allows(None));
    assert!(FolderCursor::new(Vec::new(), None).allows(Some(5)));
}

#[test]
fn rewinding_to_the_start_reads_every_entry_again() {
    let mut folder = FolderCursor::new(names(&["b", "a"]), None);
    assert_eq!(folder.next_candidate(), Some(b"a".to_vec()));
    assert_eq!(folder.next_candidate(), Some(b"b".to_vec()));
    assert_eq!(folder.next_candidate(), None);
    folder.rewind_to_start();
    assert_eq!(folder.next_candidate(), Some(b"a".to_vec()));
    assert_eq!(folder.next_candidate(), Some(b"b".to_vec()));
    assert_eq!(folder.next_candidate(), None);
}
