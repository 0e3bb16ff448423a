use cat_dev::fsemul::pcfs::sata::client::{
    absorb_read_reply, calculate_ideal_block_size_count, ffio_read_sizes,
};

#[test]
fn block_sizes() {
    assert_eq!(calculate_ideal_block_size_count(0), (0, 1));
    assert_eq!(calculate_ideal_block_size_count(100), (100, 1));
    assert_eq!(calculate_ideal_block_size_count(1024), (512, 2));
    assert_eq!(calculate_ideal_block_size_count(1000), (500, 2));
    assert_eq!(calculate_ideal_block_size_count(1021), (1, 1021));
    assert_eq!(calculate_ideal_block_size_count(511 * 3), (511, 3));
}

#[test]
fn read_sizes_split_at_the_first_read_size() {
    assert_eq!(ffio_read_sizes(512, 2, 0x25 + 300), vec![300, 300, 300, 124]);
    assert_eq!(ffio_read_sizes(100, 1, 196_672), vec![100]);
    assert_eq!(ffio_read_sizes(0, 1, 196_672), Vec::<u32>::new());
}

#[test]
fn read_replies_are_joined() {
    let mut data = Vec::new();
    let mut first = vec![0u8; 0x20];
    first.extend([0, 0, 0, 9, 1, 2, 3]);
    let size = absorb_read_reply(0, &first, &mut data);
    assert_eq!(size, 9);
    assert_eq!(data, vec![1, 2, 3]);
    let mut second = vec![0u8; 0x20];
    second.extend([4, 5]);
    let size = absorb_read_reply(size, &second, &mut data);
    assert_eq!(size, 9);
    assert_eq!(data, vec![1, 2, 3, 4, 5]);
}
