use cat_dev::fsemul::pcfs::sata::server::connection_flags::{
    SataConnectionFlags, DEFAULT_FIRST_READ_SIZE, DEFAULT_FIRST_WRITE_SIZE,
};

#[test]
fn new_connections_enable_everything() {
    let flags = SataConnectionFlags::new(3);
    assert!(flags.ffio_enabled());
    assert!(flags.csr_enabled());
    assert_eq!(flags.version(), 3);
    assert_eq!(flags.first_read_size(), 196_672);
    assert_eq!(flags.first_write_size(), 196_640);
    assert_eq!(DEFAULT_FIRST_READ_SIZE, 196_672);
    assert_eq!(DEFAULT_FIRST_WRITE_SIZE, 196_640);
}

#[test]
fn setters_change_only_their_flag() {
    let mut flags = SataConnectionFlags::new_with_flags(false, true, 1);
    assert!(!flags.ffio_enabled());
    flags.set_ffio_enabled(true);
    flags.set_csr_enabled(false);
    flags.set_version(9);
    flags.set_first_read_size(10);
    flags.set_first_write_size(11);
    assert!(flags.ffio_enabled());
    assert!(!flags.csr_enabled());
    assert_eq!(flags.version(), 9);
    assert_eq!(flags.first_read_size(), 10);
    assert_eq!(flags.first_write_size(), 11);
}

#[test]
fn pings_turn_off_what_the_client_lacks() {
    let mut flags = SataConnectionFlags::new(1);
    let pong = flags.negotiate(true, false, 1);
    assert!(pong.ffio_enabled());
    assert!(!pong.combined_send_recv_enabled());
    assert!(!flags.csr_enabled());
    let mut flags = SataConnectionFlags::new(1);
    let pong = flags.negotiate(true, true, 0);
    assert!(!pong.ffio_enabled());
    assert!(!pong.combined_send_recv_enabled());
    assert_eq!(flags.version(), 1);
}

fn turn_off_fast_file_io(flags: &mut SataConnectionFlags) {
    flags.set_ffio_enabled(false);
}

#[test]
fn a_change_is_seen_by_every_later_reader() {
    let mut flags = SataConnectionFlags::new(1);
    turn_off_fast_file_io(&mut flags);
    let reader = &flags;
    assert!(!reader.ffio_enabled());
    assert!(reader.csr_enabled());
}
