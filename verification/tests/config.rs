use cat_dev::errors::FSError;
use cat_dev::fsemul::config::{windows_line_endings, FSEmulConfig};

#[test]
fn reads_ports() {
    let text = b"[DEBUG_PORTS]\r\nATAPI_EMUL=6001\r\nDEBUG_OUT=6002\r\nHIO_OUT=not a port\r\nPCFS_SATA=70000\r\n".to_vec();
    let config = FSEmulConfig::from_bytes(text, "/tmp/fsemul.ini".to_owned()).expect("INI text");
    assert_eq!(config.get_atapi_emulation_port(), Some(6001));
    assert_eq!(config.get_debug_out_port(), Some(6002));
    assert_eq!(config.get_hio_out_port(), None);
    assert_eq!(config.get_pcfs_sata_port(), None);
    assert_eq!(config.get_debug_control_port(), None);
    assert_eq!(config.loaded_from_path(), "/tmp/fsemul.ini");
}

#[test]
fn sets_ports_and_writes_windows_text() {
    let mut config = FSEmulConfig::empty("fsemul_custom_made.ini".to_owned());
    config.set_atapi_emulation_port(8000);
    assert_eq!(config.get_atapi_emulation_port(), Some(8000));
    assert_eq!(config.to_windows_text(), "[DEBUG_PORTS]\r\nATAPI_EMUL=8000\r\n");
    config.set_pcfs_sata_port(7500);
    config.set_net_manage_port(1);
    config.set_launch_control_port(2);
    config.set_pcfs_block_port(3);
    config.set_pcfs_character_port(4);
    config.set_hio_out_port(5);
    config.set_debug_ctrl_port(6);
    config.set_debug_out_port(7);
    assert_eq!(config.get_pcfs_sata_port(), Some(7500));
    assert_eq!(config.get_net_manage_port(), Some(1));
    assert_eq!(config.get_launch_control_port(), Some(2));
    assert_eq!(config.get_pcfs_block_port(), Some(3));
    assert_eq!(config.get_pcfs_character_port(), Some(4));
    assert_eq!(config.get_hio_out_port(), Some(5));
    assert_eq!(config.get_debug_control_port(), Some(6));
    assert_eq!(config.get_debug_out_port(), Some(7));
    let copy = config.clone();
    assert_eq!(copy, config);
}

#[test]
fn refuses_bad_files() {
    assert!(matches!(
        FSEmulConfig::from_bytes(vec![0xC3], "x".to_owned()),
        Err(FSError::Utf8Expected(_))
    ));
    assert!(matches!(
        FSEmulConfig::from_bytes(b"[DEBUG_PORTS\r\n".to_vec(), "x".to_owned()),
        Err(FSError::InvalidDataNeedsToBeINI(_))
    ));
    match FSEmulConfig::from_bytes(b"[DEBUG_PORTS]\r\n=8000\r\n".to_vec(), "x".to_owned()) {
        Err(FSError::InvalidDataNeedsToBeINI(message)) => {
            assert!(message.starts_with("\"line "));
            assert!(message.ends_with(": Key cannot be empty\""));
        }
        _ => panic!("a key cannot be empty"),
    }
}

#[test]
fn line_endings() {
    assert_eq!(windows_line_endings("a\nb\n".to_owned()), "a\r\nb\r\n");
    assert_eq!(windows_line_endings("a\r\nb\n".to_owned()), "a\r\nb\n");
    assert_eq!(windows_line_endings(String::new()), "");
}
