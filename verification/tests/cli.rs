use cat_dev::cli::{protect_outcome, CliOpts, ProtectOutcome};

fn args(list: &[&str]) -> Vec<String> {
    list.iter().map(|s| (*s).to_owned()).collect()
}

#[test]
fn reads_name_and_address() {
    let opts = CliOpts::from_arguments(args(&["-default", "bridge", "192.168.1.2"]));
    assert_eq!(opts.arg_count, 4);
    assert!(opts.default);
    assert!(!opts.delete);
    assert!(!opts.protect);
    assert_eq!(opts.bridge_name.as_deref(), Some("bridge"));
    assert_eq!(opts.bridge_ipaddr.as_deref(), Some("192.168.1.2"));
}

#[test]
fn flags_and_extra_arguments() {
    let opts = CliOpts::from_arguments(args(&["-d", "a", "-protect", "-unknown", "b", "c"]));
    assert_eq!(opts.arg_count, 7);
    assert!(opts.delete);
    assert!(opts.protect);
    assert!(!opts.default);
    assert_eq!(opts.bridge_name.as_deref(), Some("a"));
    assert_eq!(opts.bridge_ipaddr.as_deref(), Some("b"));
}

#[test]
fn no_arguments() {
    let opts = CliOpts::from_arguments(Vec::new());
    assert_eq!(opts.arg_count, 1);
    assert_eq!(opts.bridge_name, None);
    assert_eq!(opts.bridge_ipaddr, None);
}

#[test]
fn help_is_needed_for_too_few_arguments() {
    assert!(CliOpts::from_arguments(Vec::new()).needs_help());
    assert!(CliOpts::from_arguments(args(&["-d"])).needs_help());
    assert!(!CliOpts::from_arguments(args(&["name"])).needs_help());
    assert!(!CliOpts::from_arguments(args(&["-d", "name"])).needs_help());
}

#[test]
fn protecting_existing_bridges() {
    let ip = u32::from_be_bytes([192, 168, 1, 2]);
    let other = u32::from_be_bytes([10, 0, 0, 1]);
    assert_eq!(protect_outcome(true, None, ip), ProtectOutcome::Keep);
    assert_eq!(protect_outcome(true, Some(Some(ip)), ip), ProtectOutcome::Keep);
    assert_eq!(protect_outcome(false, Some(Some(ip)), ip), ProtectOutcome::Keep);
    assert_eq!(protect_outcome(true, Some(Some(other)), ip), ProtectOutcome::Conflict);
    assert_eq!(protect_outcome(true, Some(None), ip), ProtectOutcome::Conflict);
    assert_eq!(protect_outcome(false, Some(Some(other)), ip), ProtectOutcome::Updated(Some(other)));
    assert_eq!(protect_outcome(false, Some(None), ip), ProtectOutcome::Updated(None));
}
