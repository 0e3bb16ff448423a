//! The command line of `setbridgeconfig`, with the same arguments as the
//! Cafe SDK's own `setbridgeconfig`: `setbridgeconfig [options] <name>
//! [<ip_addr>]`.

use vstd::prelude::*;

verus! {

/// The top-level command line options.
#[derive(Debug)]
pub struct CliOpts {
    /// The amount of arguments given, the program name included.
    pub arg_count: usize,
    /// The IP address of the bridge to add or set as default.
    pub bridge_ipaddr: Option<String>,
    /// The name of the bridge to add, set as default, or delete.
    pub bridge_name: Option<String>,
    /// Set this bridge as the default bridge.
    pub default: bool,
    /// Delete this bridge.
    pub delete: bool,
    /// Protect a bridge from being overwritten or deleted.
    pub protect: bool,
}

/// What a command line says.
pub struct CliView {
    pub arg_count: nat,
    pub bridge_ipaddr: Option<Seq<char>>,
    pub bridge_name: Option<Seq<char>>,
    pub default: bool,
    pub delete: bool,
    pub protect: bool,
}

/// The options as they are before any argument is read.
pub open spec fn cli_start() -> CliView {
    CliView {
        arg_count: 1,
        bridge_ipaddr: None,
        bridge_name: None,
        default: false,
        delete: false,
        protect: false,
    }
}

/// `o` after reading the argument `item`: a known flag sets its option;
/// any other argument that does not start with `-` is the bridge name,
/// then the IP address, and is ignored once both are set.
pub open spec fn cli_step(o: CliView, item: Seq<char>) -> CliView {
    let o = CliView { arg_count: o.arg_count + 1, ..o };
    if item == "-default"@ {
        CliView { default: true, ..o }
    } else if item == "-protect"@ {
        CliView { protect: true, ..o }
    } else if item == "-d"@ {
        CliView { delete: true, ..o }
    } else if item.len() > 0 && item[0] == '-' {
        o
    } else if o.bridge_name is None {
        CliView { bridge_name: Some(item), ..o }
    } else if o.bridge_ipaddr is None {
        CliView { bridge_ipaddr: Some(item), ..o }
    } else {
        o
    }
}

/// The options that the arguments `args` give, read in order.
pub open spec fn cli_read(args: Seq<Seq<char>>) -> CliView
    decreases args.len(),
{
    if args.len() == 0 {
        cli_start()
    } else {
        cli_step(cli_read(args.subrange(0, args.len() - 1)), args[args.len() - 1])
    }
}

impl View for CliOpts {
    type V = CliView;

    open spec fn view(&self) -> CliView {
        CliView {
            arg_count: self.arg_count as nat,
            bridge_ipaddr: match self.bridge_ipaddr {
                Some(s) => Some(s@),
                None => None,
            },
            bridge_name: match self.bridge_name {
                Some(s) => Some(s@),
                None => None,
            },
            default: self.default,
            delete: self.delete,
            protect: self.protect,
        }
    }
}

/// The arguments as text.
pub open spec fn args_view(args: Seq<String>) -> Seq<Seq<char>> {
    args.map_values(|s: String| s@)
}

impl CliOpts {
    /// The usage help is printed, and the tool exits, when no argument was
    /// given, or when a flag was given with nothing else.
    pub fn needs_help(&self) -> (r: bool)
        ensures
            r == (self.arg_count < 2 || ((self.default || self.delete || self.protect)
                && self.arg_count <= 2)),
    {
        self.arg_count < 2 || ((self.default || self.delete || self.protect) && self.arg_count <= 2)
    }

    /// Read the arguments that follow the program name.
    pub fn from_arguments(arguments: Vec<String>) -> (r: CliOpts)
        requires
            arguments@.len() < usize::MAX,
        ensures
            r@ == cli_read(args_view(arguments@)),
    {
        let mut opts = CliOpts {
            arg_count: 1,
            bridge_ipaddr: None,
            bridge_name: None,
            default: false,
            delete: false,
            protect: false,
        };
        let ghost all = args_view(arguments@);
        let flag_default = "-default".to_owned();
        let flag_protect = "-protect".to_owned();
        let flag_delete = "-d".to_owned();
        let mut i: usize = 0;
        while i < arguments.len()
            invariant
                i <= arguments@.len() < usize::MAX,
                all == args_view(arguments@),
                opts.arg_count == i + 1,
                opts@ == cli_read(all.subrange(0, i as int)),
                flag_default@ == "-default"@,
                flag_protect@ == "-protect"@,
                flag_delete@ == "-d"@,
            decreases arguments@.len() - i,
        {
            let item = arguments[i].clone();
            let ghost before = opts@;
            assert(all.subrange(0, i + 1).subrange(0, i as int) =~= all.subrange(0, i as int));
            assert(all.subrange(0, i + 1)[i as int] == item@);
            opts.arg_count = opts.arg_count + 1;
            if item == flag_default {
                opts.default = true;
            } else if item == flag_protect {
                opts.protect = true;
            } else if item == flag_delete {
                opts.delete = true;
            } else {
                let s = item.as_str();
                let dashed = s.unicode_len() > 0 && s.get_char(0) == '-';
                if !dashed {
                    if opts.bridge_name.is_none() {
                        opts.bridge_name = Some(item);
                    } else if opts.bridge_ipaddr.is_none() {
                        opts.bridge_ipaddr = Some(item);
                    }
                }
            }
            assert(opts@ == cli_step(before, all[i as int]));
            i = i + 1;
        }
        assert(all.subrange(0, i as int) =~= all);
        opts
    }
}

/// What adding a bridge does to an entry already known by its name.
#[derive(Clone, Copy, Debug, PartialEq, Eq)]
pub enum ProtectOutcome {
    /// Nothing to say: no such entry, or it has the same address.
    Keep,
    /// The entry is protected and has another address: the tool stops with
    /// an error.
    Conflict,
    /// The entry's address is updated from this one (none when it had
    /// none), with a warning.
    Updated(Option<u32>),
}

/// How adding the bridge with address `new_ip` treats the entry `existing`
/// known under its name (its address, if it has one), when `is_protecting`
/// asks that entries not be overwritten. Addresses are IPv4 addresses as
/// 32 bit numbers.
pub fn protect_outcome(is_protecting: bool, existing: Option<Option<u32>>, new_ip: u32) -> (r: ProtectOutcome)
    ensures
        r == match existing {
            None => ProtectOutcome::Keep,
            Some(old) => if old == Some(new_ip) {
                ProtectOutcome::Keep
            } else if is_protecting {
                ProtectOutcome::Conflict
            } else {
                ProtectOutcome::Updated(old)
            },
        },
{
    match existing {
        None => ProtectOutcome::Keep,
        Some(old) => {
            let same = match old {
                Some(ip) => ip == new_ip,
                None => false,
            };
            if same {
                ProtectOutcome::Keep
            } else if is_protecting {
                ProtectOutcome::Conflict
            } else {
                ProtectOutcome::Updated(old)
            }
        },
    }
}

} // verus!
