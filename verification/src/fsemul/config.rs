//! The file-system emulation configuration, `fsemul.ini`: a small Windows
//! INI file, read by all the official tools, that records which ports
//! file-system emulation listens on.

use crate::errors::FSError;
use crate::fsemul::dlf::numbers::{
    parse_unsigned, parse_unsigned_range, push_radix_text, radix_text, unsigned_digits,
};
use crate::fsemul::dlf::syntax::{crlf_from, find_crlf};
use crate::wire::{str_bytes, string_from_utf8, utf8_bytes};
use configparser::ini::Ini;
use vstd::prelude::*;
use vstd::utf8::*;

verus! {

#[verifier::external_type_specification]
#[verifier::external_body]
pub struct ExIni(Ini);

/// What an `Ini` holds: each section's keys with their values.
pub uninterp spec fn ini_view(ini: Ini) -> Map<Seq<char>, Map<Seq<char>, Option<Seq<char>>>>;

/// The `Ini` was made case sensitive with the default settings, and they
/// were not changed since: sections and keys are taken as given, and no
/// default section stands in for a missing key.
pub uninterp spec fn ini_made_cs(ini: Ini) -> bool;

/// What reading `input` gives an `Ini` made case sensitive with the
/// default settings: its sections and keys, or the message it fails with
/// when `input` is not INI.
pub uninterp spec fn ini_parsed_cs(input: Seq<char>) -> Result<Map<Seq<char>, Map<Seq<char>, Option<Seq<char>>>>, Seq<char>>;

/// The Debug rendering of a string.
pub uninterp spec fn debug_rendering(s: Seq<char>) -> Seq<char>;

/// An INI without sections.
pub open spec fn no_sections() -> Map<Seq<char>, Map<Seq<char>, Option<Seq<char>>>> {
    Map::empty()
}

/// The value of `key` in `section`, if it is set to one.
pub open spec fn ini_value(
    m: Map<Seq<char>, Map<Seq<char>, Option<Seq<char>>>>,
    section: Seq<char>,
    key: Seq<char>,
) -> Option<Seq<char>> {
    if m.contains_key(section) && m[section].contains_key(key) {
        m[section][key]
    } else {
        None
    }
}

/// `m` with `key` of `section` set to `value`, the section created if it
/// is missing.
pub open spec fn ini_with(
    m: Map<Seq<char>, Map<Seq<char>, Option<Seq<char>>>>,
    section: Seq<char>,
    key: Seq<char>,
    value: Option<Seq<char>>,
) -> Map<Seq<char>, Map<Seq<char>, Option<Seq<char>>>> {
    if m.contains_key(section) {
        m.insert(section, m[section].insert(key, value))
    } else {
        m.insert(section, Map::empty().insert(key, value))
    }
}

/// Calls `Ini::new_cs`, which makes an empty, case sensitive `Ini` with
/// the default settings.
#[verifier::external_body]
fn ini_new_cs() -> (r: Ini)
    ensures
        ini_view(r) == no_sections(),
        ini_made_cs(r),
{
    Ini::new_cs()
}

/// Calls `Ini::read`, which replaces what the `Ini` holds by what it parses
/// out of `input`, or fails with the parse's message and leaves it as it
/// was when `input` is not INI.
#[verifier::external_body]
fn ini_read(ini: &mut Ini, input: String) -> (r: Result<(), String>)
    ensures
        ini_made_cs(*old(ini)) ==> ini_made_cs(*final(ini)),
        ini_made_cs(*old(ini)) ==> (r is Ok <==> ini_parsed_cs(input@) is Ok),
        ini_made_cs(*old(ini)) && r is Ok ==> ini_view(*final(ini)) == ini_parsed_cs(input@)->Ok_0,
        ini_made_cs(*old(ini)) ==> (r matches Err(e) ==> e@ == ini_parsed_cs(input@)->Err_0),
{
    match ini.read(input) {
        Ok(_) => Ok(()),
        Err(e) => Err(e),
    }
}

/// Calls `Ini::get`, which for a case sensitive `Ini` without default
/// cascading gives the value of `key` in `section`.
#[verifier::external_body]
fn ini_get(ini: &Ini, section: &str, key: &str) -> (r: Option<String>)
    ensures
        ini_made_cs(*ini) ==> (match ini_value(ini_view(*ini), section@, key@) {
            Some(v) => r matches Some(s) && s@ == v,
            None => r is None,
        }),
{
    ini.get(section, key)
}

/// Calls `Ini::set`, which for a case sensitive `Ini` sets `key` of
/// `section` to `value`, creating the section if it is missing.
#[verifier::external_body]
fn ini_set(ini: &mut Ini, section: &str, key: &str, value: Option<String>)
    ensures
        ini_made_cs(*old(ini)) ==> ini_made_cs(*final(ini)),
        ini_made_cs(*old(ini)) ==> ini_view(*final(ini)) == ini_with(
            ini_view(*old(ini)),
            section@,
            key@,
            match value {
                Some(s) => Some(s@),
                None => None,
            },
        ),
{
    ini.set(section, key, value);
}

/// `order` lists each of `keys` exactly once.
pub open spec fn lists_once(order: Seq<Seq<char>>, keys: Set<Seq<char>>) -> bool {
    order.no_duplicates() && order.to_set() == keys
}

/// The line ending `Ini::writes` ends lines with: a line feed, or a carriage
/// return and line feed on Windows.
pub open spec fn ini_line_ending(eol: Seq<char>) -> bool {
    eol == seq!['\n'] || eol == seq!['\r', '\n']
}

/// The line of the key `k` with the value `v`: `k=v`, or `k` alone when it
/// has no value.
pub open spec fn key_line(k: Seq<char>, v: Option<Seq<char>>, eol: Seq<char>) -> Seq<char> {
    k + match v {
        Some(x) => seq!['='] + x,
        None => Seq::<char>::empty(),
    } + eol
}

/// The lines of the keys of `sec`, in the order `keys` lists them.
pub open spec fn key_lines(sec: Map<Seq<char>, Option<Seq<char>>>, keys: Seq<Seq<char>>, eol: Seq<char>) -> Seq<
    char,
>
    decreases keys.len(),
{
    if keys.len() == 0 {
        Seq::empty()
    } else {
        key_lines(sec, keys.drop_last(), eol) + key_line(keys.last(), sec[keys.last()], eol)
    }
}

/// The order an INI text lists its keys and sections in: first the keys
/// of the `default` section, then each other section with its keys.
pub struct IniOrder {
    pub default_keys: Seq<Seq<char>>,
    pub sections: Seq<(Seq<char>, Seq<Seq<char>>)>,
}

/// The sections `sections` of `m`, each as its `[name]` line and its key
/// lines, one after the other.
pub open spec fn sections_text(
    m: Map<Seq<char>, Map<Seq<char>, Option<Seq<char>>>>,
    sections: Seq<(Seq<char>, Seq<Seq<char>>)>,
    eol: Seq<char>,
) -> Seq<char>
    decreases sections.len(),
{
    if sections.len() == 0 {
        Seq::empty()
    } else {
        let (name, keys) = sections.last();
        sections_text(m, sections.drop_last(), eol) + seq!['['] + name + seq![']'] + eol + key_lines(
            m[name],
            keys,
            eol,
        )
    }
}

/// The INI text of `m` in the order `o`: the `default` section's keys
/// without a header, then each other section under its `[name]` line.
pub open spec fn ini_rendering(
    m: Map<Seq<char>, Map<Seq<char>, Option<Seq<char>>>>,
    o: IniOrder,
    eol: Seq<char>,
) -> Seq<char> {
    let default_name = seq!['d', 'e', 'f', 'a', 'u', 'l', 't'];
    (if m.contains_key(default_name) {
        key_lines(m[default_name], o.default_keys, eol)
    } else {
        Seq::empty()
    }) + sections_text(m, o.sections, eol)
}

/// `o` lists every section of `m` but `default` once, and every key of
/// each section once.
pub open spec fn order_fits(m: Map<Seq<char>, Map<Seq<char>, Option<Seq<char>>>>, o: IniOrder) -> bool {
    let default_name = seq!['d', 'e', 'f', 'a', 'u', 'l', 't'];
    &&& m.contains_key(default_name) ==> lists_once(o.default_keys, m[default_name].dom())
    &&& lists_once(o.sections.map_values(|p: (Seq<char>, Seq<Seq<char>>)| p.0), m.dom().remove(default_name))
    &&& forall|i: int| 0 <= i < o.sections.len() ==> lists_once(#[trigger] o.sections[i].1, m[o.sections[i].0].dom())
}

/// The text is what an `Ini` holding `m` writes: its keys and sections in
/// some order, with some line ending.
pub open spec fn written_ini(m: Map<Seq<char>, Map<Seq<char>, Option<Seq<char>>>>, text: Seq<char>) -> bool {
    exists|o: IniOrder, eol: Seq<char>|
        #![trigger ini_rendering(m, o, eol)]
        order_fits(m, o) && ini_line_ending(eol) && text == ini_rendering(m, o, eol)
}

/// Calls `Ini::writes`, which writes what the `Ini` holds as INI text: for
/// an `Ini` with the default settings, the keys of the `default` section,
/// then each other section under its `[name]` line, each key as `key=value`
/// or `key` alone, every line ended by the platform's line ending. Sections
/// and keys come in the order the map walks them, which varies from process
/// to process, so the text is stated for some order.
#[verifier::external_body]
fn ini_writes(ini: &Ini) -> (r: String)
    ensures
        ini_made_cs(*ini) ==> written_ini(ini_view(*ini), r@),
{
    ini.writes()
}

/// Renders a string with its Debug implementation, as `format!("{s:?}")`
/// does: quoted, with special characters escaped.
#[verifier::external_body]
fn debug_text(s: &String) -> (r: String)
    ensures
        r@ == debug_rendering(s@),
{
    format!("{s:?}")
}

/// The port in the value `v`, when it is a decimal number of at most
/// 65535, as `str::parse::<u16>` reads it.
pub open spec fn port_of(v: Seq<char>) -> Option<u16> {
    match parse_unsigned(utf8_bytes(v), 10, 65535) {
        Some(n) => Some(n as u16),
        None => None,
    }
}

/// `Ini`'s derived `Clone` copies every field, so the copy holds the same
/// sections and keys and the same settings.
pub assume_specification[ <Ini as Clone>::clone ](ini: &Ini) -> (r: Ini)
    ensures
        ini_view(r) == ini_view(*ini),
        ini_made_cs(r) == ini_made_cs(*ini),
;

/// The active file-system emulation configuration.
#[derive(Debug, PartialEq, Eq)]
pub struct FSEmulConfig {
    /// The configuration as it is known.
    configuration: Ini,
    /// The path it was loaded from, and is written back to.
    loaded_from_path: String,
}

/// What a configuration holds.
pub struct ConfigView {
    pub entries: Map<Seq<char>, Map<Seq<char>, Option<Seq<char>>>>,
    pub path: Seq<char>,
}

impl View for FSEmulConfig {
    type V = ConfigView;

    closed spec fn view(&self) -> ConfigView {
        ConfigView { entries: ini_view(self.configuration), path: self.loaded_from_path@ }
    }
}

/// The value of the port `key` in `c`, when it is set to a port.
pub open spec fn port_in(c: ConfigView, key: Seq<char>) -> Option<u16> {
    match ini_value(c.entries, "DEBUG_PORTS"@, key) {
        Some(v) => port_of(v),
        None => None,
    }
}

/// `c` with the port `key` set to `port`, in decimal.
pub open spec fn with_port(c: ConfigView, key: Seq<char>, port: u16) -> ConfigView {
    ConfigView {
        entries: ini_with(c.entries, "DEBUG_PORTS"@, key, Some(decode_utf8(radix_text(port as nat, 10)))),
        ..c
    }
}

impl Clone for FSEmulConfig {
    fn clone(&self) -> (r: Self)
        ensures
            r@ == self@,
    {
        proof {
            use_type_invariant(self);
        }
        FSEmulConfig {
            configuration: self.configuration.clone(),
            loaded_from_path: self.loaded_from_path.clone(),
        }
    }
}

impl FSEmulConfig {
    #[verifier::type_invariant]
    closed spec fn made_cs(self) -> bool {
        ini_made_cs(self.configuration)
    }

    /// An empty configuration, to be written to `path`.
    pub fn empty(path: String) -> (r: Self)
        ensures
            r@ == (ConfigView { entries: no_sections(), path: path@ }),
    {
        FSEmulConfig { configuration: ini_new_cs(), loaded_from_path: path }
    }

    /// The configuration that the bytes of `path` hold: they must be UTF-8
    /// and INI.
    pub fn from_bytes(bytes: Vec<u8>, path: String) -> (r: Result<Self, FSError>)
        ensures
            !valid_utf8(bytes@) ==> r matches Err(FSError::Utf8Expected(_)),
            valid_utf8(bytes@) && ini_parsed_cs(decode_utf8(bytes@)) is Err ==> (r matches Err(
                FSError::InvalidDataNeedsToBeINI(m),
            ) && m@ == debug_rendering(ini_parsed_cs(decode_utf8(bytes@))->Err_0)),
            valid_utf8(bytes@) && ini_parsed_cs(decode_utf8(bytes@)) is Ok ==> (r matches Ok(c)
                && c@ == (ConfigView {
                entries: ini_parsed_cs(decode_utf8(bytes@))->Ok_0,
                path: path@,
            })),
    {
        let text = match string_from_utf8(bytes) {
            Ok(s) => s,
            Err(e) => {
                return Err(FSError::Utf8Expected(e));
            },
        };
        let mut ini = ini_new_cs();
        match ini_read(&mut ini, text) {
            Ok(()) => Ok(FSEmulConfig { configuration: ini, loaded_from_path: path }),
            Err(e) => Err(FSError::InvalidDataNeedsToBeINI(debug_text(&e))),
        }
    }

    /// The path the configuration is written to.
    pub fn loaded_from_path(&self) -> (r: &String)
        ensures
            r@ == self@.path,
    {
        &self.loaded_from_path
    }

    /// The port `key` of the ports section, when it is set to a decimal
    /// number of at most 65535.
    fn port(&self, key: &str) -> (r: Option<u16>)
        ensures
            r == port_in(self@, key@),
    {
        proof {
            use_type_invariant(self);
        }
        match ini_get(&self.configuration, "DEBUG_PORTS", key) {
            None => None,
            Some(v) => {
                let b = str_bytes(v.as_str());
                match parse_unsigned_range(b, 0, b.len(), 10, 65535) {
                    Some(n) => {
                        assert(b@.subrange(0, b@.len() as int) =~= b@);
                        Some(n as u16)
                    },
                    None => {
                        assert(b@.subrange(0, b@.len() as int) =~= b@);
                        None
                    },
                }
            },
        }
    }

    /// Set the port `key` of the ports section to `port`, in decimal.
    fn set_port(&mut self, key: &str, port: u16)
        ensures
            final(self)@ == with_port(old(self)@, key@, port),
    {
        proof {
            use_type_invariant(&*self);
        }
        let mut digits: Vec<u8> = Vec::new();
        push_radix_text(&mut digits, port as u128, 10);
        assert(digits@ =~= radix_text(port as nat, 10));
        proof {
            crate::fsemul::dlf::numbers::lemma_radix_text(port as nat, 10);
            crate::fsemul::dlf::syntax::lemma_ascii_valid_utf8(digits@);
        }
        let text = match string_from_utf8(digits) {
            Ok(s) => s,
            Err(_) => unreached(),
        };
        let mut ini = ini_new_cs();
        std::mem::swap(&mut ini, &mut self.configuration);
        ini_set(&mut ini, "DEBUG_PORTS", key, Some(text));
        std::mem::swap(&mut ini, &mut self.configuration);
    }

    /// The configured ATAPI emulation port.
    pub fn get_atapi_emulation_port(&self) -> (r: Option<u16>)
        ensures
            r == port_in(self@, "ATAPI_EMUL"@),
    {
        self.port("ATAPI_EMUL")
    }

    /// Set the ATAPI emulation port.
    pub fn set_atapi_emulation_port(&mut self, port: u16)
        ensures
            final(self)@ == with_port(old(self)@, "ATAPI_EMUL"@, port),
    {
        self.set_port("ATAPI_EMUL", port)
    }

    /// The configured debug out port.
    pub fn get_debug_out_port(&self) -> (r: Option<u16>)
        ensures
            r == port_in(self@, "DEBUG_OUT"@),
    {
        self.port("DEBUG_OUT")
    }

    /// Set the debug out port.
    pub fn set_debug_out_port(&mut self, port: u16)
        ensures
            final(self)@ == with_port(old(self)@, "DEBUG_OUT"@, port),
    {
        self.set_port("DEBUG_OUT", port)
    }

    /// The configured debug control port.
    pub fn get_debug_control_port(&self) -> (r: Option<u16>)
        ensures
            r == port_in(self@, "DEBUG_CONTROL"@),
    {
        self.port("DEBUG_CONTROL")
    }

    /// Set the debug control port.
    pub fn set_debug_ctrl_port(&mut self, port: u16)
        ensures
            final(self)@ == with_port(old(self)@, "DEBUG_CONTROL"@, port),
    {
        self.set_port("DEBUG_CONTROL", port)
    }

    /// The configured HIO out port.
    pub fn get_hio_out_port(&self) -> (r: Option<u16>)
        ensures
            r == port_in(self@, "HIO_OUT"@),
    {
        self.port("HIO_OUT")
    }

    /// Set the HIO out port.
    pub fn set_hio_out_port(&mut self, port: u16)
        ensures
            final(self)@ == with_port(old(self)@, "HIO_OUT"@, port),
    {
        self.set_port("HIO_OUT", port)
    }

    /// The configured PCFS character port.
    pub fn get_pcfs_character_port(&self) -> (r: Option<u16>)
        ensures
            r == port_in(self@, "CHAR_PCFS"@),
    {
        self.port("CHAR_PCFS")
    }

    /// Set the PCFS character port.
    pub fn set_pcfs_character_port(&mut self, port: u16)
        ensures
            final(self)@ == with_port(old(self)@, "CHAR_PCFS"@, port),
    {
        self.set_port("CHAR_PCFS", port)
    }

    /// The configured PCFS block port.
    pub fn get_pcfs_block_port(&self) -> (r: Option<u16>)
        ensures
            r == port_in(self@, "PCFS_INOUT"@),
    {
        self.port("PCFS_INOUT")
    }

    /// Set the PCFS block port.
    pub fn set_pcfs_block_port(&mut self, port: u16)
        ensures
            final(self)@ == with_port(old(self)@, "PCFS_INOUT"@, port),
    {
        self.set_port("PCFS_INOUT", port)
    }

    /// The configured launch control port.
    pub fn get_launch_control_port(&self) -> (r: Option<u16>)
        ensures
            r == port_in(self@, "LAUNCH_CTRL"@),
    {
        self.port("LAUNCH_CTRL")
    }

    /// Set the launch control port.
    pub fn set_launch_control_port(&mut self, port: u16)
        ensures
            final(self)@ == with_port(old(self)@, "LAUNCH_CTRL"@, port),
    {
        self.set_port("LAUNCH_CTRL", port)
    }

    /// The configured net manage port.
    pub fn get_net_manage_port(&self) -> (r: Option<u16>)
        ensures
            r == port_in(self@, "NET_MANAGE"@),
    {
        self.port("NET_MANAGE")
    }

    /// Set the net manage port.
    pub fn set_net_manage_port(&mut self, port: u16)
        ensures
            final(self)@ == with_port(old(self)@, "NET_MANAGE"@, port),
    {
        self.set_port("NET_MANAGE", port)
    }

    /// The configured PCFS SATA port.
    pub fn get_pcfs_sata_port(&self) -> (r: Option<u16>)
        ensures
            r == port_in(self@, "PCFS_SATA"@),
    {
        self.port("PCFS_SATA")
    }

    /// Set the PCFS SATA port.
    pub fn set_pcfs_sata_port(&mut self, port: u16)
        ensures
            final(self)@ == with_port(old(self)@, "PCFS_SATA"@, port),
    {
        self.set_port("PCFS_SATA", port)
    }

    /// The configuration as Windows INI text: the INI text `Ini::writes`
    /// gives, with every line feed made a carriage return and line feed
    /// unless the text already holds one. Its sections and keys come in the
    /// order the map walks them, which varies from process to process.
    pub fn to_windows_text(&self) -> (r: String)
        ensures
            exists|text: Seq<char>|
                #![trigger windows_text(utf8_bytes(text))]
                written_ini(self@.entries, text) && utf8_bytes(r@) == windows_text(utf8_bytes(text)),
    {
        proof {
            use_type_invariant(self);
        }
        let text = ini_writes(&self.configuration);
        let ghost written = text@;
        let r = windows_line_endings(text);
        assert(utf8_bytes(r@) == windows_text(utf8_bytes(written)));
        r
    }
}

/// Law: a port that was set reads back as that port, and the other ports
/// read as before.
pub proof fn lemma_set_then_get_port(c: ConfigView, key: Seq<char>, other: Seq<char>, port: u16)
    requires
        other != key,
    ensures
        port_in(with_port(c, key, port), key) == Some(port),
        port_in(with_port(c, key, port), other) == port_in(c, other),
{
    let digits = radix_text(port as nat, 10);
    crate::fsemul::dlf::numbers::lemma_radix_text(port as nat, 10);
    crate::fsemul::dlf::syntax::lemma_ascii_valid_utf8(digits);
    decode_utf8_encode_utf8(digits);
    assert(unsigned_digits(digits) == digits);
    let m = c.entries;
    let m2 = with_port(c, key, port).entries;
    let s = "DEBUG_PORTS"@;
    if m.contains_key(s) {
        assert(m2[s] == m[s].insert(key, Some(decode_utf8(digits))));
    } else {
        assert(m2[s] == Map::<Seq<char>, Option<Seq<char>>>::empty().insert(
            key,
            Some(decode_utf8(digits)),
        ));
    }
}

/// `b` with every line feed made a carriage return and line feed.
pub open spec fn lf_to_crlf(b: Seq<u8>) -> Seq<u8>
    decreases b.len(),
{
    if b.len() == 0 {
        seq![]
    } else {
        lf_to_crlf(b.subrange(0, b.len() - 1)) + if b[b.len() - 1] == 10u8 {
            seq![13u8, 10u8]
        } else {
            seq![b[b.len() - 1]]
        }
    }
}

/// The Windows text of `b`: `b` itself when it holds a carriage return and
/// line feed, else `b` with each line feed made one.
pub open spec fn windows_text(b: Seq<u8>) -> Seq<u8> {
    if crlf_from(b, 0) is Some {
        b
    } else {
        lf_to_crlf(b)
    }
}

/// Making line feeds carriage returns and line feeds works piece by piece.
proof fn lemma_lf_to_crlf_concat(x: Seq<u8>, y: Seq<u8>)
    ensures
        lf_to_crlf(x + y) == lf_to_crlf(x) + lf_to_crlf(y),
    decreases y.len(),
{
    if y.len() == 0 {
        assert(x + y =~= x);
        assert(lf_to_crlf(x) + lf_to_crlf(y) =~= lf_to_crlf(x));
    } else {
        let y1 = y.subrange(0, y.len() - 1);
        lemma_lf_to_crlf_concat(x, y1);
        assert((x + y).subrange(0, (x + y).len() - 1) =~= x + y1);
        assert((x + y)[(x + y).len() - 1] == y[y.len() - 1]);
    }
}

/// Bytes without a line feed are left as they are.
proof fn lemma_lf_to_crlf_none(b: Seq<u8>)
    requires
        forall|i: int| 0 <= i < b.len() ==> b[i] != 10u8,
    ensures
        lf_to_crlf(b) == b,
    decreases b.len(),
{
    if b.len() > 0 {
        lemma_lf_to_crlf_none(b.subrange(0, b.len() - 1));
        assert(b.subrange(0, b.len() - 1).push(b[b.len() - 1]) =~= b);
    }
}

/// Making line feeds carriage returns and line feeds keeps UTF-8 valid.
proof fn lemma_lf_to_crlf_valid(b: Seq<u8>)
    requires
        valid_utf8(b),
    ensures
        valid_utf8(lf_to_crlf(b)),
    decreases b.len(),
{
    if b.len() == 0 {
        assert(lf_to_crlf(b) =~= Seq::<u8>::empty());
        crate::fsemul::dlf::syntax::lemma_ascii_valid_utf8(Seq::<u8>::empty());
    } else {
        let k = length_of_first_scalar(b);
        let t = b.subrange(0, k);
        let r = b.subrange(k, b.len() as int);
        assert(r =~= pop_first_scalar(b));
        assert(is_char_boundary(b, k)) by {
            reveal_with_fuel(is_char_boundary, 2);
            is_char_boundary_start_end_of_seq(pop_first_scalar(b));
        }
        valid_utf8_split(b, k);
        lemma_lf_to_crlf_valid(r);
        assert(t + r =~= b);
        lemma_lf_to_crlf_concat(t, r);
        if k == 1 {
            let piece = lf_to_crlf(t);
            assert(t.subrange(0, 0) =~= Seq::<u8>::empty());
            assert(lf_to_crlf(t.subrange(0, 0)) =~= Seq::<u8>::empty());
            crate::fsemul::dlf::syntax::lemma_ascii_valid_utf8(piece);
        } else {
            assert forall|i: int| 0 <= i < t.len() implies t[i] != 10u8 by {
                if i > 0 {
                    assert(is_continuation_byte(b[i]));
                }
            }
            lemma_lf_to_crlf_none(t);
        }
        valid_utf8_concat(lf_to_crlf(t), lf_to_crlf(r));
    }
}

/// `text` in Windows line endings: see `windows_text`.
pub fn windows_line_endings(text: String) -> (r: String)
    ensures
        utf8_bytes(r@) == windows_text(utf8_bytes(text@)),
{
    let b = str_bytes(text.as_str());
    match find_crlf(b, 0) {
        Some(_) => {
            return text;
        },
        None => {},
    }
    let mut out: Vec<u8> = Vec::new();
    let mut i: usize = 0;
    while i < b.len()
        invariant
            i <= b@.len(),
            out@ == lf_to_crlf(b@.subrange(0, i as int)),
        decreases b@.len() - i,
    {
        let ghost before = b@.subrange(0, i as int);
        assert(b@.subrange(0, i + 1).subrange(0, i as int) =~= before);
        if b[i] == 10u8 {
            out.push(13u8);
            out.push(10u8);
        } else {
            out.push(b[i]);
        }
        assert(out@ =~= lf_to_crlf(b@.subrange(0, i + 1)));
        i = i + 1;
    }
    assert(b@.subrange(0, i as int) =~= b@);
    proof {
        encode_utf8_valid_utf8(text@);
        lemma_lf_to_crlf_valid(b@);
    }
    let ghost bytes = out@;
    match string_from_utf8(out) {
        Ok(s) => {
            proof {
                decode_utf8_encode_utf8(bytes);
            }
            s
        },
        Err(_) => unreached(),
    }
}

} // verus!
