//! The lines the write-ahead log writes: `->` and a request, `<-` and its
//! response, and `  ->` and the length of the data a fast file write sent
//! after its request.

use super::wal::{RequestView, ResponseView, WaitingRequest, WaitingResponse};
use crate::fsemul::dlf::numbers::{lemma_radix_text, push_radix_text, radix_text, zero_padded};
use crate::fsemul::dlf::syntax::lemma_ascii_valid_utf8;
use crate::fsemul::pcfs::sata::proto::get_info_by_query::{
    FdInfoFields, PCFSSataFdInfo, PCFSSataQueryResponse, PCFSSataQueryType, QueryAnswer,
};
use crate::fsemul::pcfs::sata::proto::location::MoveToFileLocation;
use crate::wire::{put_bytes, str_bytes, string_from_utf8};
use vstd::prelude::*;
use vstd::utf8::*;

verus! {

/// The bytes of two texts one after the other are the bytes of the first,
/// then those of the second.
pub proof fn lemma_encode_concat(a: Seq<char>, b: Seq<char>)
    ensures
        encode_utf8(a + b) == encode_utf8(a) + encode_utf8(b),
    decreases a.len(),
{
    if a.len() == 0 {
        assert(a + b =~= b);
        assert(encode_utf8(a) + encode_utf8(b) =~= encode_utf8(b));
    } else {
        lemma_encode_concat(a.drop_first(), b);
        assert((a + b).drop_first() =~= a.drop_first() + b);
        assert((a + b)[0] == a[0]);
        assert(encode_scalar(a[0] as u32) + (encode_utf8(a.drop_first()) + encode_utf8(b))
            =~= (encode_scalar(a[0] as u32) + encode_utf8(a.drop_first())) + encode_utf8(b));
    }
}

/// The decimal digits of `v`.
pub open spec fn dec_text(v: nat) -> Seq<char> {
    decode_utf8(radix_text(v, 10))
}

/// `v` in decimal, with a `-` in front when it is negative.
pub open spec fn int_text(v: int) -> Seq<char> {
    if v < 0 {
        "-"@ + dec_text((-v) as nat)
    } else {
        dec_text(v as nat)
    }
}

/// The lowercase hexadecimal digit of `d`.
pub open spec fn hex_digit(d: nat) -> u8 {
    if d < 10 {
        (48 + d) as u8
    } else {
        (87 + d) as u8
    }
}

/// `v` in lowercase hexadecimal, without leading zeros.
pub open spec fn lower_hex(v: nat) -> Seq<u8>
    decreases v,
{
    if v < 16 {
        seq![hex_digit(v)]
    } else {
        lower_hex(v / 16).push(hex_digit(v % 16))
    }
}

/// `v` in lowercase hexadecimal, with zeros in front up to `width` digits.
pub open spec fn hex_text(v: nat, width: nat) -> Seq<char> {
    decode_utf8(zero_padded(lower_hex(v), width))
}

/// `true` or `false`.
pub open spec fn bool_text(b: bool) -> Seq<char> {
    if b {
        "true"@
    } else {
        "false"@
    }
}

/// The digits of `lower_hex` are ASCII.
proof fn lemma_lower_hex(v: nat)
    ensures
        forall|i: int| 0 <= i < lower_hex(v).len() ==> #[trigger] lower_hex(v)[i] < 128,
    decreases v,
{
    if v >= 16 {
        lemma_lower_hex(v / 16);
        let h = lower_hex(v / 16);
        assert(v % 16 < 16);
        assert(lower_hex(v) == h.push(hex_digit(v % 16)));
        assert forall|i: int| 0 <= i < lower_hex(v).len() implies #[trigger] lower_hex(v)[i] < 128 by {
            if i < h.len() {
                assert(lower_hex(v)[i] == h[i]);
            }
        }
    }
}

/// Append the lowercase hexadecimal digits of `v`.
fn push_lower_hex(out: &mut Vec<u8>, v: u64)
    ensures
        final(out)@ == old(out)@ + lower_hex(v as nat),
    decreases v,
{
    if v >= 16 {
        push_lower_hex(out, v / 16);
    }
    let d = (v % 16) as u8;
    let c = if d < 10 {
        48 + d
    } else {
        87 + d
    };
    out.push(c);
    assert(out@ =~= old(out)@ + lower_hex(v as nat));
}

/// How the `Debug` formatting of `bytes::Bytes` writes one byte: the
/// escapes of a byte string literal for a line feed, a carriage return, a
/// tab, a backslash, a double quote and a zero byte, other printable ASCII
/// as itself, and anything else as `\x` and two lowercase hexadecimal
/// digits.
pub open spec fn byte_escape(b: u8) -> Seq<char> {
    if b == 10 {
        "\\n"@
    } else if b == 13 {
        "\\r"@
    } else if b == 9 {
        "\\t"@
    } else if b == 92 || b == 34 {
        seq!['\\', b as char]
    } else if b == 0 {
        "\\0"@
    } else if 0x20 <= b < 0x7f {
        seq![b as char]
    } else {
        "\\x"@ + hex_text(b as nat, 2)
    }
}

/// The escapes of the bytes of `s`, one after the other.
pub open spec fn escaped_bytes(s: Seq<u8>) -> Seq<char>
    decreases s.len(),
{
    if s.len() == 0 {
        Seq::empty()
    } else {
        escaped_bytes(s.drop_last()) + byte_escape(s.last())
    }
}

/// How the `Debug` formatting of `bytes::Bytes` writes `s`: `b"`, each byte
/// as `byte_escape` gives it, and `"`.
pub open spec fn bytes_debug_text(s: Seq<u8>) -> Seq<char> {
    "b\""@ + escaped_bytes(s) + "\""@
}

/// Formats a `bytes::Bytes` copy of `data` with `{:02x?}`, which is its
/// `Debug` formatting; the width and the hexadecimal flag do not change
/// what that writes, which is `bytes_debug_text` of the bytes.
#[verifier::external_body]
fn bytes_debug(data: &[u8]) -> (r: String)
    ensures
        r@ == bytes_debug_text(data@),
{
    format!("{:02x?}", bytes::Bytes::copy_from_slice(data))
}

/// A line being written: its UTF-8 bytes, and the text they encode.
struct TextBuf {
    bytes: Vec<u8>,
    text: Ghost<Seq<char>>,
}

impl TextBuf {
    spec fn wf(&self) -> bool {
        self.bytes@ == encode_utf8(self.text@)
    }

    fn new() -> (r: Self)
        ensures
            r.wf(),
            r.text@ == Seq::<char>::empty(),
    {
        let r = TextBuf { bytes: Vec::new(), text: Ghost(Seq::empty()) };
        assert(r.bytes@ =~= encode_utf8(Seq::<char>::empty()));
        r
    }

    /// Append the text `s`.
    fn push_str(&mut self, s: &str)
        requires
            old(self).wf(),
        ensures
            final(self).wf(),
            final(self).text@ == old(self).text@ + s@,
    {
        put_bytes(&mut self.bytes, str_bytes(s));
        proof {
            lemma_encode_concat(old(self).text@, s@);
        }
        self.text = Ghost(self.text@ + s@);
    }

    /// Append the text of the ASCII bytes `b`.
    fn push_ascii(&mut self, b: &[u8])
        requires
            old(self).wf(),
            forall|i: int| 0 <= i < b@.len() ==> b@[i] < 128,
        ensures
            final(self).wf(),
            final(self).text@ == old(self).text@ + decode_utf8(b@),
    {
        put_bytes(&mut self.bytes, b);
        proof {
            lemma_ascii_valid_utf8(b@);
            decode_utf8_encode_utf8(b@);
            lemma_encode_concat(old(self).text@, decode_utf8(b@));
        }
        self.text = Ghost(self.text@ + decode_utf8(b@));
    }

    /// Append the decimal digits of `v`.
    fn push_dec(&mut self, v: u64)
        requires
            old(self).wf(),
        ensures
            final(self).wf(),
            final(self).text@ == old(self).text@ + dec_text(v as nat),
    {
        let mut d: Vec<u8> = Vec::new();
        push_radix_text(&mut d, v as u128, 10);
        proof {
            lemma_radix_text(v as nat, 10);
            assert(d@ =~= radix_text(v as nat, 10));
        }
        self.push_ascii(d.as_slice());
    }

    /// Append `v` in decimal, with a `-` in front when it is negative.
    fn push_int(&mut self, v: i32)
        requires
            old(self).wf(),
        ensures
            final(self).wf(),
            final(self).text@ == old(self).text@ + int_text(v as int),
    {
        if v < 0 {
            self.push_str("-");
            let magnitude: u64 = (0i64 - v as i64) as u64;
            self.push_dec(magnitude);
            assert(self.text@ =~= old(self).text@ + int_text(v as int));
        } else {
            self.push_dec(v as u64);
        }
    }

    /// Append `v` in lowercase hexadecimal, with zeros in front up to
    /// `width` digits.
    fn push_hex(&mut self, v: u64, width: usize)
        requires
            old(self).wf(),
        ensures
            final(self).wf(),
            final(self).text@ == old(self).text@ + hex_text(v as nat, width as nat),
    {
        let mut digits: Vec<u8> = Vec::new();
        push_lower_hex(&mut digits, v);
        assert(digits@ =~= lower_hex(v as nat));
        let mut padded: Vec<u8> = Vec::new();
        let mut k: usize = digits.len();
        while k < width
            invariant
                digits@.len() <= k <= if width < digits@.len() {
                    digits@.len() as int
                } else {
                    width as int
                },
                padded@ == Seq::new((k - digits@.len()) as nat, |_i: int| 48u8),
            decreases width - k,
        {
            padded.push(48u8);
            k = k + 1;
            assert(padded@ =~= Seq::new((k - digits@.len()) as nat, |_i: int| 48u8));
        }
        put_bytes(&mut padded, digits.as_slice());
        proof {
            lemma_lower_hex(v as nat);
            assert(padded@ =~= zero_padded(lower_hex(v as nat), width as nat));
        }
        self.push_ascii(padded.as_slice());
    }

    /// Append `true` or `false`.
    fn push_bool(&mut self, b: bool)
        requires
            old(self).wf(),
        ensures
            final(self).wf(),
            final(self).text@ == old(self).text@ + bool_text(b),
    {
        if b {
            self.push_str("true");
        } else {
            self.push_str("false");
        }
    }

    /// The text written.
    fn into_string(self) -> (r: String)
        requires
            self.wf(),
        ensures
            r@ == self.text@,
    {
        proof {
            encode_utf8_valid_utf8(self.text@);
            encode_utf8_decode_utf8(self.text@);
        }
        match string_from_utf8(self.bytes) {
            Ok(s) => s,
            Err(_) => unreached(),
        }
    }
}

/// How the log names a position to move to: by the position's name, a
/// form this library chose.
pub open spec fn location_text(l: MoveToFileLocation) -> Seq<char> {
    match l {
        MoveToFileLocation::Begin => "Begin"@,
        MoveToFileLocation::Current => "Current"@,
        MoveToFileLocation::End => "End"@,
    }
}

/// Where a read or a write moves first, or `Nowhere`.
pub open spec fn move_text(m: Option<MoveToFileLocation>) -> Seq<char> {
    match m {
        Some(l) => location_text(l),
        None => "Nowhere"@,
    }
}

/// What a query asks for, in words.
pub open spec fn query_type_text(t: PCFSSataQueryType) -> Seq<char> {
    match t {
        PCFSSataQueryType::FileCount => "Files in Folder"@,
        PCFSSataQueryType::FileDetails => "Path Details"@,
        PCFSSataQueryType::FreeDiskSpace => "Free Space left on Disk"@,
        PCFSSataQueryType::SizeOfFolder => "Size of Folder"@,
    }
}

/// The mode a folder is created with.
pub open spec fn mode_text(will_set_write_mode: bool) -> Seq<char> {
    if will_set_write_mode {
        "0666"@
    } else {
        "0444"@
    }
}

/// The text the log writes for a request: its kind, padded to twelve
/// characters, then its fields in braces.
pub open spec fn request_text(v: RequestView) -> Seq<char> {
    match v {
        RequestView::CreateFolder(p, w) => "CreateFolder {path="@ + p + ",mode="@ + mode_text(w) + "}"@,
        RequestView::OpenFolder(p) => "OpenFolder   {path="@ + p + "}"@,
        RequestView::ReadFolder(p) => "ReadFolder   {path="@ + p + "}"@,
        RequestView::RewindFolder(p) => "RewindFolder {path="@ + p + "}"@,
        RequestView::CloseFolder(_, p) => "CloseFolder  {path="@ + p + "}"@,
        RequestView::OpenFile(p, m) => "OpenFile     {path="@ + p + ",mode="@ + m + "}"@,
        RequestView::ReadFile(p, mv, n) => "ReadFile     {path="@ + p + ",move_to="@ + move_text(mv)
            + ",total_size="@ + dec_text(n as nat) + "}"@,
        RequestView::WriteFile(p, mv) => "WriteFile    {path="@ + p + ",move_to="@ + move_text(mv) + "}"@,
        RequestView::SetFilePosition(p, l) => "SetFilePos   {path="@ + p + ",move_to="@ + location_text(l)
            + "}"@,
        RequestView::StatFile(p) => "StatFile     {path="@ + p + "}"@,
        RequestView::CloseFile(_, p) => "CloseFile    {path="@ + p + "}"@,
        RequestView::Remove(p) => "Remove       {path="@ + p + "}"@,
        RequestView::Rename(a, b) => "Rename       {source="@ + a + ",dest="@ + b + "}"@,
        RequestView::QueryPath(t, p) => "QueryPath    {path="@ + p + ",query_type="@ + query_type_text(t)
            + "}"@,
        RequestView::ChangeOwner(p, u, g) => "ChangeOwner  {path="@ + p + ",uid="@ + dec_text(u as nat)
            + ",gid="@ + dec_text(g as nat) + "}"@,
        RequestView::ChangeMode(p, m) => "ChangeMode   {path="@ + p + ",mode="@ + m + "}"@,
        RequestView::Ping(f, c, r, w) => "Ping         {supports_ffio="@ + bool_text(f) + ",supports_csr="@
            + bool_text(c) + ",first_read_size="@ + dec_text(r as nat) + ",first_write_size="@ + dec_text(
            w as nat,
        ) + "}"@,
        RequestView::Unknown(d) => "Unknown      {data="@ + bytes_debug_text(d) + "}"@,
    }
}

impl TextBuf {
    /// Append the name of a position.
    fn push_location(&mut self, l: MoveToFileLocation)
        requires
            old(self).wf(),
        ensures
            final(self).wf(),
            final(self).text@ == old(self).text@ + location_text(l),
    {
        match l {
            MoveToFileLocation::Begin => self.push_str("Begin"),
            MoveToFileLocation::Current => self.push_str("Current"),
            MoveToFileLocation::End => self.push_str("End"),
        }
    }

    /// Append where a read or a write moves first.
    fn push_move(&mut self, m: Option<MoveToFileLocation>)
        requires
            old(self).wf(),
        ensures
            final(self).wf(),
            final(self).text@ == old(self).text@ + move_text(m),
    {
        match m {
            Some(l) => self.push_location(l),
            None => self.push_str("Nowhere"),
        }
    }

    /// Append `head`, `a` and a closing brace.
    fn push_braced(&mut self, head: &str, a: &str)
        requires
            old(self).wf(),
        ensures
            final(self).wf(),
            final(self).text@ == old(self).text@ + (head@ + a@ + "}"@),
    {
        self.push_str(head);
        self.push_str(a);
        self.push_str("}");
        assert(self.text@ =~= old(self).text@ + (head@ + a@ + "}"@));
    }

    /// Append `head`, `a`, `sep`, `b` and a closing brace.
    fn push_braced2(&mut self, head: &str, a: &str, sep: &str, b: &str)
        requires
            old(self).wf(),
        ensures
            final(self).wf(),
            final(self).text@ == old(self).text@ + (head@ + a@ + sep@ + b@ + "}"@),
    {
        self.push_str(head);
        self.push_str(a);
        self.push_str(sep);
        self.push_str(b);
        self.push_str("}");
        assert(self.text@ =~= old(self).text@ + (head@ + a@ + sep@ + b@ + "}"@));
    }

    /// Append the text of a read, a write or a move in a file.
    fn push_file_request(&mut self, req: &WaitingRequest)
        requires
            old(self).wf(),
            req is ReadFile || req is WriteFile || req is SetFilePosition,
        ensures
            final(self).wf(),
            final(self).text@ == old(self).text@ + request_text(req@),
    {
        let ghost t0 = self.text@;
        match req {
            WaitingRequest::ReadFile(p, mv, n) => {
                self.push_str("ReadFile     {path=");
                self.push_str(p.as_str());
                self.push_str(",move_to=");
                self.push_move(*mv);
                self.push_str(",total_size=");
                self.push_dec(*n as u64);
                self.push_str("}");
                assert(self.text@ =~= t0 + request_text(req@));
            },
            WaitingRequest::WriteFile(p, mv) => {
                self.push_str("WriteFile    {path=");
                self.push_str(p.as_str());
                self.push_str(",move_to=");
                self.push_move(*mv);
                self.push_str("}");
                assert(self.text@ =~= t0 + request_text(req@));
            },
            WaitingRequest::SetFilePosition(p, l) => {
                self.push_str("SetFilePos   {path=");
                self.push_str(p.as_str());
                self.push_str(",move_to=");
                self.push_location(*l);
                self.push_str("}");
                assert(self.text@ =~= t0 + request_text(req@));
            },
            _ => {},
        }
    }

    /// Append the text of a query, a change of owner, a ping or unknown
    /// bytes.
    fn push_other_request(&mut self, req: &WaitingRequest)
        requires
            old(self).wf(),
            req is QueryPath || req is ChangeOwner || req is Ping || req is Unknown,
        ensures
            final(self).wf(),
            final(self).text@ == old(self).text@ + request_text(req@),
    {
        let ghost t0 = self.text@;
        match req {
            WaitingRequest::QueryPath(t, p) => {
                let what = match t {
                    PCFSSataQueryType::FileCount => "Files in Folder",
                    PCFSSataQueryType::FileDetails => "Path Details",
                    PCFSSataQueryType::FreeDiskSpace => "Free Space left on Disk",
                    PCFSSataQueryType::SizeOfFolder => "Size of Folder",
                };
                assert(what@ == query_type_text(*t));
                self.push_braced2("QueryPath    {path=", p.as_str(), ",query_type=", what);
            },
            WaitingRequest::ChangeOwner(p, u, g) => {
                self.push_str("ChangeOwner  {path=");
                self.push_str(p.as_str());
                self.push_str(",uid=");
                self.push_dec(*u as u64);
                self.push_str(",gid=");
                self.push_dec(*g as u64);
                self.push_str("}");
                assert(self.text@ =~= t0 + request_text(req@));
            },
            WaitingRequest::Ping(f, c, r, w) => {
                self.push_str("Ping         {supports_ffio=");
                self.push_bool(*f);
                self.push_str(",supports_csr=");
                self.push_bool(*c);
                self.push_str(",first_read_size=");
                self.push_dec(*r as u64);
                self.push_str(",first_write_size=");
                self.push_dec(*w as u64);
                self.push_str("}");
                assert(self.text@ =~= t0 + request_text(req@));
            },
            WaitingRequest::Unknown(d) => {
                let shown = bytes_debug(d.as_slice());
                self.push_braced("Unknown      {data=", shown.as_str());
            },
            _ => {},
        }
    }

    /// Append the text of a request.
    fn push_request(&mut self, req: &WaitingRequest)
        requires
            old(self).wf(),
        ensures
            final(self).wf(),
            final(self).text@ == old(self).text@ + request_text(req@),
    {
        match req {
            WaitingRequest::CreateFolder(p, w) => {
                let mode = if *w {
                    "0666"
                } else {
                    "0444"
                };
                self.push_braced2("CreateFolder {path=", p.as_str(), ",mode=", mode);
            },
            WaitingRequest::OpenFolder(p) => self.push_braced("OpenFolder   {path=", p.as_str()),
            WaitingRequest::ReadFolder(p) => self.push_braced("ReadFolder   {path=", p.as_str()),
            WaitingRequest::RewindFolder(p) => self.push_braced("RewindFolder {path=", p.as_str()),
            WaitingRequest::CloseFolder(_, p) => self.push_braced("CloseFolder  {path=", p.as_str()),
            WaitingRequest::OpenFile(p, m) => self.push_braced2(
                "OpenFile     {path=",
                p.as_str(),
                ",mode=",
                m.as_str(),
            ),
            WaitingRequest::StatFile(p) => self.push_braced("StatFile     {path=", p.as_str()),
            WaitingRequest::CloseFile(_, p) => self.push_braced("CloseFile    {path=", p.as_str()),
            WaitingRequest::Remove(p) => self.push_braced("Remove       {path=", p.as_str()),
            WaitingRequest::Rename(a, b) => self.push_braced2(
                "Rename       {source=",
                a.as_str(),
                ",dest=",
                b.as_str(),
            ),
            WaitingRequest::ChangeMode(p, m) => self.push_braced2(
                "ChangeMode   {path=",
                p.as_str(),
                ",mode=",
                m.as_str(),
            ),
            WaitingRequest::ReadFile(..) | WaitingRequest::WriteFile(..)
            | WaitingRequest::SetFilePosition(..) => self.push_file_request(req),
            _ => self.push_other_request(req),
        }
    }
}

/// The line the log writes for a request: `->`, the request's text (see
/// `request_text`) and a line feed.
pub fn request_line(req: &WaitingRequest) -> (r: String)
    ensures
        r@ == "->"@ + request_text(req@) + "\n"@,
{
    let mut b = TextBuf::new();
    b.push_str("->");
    b.push_request(req);
    b.push_str("\n");
    assert(b.text@ =~= "->"@ + request_text(req@) + "\n"@);
    b.into_string()
}

/// The line the log writes when a fast file write sends its data after its
/// request: two spaces, `->`, the number of bytes sent and a line feed.
pub fn write_data_line(size: usize) -> (r: String)
    ensures
        r@ == "  ->"@ + dec_text(size as nat) + "\n"@,
{
    let mut b = TextBuf::new();
    b.push_str("  ->");
    b.push_dec(size as u64);
    b.push_str("\n");
    assert(b.text@ =~= "  ->"@ + dec_text(size as nat) + "\n"@);
    b.into_string()
}

/// How the log writes a return code: `0x` and eight lowercase hexadecimal
/// digits, a form this library chose.
pub open spec fn rc_text(rc: u32) -> Seq<char> {
    "0x"@ + hex_text(rc as nat, 8)
}

/// How the log writes the answer to an open: `fd=` and the handle, or
/// `rc=` and the return code, a form this library chose.
pub open spec fn handle_text(h: Result<i32, u32>) -> Seq<char> {
    match h {
        Ok(fd) => "fd="@ + int_text(fd as int),
        Err(rc) => "rc="@ + rc_text(rc),
    }
}

/// The text of a response that is only a return code.
pub open spec fn rc_response_text(rc: u32) -> Seq<char> {
    "          RC {return_code="@ + rc_text(rc) + "}"@
}

/// The length the log shows for a path: a file's length, zero for a folder.
pub open spec fn shown_length(info: FdInfoFields) -> u32 {
    if info.flags & 0x8000_0000 == 0 {
        info.file_length
    } else {
        0
    }
}

/// The text of the answer to a query.
pub open spec fn query_answer_text(q: QueryAnswer) -> Seq<char> {
    match q {
        QueryAnswer::ErrorCode(ec) => "ERROR:"@ + dec_text(ec as nat),
        QueryAnswer::FDInfo(info) => "INFO:flags="@ + hex_text(info.flags as nat, 2) + ":perms="@
            + hex_text(info.perms as nat, 2) + ":file_length="@ + dec_text(shown_length(info) as nat),
        QueryAnswer::LargeSize(v) => "LG:"@ + dec_text(v as nat),
        QueryAnswer::SmallSize(v) => "SM:"@ + dec_text(v as nat),
    }
}

/// The text the log writes for a response: its kind, right aligned in
/// twelve characters, then its fields in braces.
pub open spec fn response_text(v: ResponseView) -> Seq<char> {
    match v {
        ResponseView::CreateFolder(rc) => rc_response_text(rc),
        ResponseView::RewindFolder(rc) => rc_response_text(rc),
        ResponseView::CloseFolder(rc) => rc_response_text(rc),
        ResponseView::WriteFile(rc) => rc_response_text(rc),
        ResponseView::SetFilePosition(rc) => rc_response_text(rc),
        ResponseView::CloseFile(rc) => rc_response_text(rc),
        ResponseView::Remove(rc) => rc_response_text(rc),
        ResponseView::Rename(rc) => rc_response_text(rc),
        ResponseView::ChangeOwner(rc) => rc_response_text(rc),
        ResponseView::ChangeMode(rc) => rc_response_text(rc),
        ResponseView::OpenFolder(h) => "       FDRES {response="@ + handle_text(h) + "}"@,
        ResponseView::OpenFile(h) => "       FDRES {response="@ + handle_text(h) + "}"@,
        ResponseView::ReadFolder(rc, name) => " Folder Item {rc="@ + rc_text(rc) + ",next_item="@ + (
        match name {
            Some(n) => n,
            None => "<None>"@,
        }) + "}"@,
        ResponseView::ReadFile(Ok((size, len, header, chk))) => "        READ {chk="@ + hex_text(
            chk as nat,
            2,
        ) + ",file_size="@ + dec_text(size as nat) + ",packet_len="@ + dec_text(len as nat)
            + ",header="@ + bytes_debug_text(header) + "}"@,
        ResponseView::ReadFile(Err(rc)) => rc_response_text(rc),
        ResponseView::StatFile(Ok(info)) => "        STAT {file_or_folder_flags="@ + hex_text(
            info.flags as nat,
            2,
        ) + ",perms="@ + hex_text(info.perms as nat, 2) + ",file_length="@ + dec_text(
            shown_length(info) as nat,
        ) + "}"@,
        ResponseView::StatFile(Err(rc)) => rc_response_text(rc),
        ResponseView::QueryPath(Ok(q)) => "       QUERY {response="@ + query_answer_text(q) + "}"@,
        ResponseView::QueryPath(Err(rc)) => rc_response_text(rc),
        ResponseView::Pong(f, c) => "        PONG {ffio_enabled="@ + bool_text(f)
            + ",combined_send_recv_enabled="@ + bool_text(c) + "}"@,
        ResponseView::Unknown(d) => "     Unknown {data="@ + bytes_debug_text(d) + "}"@,
    }
}

impl TextBuf {
    /// Append a return code.
    fn push_rc(&mut self, rc: u32)
        requires
            old(self).wf(),
        ensures
            final(self).wf(),
            final(self).text@ == old(self).text@ + rc_text(rc),
    {
        self.push_str("0x");
        self.push_hex(rc as u64, 8);
        assert(self.text@ =~= old(self).text@ + rc_text(rc));
    }

    /// Append the text of a response that is only a return code.
    fn push_rc_response(&mut self, rc: u32)
        requires
            old(self).wf(),
        ensures
            final(self).wf(),
            final(self).text@ == old(self).text@ + rc_response_text(rc),
    {
        self.push_str("          RC {return_code=");
        self.push_rc(rc);
        self.push_str("}");
        assert(self.text@ =~= old(self).text@ + rc_response_text(rc));
    }

    /// Append the text of the answer to an open.
    fn push_handle_response(&mut self, h: Result<i32, u32>)
        requires
            old(self).wf(),
        ensures
            final(self).wf(),
            final(self).text@ == old(self).text@ + ("       FDRES {response="@ + handle_text(h) + "}"@),
    {
        self.push_str("       FDRES {response=");
        match h {
            Ok(fd) => {
                self.push_str("fd=");
                self.push_int(fd);
            },
            Err(rc) => {
                self.push_str("rc=");
                self.push_rc(rc);
            },
        }
        self.push_str("}");
        assert(self.text@ =~= old(self).text@ + ("       FDRES {response="@ + handle_text(h) + "}"@));
    }

    /// Append the flags, the permissions and the shown length of a path,
    /// each after its label.
    fn push_details(&mut self, info: &PCFSSataFdInfo, flags: &str, perms: &str, length: &str)
        requires
            old(self).wf(),
        ensures
            final(self).wf(),
            final(self).text@ == old(self).text@ + (flags@ + hex_text(info@.flags as nat, 2) + perms@
                + hex_text(info@.perms as nat, 2) + length@ + dec_text(shown_length(info@) as nat)),
    {
        self.push_str(flags);
        self.push_hex(info.flags() as u64, 2);
        self.push_str(perms);
        self.push_hex(info.permissions() as u64, 2);
        self.push_str(length);
        let shown: u32 = match info.file_size() {
            Some(n) => n,
            None => 0,
        };
        self.push_dec(shown as u64);
        assert(self.text@ =~= old(self).text@ + (flags@ + hex_text(info@.flags as nat, 2) + perms@
            + hex_text(info@.perms as nat, 2) + length@ + dec_text(shown_length(info@) as nat)));
    }

    /// Append the text of the answer to a query.
    fn push_query_answer(&mut self, q: &PCFSSataQueryResponse)
        requires
            old(self).wf(),
        ensures
            final(self).wf(),
            final(self).text@ == old(self).text@ + query_answer_text(q@),
    {
        match q {
            PCFSSataQueryResponse::ErrorCode(ec) => {
                self.push_str("ERROR:");
                self.push_dec(*ec as u64);
            },
            PCFSSataQueryResponse::FDInfo(info) => {
                self.push_details(info, "INFO:flags=", ":perms=", ":file_length=");
            },
            PCFSSataQueryResponse::LargeSize(v) => {
                self.push_str("LG:");
                self.push_dec(*v);
            },
            PCFSSataQueryResponse::SmallSize(v) => {
                self.push_str("SM:");
                self.push_dec(*v as u64);
            },
        }
        assert(self.text@ =~= old(self).text@ + query_answer_text(q@));
    }

    /// Append the text of a response that carries more than a return code.
    fn push_rich_response(&mut self, resp: &WaitingResponse)
        requires
            old(self).wf(),
            resp is ReadFolder || resp is ReadFile || resp is StatFile || resp is QueryPath
                || resp is Pong || resp is Unknown,
        ensures
            final(self).wf(),
            final(self).text@ == old(self).text@ + response_text(resp@),
    {
        let ghost t0 = self.text@;
        match resp {
            WaitingResponse::ReadFolder(rc, name) => {
                self.push_str(" Folder Item {rc=");
                self.push_rc(*rc);
                self.push_str(",next_item=");
                match name {
                    Some(n) => self.push_str(n.as_str()),
                    None => self.push_str("<None>"),
                }
                self.push_str("}");
                assert(self.text@ =~= t0 + response_text(resp@));
            },
            WaitingResponse::ReadFile(Ok((size, len, header, chk))) => {
                self.push_str("        READ {chk=");
                self.push_hex(*chk, 2);
                self.push_str(",file_size=");
                self.push_dec(*size as u64);
                self.push_str(",packet_len=");
                self.push_dec(*len as u64);
                self.push_str(",header=");
                let shown = bytes_debug(header.as_slice());
                self.push_str(shown.as_str());
                self.push_str("}");
                assert(self.text@ =~= t0 + response_text(resp@));
            },
            WaitingResponse::ReadFile(Err(rc)) => self.push_rc_response(*rc),
            WaitingResponse::StatFile(Ok(info)) => {
                self.push_details(info, "        STAT {file_or_folder_flags=", ",perms=", ",file_length=");
                self.push_str("}");
                assert(self.text@ =~= t0 + response_text(resp@));
            },
            WaitingResponse::StatFile(Err(rc)) => self.push_rc_response(*rc),
            WaitingResponse::QueryPath(Ok(q)) => {
                self.push_str("       QUERY {response=");
                self.push_query_answer(q);
                self.push_str("}");
                assert(self.text@ =~= t0 + response_text(resp@));
            },
            WaitingResponse::QueryPath(Err(rc)) => self.push_rc_response(*rc),
            WaitingResponse::Pong(f, c) => {
                self.push_str("        PONG {ffio_enabled=");
                self.push_bool(*f);
                self.push_str(",combined_send_recv_enabled=");
                self.push_bool(*c);
                self.push_str("}");
                assert(self.text@ =~= t0 + response_text(resp@));
            },
            WaitingResponse::Unknown(d) => {
                let shown = bytes_debug(d.as_slice());
                self.push_braced("     Unknown {data=", shown.as_str());
            },
            _ => {},
        }
    }

    /// Append the text of a response.
    fn push_response(&mut self, resp: &WaitingResponse)
        requires
            old(self).wf(),
        ensures
            final(self).wf(),
            final(self).text@ == old(self).text@ + response_text(resp@),
    {
        match resp {
            WaitingResponse::CreateFolder(rc) => self.push_rc_response(*rc),
            WaitingResponse::RewindFolder(rc) => self.push_rc_response(*rc),
            WaitingResponse::CloseFolder(rc) => self.push_rc_response(*rc),
            WaitingResponse::WriteFile(rc) => self.push_rc_response(*rc),
            WaitingResponse::SetFilePosition(rc) => self.push_rc_response(*rc),
            WaitingResponse::CloseFile(rc) => self.push_rc_response(*rc),
            WaitingResponse::Remove(rc) => self.push_rc_response(*rc),
            WaitingResponse::Rename(rc) => self.push_rc_response(*rc),
            WaitingResponse::ChangeOwner(rc) => self.push_rc_response(*rc),
            WaitingResponse::ChangeMode(rc) => self.push_rc_response(*rc),
            WaitingResponse::OpenFolder(h) => self.push_handle_response(*h),
            WaitingResponse::OpenFile(h) => self.push_handle_response(*h),
            _ => self.push_rich_response(resp),
        }
    }
}

/// The line the log writes for a response: `<-`, the response's text (see
/// `response_text`) and a line feed.
pub fn response_line(resp: &WaitingResponse) -> (r: String)
    ensures
        r@ == "<-"@ + response_text(resp@) + "\n"@,
{
    let mut b = TextBuf::new();
    b.push_str("<-");
    b.push_response(resp);
    b.push_str("\n");
    assert(b.text@ =~= "<-"@ + response_text(resp@) + "\n"@);
    b.into_string()
}

} // verus!
