//! The server name in a TLS ClientHello.
//!
//! The parser walks the TLS record header, the handshake header and the body
//! of the ClientHello to the `server_name` extension, and takes the first
//! entry of type `host_name` in it (RFC 8446 section 4.1.2, RFC 6066
//! section 3). It does no cryptography.

use vstd::prelude::*;
use vstd::slice::slice_subrange;
use vstd::string::*;
use vstd::utf8::{decode_utf8, valid_utf8};

use crate::text::str_from_utf8;
use crate::wire::Parser;
use crate::wire::{be16, be24};

verus! {

/// What the first bytes of a connection say about the server name.
pub enum SniResult {
    /// The server name.
    Found(String),
    /// The bytes are a strict prefix of the ClientHello: more are needed.
    Incomplete,
    /// The ClientHello is complete and names no host. The caller decides
    /// whether to drop the connection or to fall back to a default backend.
    Absent,
    /// The bytes do not parse as a ClientHello, for the reason given.
    Malformed(&'static str),
}

/// The view of an `SniResult`.
pub enum SniView {
    Found(Seq<char>),
    Incomplete,
    Absent,
    Malformed(Seq<char>),
}

impl View for SniResult {
    type V = SniView;

    open spec fn view(&self) -> SniView {
        match self {
            SniResult::Found(name) => SniView::Found(name@),
            SniResult::Incomplete => SniView::Incomplete,
            SniResult::Absent => SniView::Absent,
            SniResult::Malformed(reason) => SniView::Malformed(reason@),
        }
    }
}

/// The TLS record type of a handshake message.
pub const RECORD_TYPE_HANDSHAKE: u8 = 0x16;

/// The handshake type of a ClientHello.
pub const HANDSHAKE_TYPE_CLIENT_HELLO: u8 = 0x01;

/// The type of the `server_name` extension.
pub const EXTENSION_SERVER_NAME: u16 = 0x0000;

/// The type of a `host_name` entry in a server name list.
pub const NAME_TYPE_HOST_NAME: u8 = 0x00;

/// The payload of the TLS record at the front of `buf`, once it is all there.
/// What follows the record is no part of it.
pub open spec fn record_payload(buf: Seq<u8>) -> Option<Seq<u8>> {
    if buf.len() >= 5 && buf.len() >= 5 + be16(buf.skip(3)) {
        Some(buf.subrange(5, 5 + be16(buf.skip(3)) as int))
    } else {
        None
    }
}

/// What follows a vector with a one-byte length, where the vector is all there.
pub open spec fn after_vec8(s: Seq<u8>) -> Option<Seq<u8>> {
    if s.len() >= 1 && s.len() >= 1 + s[0] {
        Some(s.skip(1 + s[0]))
    } else {
        None
    }
}

/// What follows a vector with a two-byte length, where the vector is all there.
pub open spec fn after_vec16(s: Seq<u8>) -> Option<Seq<u8>> {
    if s.len() >= 2 && s.len() >= 2 + be16(s) {
        Some(s.skip(2 + be16(s) as int))
    } else {
        None
    }
}

/// What follows the version, the random, the session id, the cipher suites
/// and the compression methods in the body of a ClientHello.
pub open spec fn after_fixed_fields(body: Seq<u8>) -> Option<Seq<u8>> {
    if body.len() < 34 {
        None
    } else {
        match after_vec8(body.skip(34)) {
            None => None,
            Some(suites) => match after_vec16(suites) {
                None => None,
                Some(methods) => after_vec8(methods),
            },
        }
    }
}

/// The verdict on a server name list: its first entry of type `host_name`
/// decides. A host name has at least one byte.
pub open spec fn name_list_sni(list: Seq<u8>) -> SniView
    decreases list.len(),
{
    if list.len() < 3 {
        SniView::Absent
    } else {
        let n = be16(list.skip(1)) as int;
        if list.len() < 3 + n {
            SniView::Malformed("server_name: name overflows"@)
        } else if list[0] == NAME_TYPE_HOST_NAME {
            if n == 0 {
                SniView::Malformed("server_name: empty hostname"@)
            } else if valid_utf8(list.subrange(3, 3 + n)) {
                SniView::Found(decode_utf8(list.subrange(3, 3 + n)))
            } else {
                SniView::Malformed("server_name: non-utf8 hostname"@)
            }
        } else {
            name_list_sni(list.skip(3 + n))
        }
    }
}

/// The verdict on the body of a `server_name` extension.
pub open spec fn server_name_sni(ext: Seq<u8>) -> SniView {
    if ext.len() < 2 {
        SniView::Malformed("server_name: short list length"@)
    } else if ext.len() < 2 + be16(ext) {
        SniView::Malformed("server_name: short list payload"@)
    } else {
        name_list_sni(ext.subrange(2, 2 + be16(ext) as int))
    }
}

/// The verdict on a block of extensions: its first `server_name` extension
/// decides.
pub open spec fn extensions_sni(block: Seq<u8>) -> SniView
    decreases block.len(),
{
    if block.len() < 4 {
        SniView::Absent
    } else {
        let n = be16(block.skip(2)) as int;
        if block.len() < 4 + n {
            SniView::Malformed("extension overflows extensions block"@)
        } else if be16(block) == EXTENSION_SERVER_NAME {
            server_name_sni(block.subrange(4, 4 + n))
        } else {
            extensions_sni(block.skip(4 + n))
        }
    }
}

/// The verdict on the body of a ClientHello, which is all there: a field that
/// goes past its end is an error. A body that ends with the compression
/// methods has no extensions.
pub open spec fn hello_sni(body: Seq<u8>) -> SniView {
    match after_fixed_fields(body) {
        None => SniView::Malformed("ClientHello body too short"@),
        Some(rest) => if rest.len() < 2 {
            SniView::Absent
        } else if rest.len() < 2 + be16(rest) {
            SniView::Malformed("extensions overflow ClientHello"@)
        } else {
            extensions_sni(rest.subrange(2, 2 + be16(rest) as int))
        },
    }
}

/// The verdict on the payload of a handshake record.
pub open spec fn handshake_sni(payload: Seq<u8>) -> SniView {
    if payload.len() == 0 {
        SniView::Incomplete
    } else if payload[0] != HANDSHAKE_TYPE_CLIENT_HELLO {
        SniView::Malformed("not a ClientHello"@)
    } else if payload.len() < 4 || payload.len() < 4 + be24(payload.skip(1)) {
        SniView::Incomplete
    } else {
        hello_sni(payload.subrange(4, 4 + be24(payload.skip(1)) as int))
    }
}

/// The verdict on the first bytes of a connection.
pub open spec fn sni(buf: Seq<u8>) -> SniView {
    if buf.len() == 0 {
        SniView::Incomplete
    } else if buf[0] != RECORD_TYPE_HANDSHAKE {
        SniView::Malformed("first byte is not a handshake record"@)
    } else {
        match record_payload(buf) {
            None => SniView::Incomplete,
            Some(payload) => handshake_sni(payload),
        }
    }
}

/// Finds the server name in the first bytes of a connection.
pub fn parse_sni(buf: &[u8]) -> (r: SniResult)
    ensures
        r@ == sni(buf@),
{
    let mut p = Parser::new(buf);

    // TLS record header: type, legacy version, length.
    let record_type: u8 = match p.u8() {
        Some(b) => b,
        None => return SniResult::Incomplete,
    };
    if record_type != RECORD_TYPE_HANDSHAKE {
        return SniResult::Malformed("first byte is not a handshake record");
    }
    if p.skip(2).is_err() {
        return SniResult::Incomplete;
    }
    assert(p@ =~= buf@.skip(3));
    let record_len: usize = match p.u16() {
        Some(n) => n as usize,
        None => return SniResult::Incomplete,
    };
    if buf.len() < 5 + record_len {
        return SniResult::Incomplete;
    }
    // Anything past the record is another record, which is ignored.

    parse_handshake(slice_subrange(buf, 5, 5 + record_len))
}

/// Reads the payload of a handshake record.
fn parse_handshake(payload: &[u8]) -> (r: SniResult)
    ensures
        r@ == handshake_sni(payload@),
{
    let mut p = Parser::new(payload);
    match p.u8() {
        Some(b) => {
            if b != HANDSHAKE_TYPE_CLIENT_HELLO {
                return SniResult::Malformed("not a ClientHello");
            }
        },
        None => return SniResult::Incomplete,
    }
    let hs_len: usize = match p.u24() {
        Some(n) => n as usize,
        None => return SniResult::Incomplete,
    };
    assert(p@ =~= payload@.skip(4));
    if p.remaining() < hs_len {
        return SniResult::Incomplete;
    }
    let body = slice_subrange(p.tail(), 0, hs_len);
    assert(body@ =~= payload@.subrange(4, 4 + hs_len));
    parse_hello(body)
}

/// Reads the body of a ClientHello, all of which is there.
fn parse_hello(body: &[u8]) -> (r: SniResult)
    ensures
        r@ == hello_sni(body@),
{
    let mut p = Parser::new(body);
    if p.skip(2).is_err() {
        // version
        return SniResult::Malformed("ClientHello body too short");
    }
    if p.skip(32).is_err() {
        // random
        return SniResult::Malformed("ClientHello body too short");
    }
    assert(p@ =~= body@.skip(34));
    let ghost session = p@;
    let sid_len: usize = match p.u8() {
        Some(n) => n as usize,
        None => return SniResult::Malformed("ClientHello body too short"),
    };
    if p.skip(sid_len).is_err() {
        return SniResult::Malformed("ClientHello body too short");
    }
    assert(p@ =~= session.skip(1 + sid_len));
    let ghost suites = p@;
    let cs_len: usize = match p.u16() {
        Some(n) => n as usize,
        None => return SniResult::Malformed("ClientHello body too short"),
    };
    if p.skip(cs_len).is_err() {
        return SniResult::Malformed("ClientHello body too short");
    }
    assert(p@ =~= suites.skip(2 + cs_len));
    let ghost methods = p@;
    let cm_len: usize = match p.u8() {
        Some(n) => n as usize,
        None => return SniResult::Malformed("ClientHello body too short"),
    };
    if p.skip(cm_len).is_err() {
        return SniResult::Malformed("ClientHello body too short");
    }
    assert(p@ =~= methods.skip(1 + cm_len));
    let ghost rest = p@;
    assert(after_fixed_fields(body@) == Some(rest));
    // TLS 1.2 leaves the extensions out when there are none.
    let ext_total: usize = match p.u16() {
        Some(n) => n as usize,
        None => return SniResult::Absent,
    };
    if p.remaining() < ext_total {
        return SniResult::Malformed("extensions overflow ClientHello");
    }
    let block = slice_subrange(p.tail(), 0, ext_total);
    assert(block@ =~= rest.subrange(2, 2 + ext_total));
    parse_extensions(block)
}

/// Reads a block of extensions.
fn parse_extensions(block: &[u8]) -> (r: SniResult)
    ensures
        r@ == extensions_sni(block@),
{
    let mut ep = Parser::new(block);
    while ep.remaining() >= 4
        invariant
            extensions_sni(block@) == extensions_sni(ep@),
        decreases ep@.len(),
    {
        let ghost before = ep@;
        let ext_type: u16 = ep.u16().unwrap();
        let ext_len: usize = ep.u16().unwrap() as usize;
        assert(ep@ =~= before.skip(4));
        if ep.remaining() < ext_len {
            return SniResult::Malformed("extension overflows extensions block");
        }
        let ext_body = slice_subrange(ep.tail(), 0, ext_len);
        assert(ext_body@ =~= before.subrange(4, 4 + ext_len));
        let _ = ep.skip(ext_len);
        assert(ep@ =~= before.skip(4 + ext_len));
        if ext_type == EXTENSION_SERVER_NAME {
            return parse_server_name(ext_body);
        }
    }
    SniResult::Absent
}

/// Reads the body of a `server_name` extension: a list, with a two-byte
/// length, of entries that are a type and a name with a two-byte length. A
/// host name is from 1 to 2^16-1 bytes long.
pub fn parse_server_name(buf: &[u8]) -> (r: SniResult)
    ensures
        r@ == server_name_sni(buf@),
{
    let mut p = Parser::new(buf);
    let list_len: usize = match p.u16() {
        Some(n) => n as usize,
        None => return SniResult::Malformed("server_name: short list length"),
    };
    if p.remaining() < list_len {
        return SniResult::Malformed("server_name: short list payload");
    }
    assert(buf@.skip(2).subrange(0, list_len as int) =~= buf@.subrange(2, 2 + list_len));
    let mut lp = Parser::new(slice_subrange(p.tail(), 0, list_len));
    while lp.remaining() >= 3
        invariant
            server_name_sni(buf@) == name_list_sni(lp@),
        decreases lp@.len(),
    {
        let ghost list = lp@;
        let name_type: u8 = lp.u8().unwrap();
        let name_len: usize = lp.u16().unwrap() as usize;
        assert(lp@ =~= list.skip(3));
        if lp.remaining() < name_len {
            return SniResult::Malformed("server_name: name overflows");
        }
        let body = slice_subrange(lp.tail(), 0, name_len);
        assert(body@ =~= list.subrange(3, 3 + name_len));
        let _ = lp.skip(name_len);
        assert(lp@ =~= list.skip(3 + name_len));
        if name_type == NAME_TYPE_HOST_NAME {
            if name_len == 0 {
                return SniResult::Malformed("server_name: empty hostname");
            }
            return match str_from_utf8(body) {
                Some(s) => SniResult::Found(s.to_owned()),
                None => SniResult::Malformed("server_name: non-utf8 hostname"),
            };
        }
    }
    SniResult::Absent
}

} // verus!
