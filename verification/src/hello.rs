//! TLS ClientHello records as their senders build them, and what the parser
//! makes of them.

use vstd::prelude::*;
use vstd::utf8::{decode_utf8, encode_utf8, encode_utf8_decode_utf8, encode_utf8_valid_utf8, valid_utf8};

use crate::sni::{
    after_fixed_fields, after_vec16, after_vec8, extensions_sni, hello_sni, name_list_sni,
    record_payload, sni,
};
use crate::sni::{
    SniView, EXTENSION_SERVER_NAME, HANDSHAKE_TYPE_CLIENT_HELLO, NAME_TYPE_HOST_NAME,
    RECORD_TYPE_HANDSHAKE,
};
use crate::wire::{be16, be24};

verus! {

/// An entry of a server name list.
pub struct NameEntry {
    pub name_type: u8,
    pub name: Seq<u8>,
}

/// An extension of a ClientHello.
pub enum Extension {
    /// The `server_name` extension, with its list of names.
    ServerName(Seq<NameEntry>),
    /// An extension of another type, with its body.
    Other(u16, Seq<u8>),
}

/// A ClientHello in a TLS record of its own.
pub struct ClientHello {
    pub record_version: Seq<u8>,
    pub version: Seq<u8>,
    pub random: Seq<u8>,
    pub session_id: Seq<u8>,
    pub cipher_suites: Seq<u8>,
    pub compression_methods: Seq<u8>,
    /// `None` where the extensions are left out altogether.
    pub extensions: Option<Seq<Extension>>,
}

/// `n` as two bytes, the high one first.
pub open spec fn u16_bytes(n: nat) -> Seq<u8> {
    seq![(n / 0x100) as u8, (n % 0x100) as u8]
}

/// `n` as three bytes, the highest one first.
pub open spec fn u24_bytes(n: nat) -> Seq<u8> {
    seq![(n / 0x1_0000) as u8, (n / 0x100 % 0x100) as u8, (n % 0x100) as u8]
}

/// `s` after its length in one byte.
pub open spec fn vec8(s: Seq<u8>) -> Seq<u8> {
    seq![s.len() as u8] + s
}

/// `s` after its length in two bytes.
pub open spec fn vec16(s: Seq<u8>) -> Seq<u8> {
    u16_bytes(s.len()) + s
}

/// The entries of a server name list, one after the other.
pub open spec fn names_bytes(names: Seq<NameEntry>) -> Seq<u8>
    decreases names.len(),
{
    if names.len() == 0 {
        Seq::empty()
    } else {
        seq![names[0].name_type] + vec16(names[0].name) + names_bytes(names.drop_first())
    }
}

/// Whether the lengths in a list of names fit their fields.
pub open spec fn names_fit(names: Seq<NameEntry>) -> bool {
    forall|i: int| 0 <= i < names.len() ==> (#[trigger] names[i]).name.len() <= 0xffff
}

impl Extension {
    /// The type of the extension.
    pub open spec fn kind(self) -> nat {
        match self {
            Extension::ServerName(_) => EXTENSION_SERVER_NAME as nat,
            Extension::Other(kind, _) => kind as nat,
        }
    }

    /// The body of the extension.
    pub open spec fn body(self) -> Seq<u8> {
        match self {
            Extension::ServerName(names) => vec16(names_bytes(names)),
            Extension::Other(_, body) => body,
        }
    }

    /// Whether the extension can be written down: its lengths fit their
    /// fields, and only `server_name` has the type of `server_name`.
    pub open spec fn fits(self) -> bool {
        &&& self.body().len() <= 0xffff
        &&& match self {
            Extension::ServerName(names) => names_fit(names),
            Extension::Other(kind, _) => kind != EXTENSION_SERVER_NAME,
        }
    }
}

/// The extensions, one after the other.
pub open spec fn extensions_bytes(exts: Seq<Extension>) -> Seq<u8>
    decreases exts.len(),
{
    if exts.len() == 0 {
        Seq::empty()
    } else {
        u16_bytes(exts[0].kind()) + vec16(exts[0].body()) + extensions_bytes(exts.drop_first())
    }
}

impl ClientHello {
    /// The body of the ClientHello.
    pub open spec fn body(self) -> Seq<u8> {
        self.version + self.random + vec8(self.session_id) + vec16(self.cipher_suites) + vec8(
            self.compression_methods,
        ) + match self.extensions {
            None => Seq::empty(),
            Some(exts) => vec16(extensions_bytes(exts)),
        }
    }

    /// The handshake message: its type, its length, and the body.
    pub open spec fn handshake(self) -> Seq<u8> {
        seq![HANDSHAKE_TYPE_CLIENT_HELLO] + u24_bytes(self.body().len()) + self.body()
    }

    /// The record: its type, its version, and the handshake message after its
    /// length.
    pub open spec fn record(self) -> Seq<u8> {
        seq![RECORD_TYPE_HANDSHAKE] + self.record_version + vec16(self.handshake())
    }

    /// Whether the lengths are those of the format or fit their fields.
    pub open spec fn well_formed(self) -> bool {
        &&& self.record_version.len() == 2
        &&& self.version.len() == 2
        &&& self.random.len() == 32
        &&& self.session_id.len() <= 0xff
        &&& self.cipher_suites.len() <= 0xffff
        &&& self.compression_methods.len() <= 0xff
        &&& self.handshake().len() <= 0xffff
        &&& self.extensions matches Some(exts) ==> {
            &&& extensions_bytes(exts).len() <= 0xffff
            &&& forall|i: int| 0 <= i < exts.len() ==> (#[trigger] exts[i]).fits()
        }
    }

    /// The verdict that the ClientHello deserves.
    pub open spec fn server_name(self) -> SniView {
        match self.extensions {
            None => SniView::Absent,
            Some(exts) => first_server_name(exts),
        }
    }
}

/// What the first `server_name` extension among `exts` says.
pub open spec fn first_server_name(exts: Seq<Extension>) -> SniView
    decreases exts.len(),
{
    if exts.len() == 0 {
        SniView::Absent
    } else {
        match exts[0] {
            Extension::ServerName(names) => first_host_name(names),
            Extension::Other(_, _) => first_server_name(exts.drop_first()),
        }
    }
}

/// What the first entry of type `host_name` among `names` says.
pub open spec fn first_host_name(names: Seq<NameEntry>) -> SniView
    decreases names.len(),
{
    if names.len() == 0 {
        SniView::Absent
    } else if names[0].name_type == NAME_TYPE_HOST_NAME {
        if names[0].name.len() == 0 {
            SniView::Malformed("server_name: empty hostname"@)
        } else if valid_utf8(names[0].name) {
            SniView::Found(decode_utf8(names[0].name))
        } else {
            SniView::Malformed("server_name: non-utf8 hostname"@)
        }
    } else {
        first_host_name(names.drop_first())
    }
}

pub(crate) proof fn lemma_be16(n: nat, rest: Seq<u8>)
    requires
        n <= 0xffff,
    ensures
        be16(u16_bytes(n) + rest) == n,
{
    let s = u16_bytes(n) + rest;
    assert(s[0] == (n / 0x100) as u8);
    assert(s[1] == (n % 0x100) as u8);
}

pub(crate) proof fn lemma_be24(n: nat, rest: Seq<u8>)
    requires
        n <= 0xff_ffff,
    ensures
        be24(u24_bytes(n) + rest) == n,
{
    let s = u24_bytes(n) + rest;
    assert(s[0] == (n / 0x1_0000) as u8);
    assert(s[1] == (n / 0x100 % 0x100) as u8);
    assert(s[2] == (n % 0x100) as u8);
}

pub(crate) proof fn lemma_after_vec8(s: Seq<u8>, rest: Seq<u8>)
    requires
        s.len() <= 0xff,
    ensures
        after_vec8(vec8(s) + rest) == Some(rest),
{
    assert((vec8(s) + rest).skip(1 + s.len() as int) =~= rest);
}

pub(crate) proof fn lemma_after_vec16(s: Seq<u8>, rest: Seq<u8>)
    requires
        s.len() <= 0xffff,
    ensures
        be16(vec16(s) + rest) == s.len(),
        after_vec16(vec16(s) + rest) == Some(rest),
{
    assert(vec16(s) + rest =~= u16_bytes(s.len()) + (s + rest));
    lemma_be16(s.len(), s + rest);
    assert((vec16(s) + rest).skip(2 + s.len() as int) =~= rest);
}

proof fn lemma_names(names: Seq<NameEntry>)
    requires
        names_fit(names),
    ensures
        name_list_sni(names_bytes(names)) == first_host_name(names),
    decreases names.len(),
{
    if names.len() > 0 {
        let name = names[0].name;
        let more = names_bytes(names.drop_first());
        let list = names_bytes(names);
        let n = name.len() as int;
        assert(list.skip(1) =~= vec16(name) + more);
        lemma_after_vec16(name, more);
        assert(list.len() >= 3 + n);
        assert(list.subrange(3, 3 + n) =~= name);
        assert(list.skip(3 + n) =~= more);
        lemma_names(names.drop_first());
    }
}

proof fn lemma_extensions(exts: Seq<Extension>)
    requires
        forall|i: int| 0 <= i < exts.len() ==> (#[trigger] exts[i]).fits(),
    ensures
        extensions_sni(extensions_bytes(exts)) == first_server_name(exts),
    decreases exts.len(),
{
    if exts.len() > 0 {
        let body = exts[0].body();
        let more = extensions_bytes(exts.drop_first());
        let block = extensions_bytes(exts);
        let n = body.len() as int;
        assert(exts[0].fits());
        assert(block =~= u16_bytes(exts[0].kind()) + (vec16(body) + more));
        lemma_be16(exts[0].kind(), vec16(body) + more);
        assert(block.skip(2) =~= vec16(body) + more);
        lemma_after_vec16(body, more);
        assert(block.len() >= 4 + n);
        assert(block.subrange(4, 4 + n) =~= body);
        assert(block.skip(4 + n) =~= more);
        match exts[0] {
            Extension::ServerName(names) => {
                let list = names_bytes(names);
                assert(body =~= vec16(list) + Seq::empty());
                lemma_after_vec16(list, Seq::empty());
                assert(body.subrange(2, 2 + list.len() as int) =~= list);
                lemma_names(names);
            },
            Extension::Other(_, _) => {
                lemma_extensions(exts.drop_first());
            },
        }
    }
}

proof fn lemma_hello(h: ClientHello)
    requires
        h.well_formed(),
    ensures
        hello_sni(h.body()) == h.server_name(),
{
    let tail = match h.extensions {
        None => Seq::empty(),
        Some(exts) => vec16(extensions_bytes(exts)),
    };
    let methods = vec8(h.compression_methods) + tail;
    let suites = vec16(h.cipher_suites) + methods;
    let session = vec8(h.session_id) + suites;
    let body = h.body();
    assert(body.skip(34) =~= session);
    lemma_after_vec8(h.session_id, suites);
    lemma_after_vec16(h.cipher_suites, methods);
    lemma_after_vec8(h.compression_methods, tail);
    assert(after_fixed_fields(body) == Some(tail));
    match h.extensions {
        None => {},
        Some(exts) => {
            let block = extensions_bytes(exts);
            assert(tail =~= vec16(block) + Seq::empty());
            lemma_after_vec16(block, Seq::empty());
            assert(tail.subrange(2, 2 + block.len() as int) =~= block);
            lemma_extensions(exts);
        },
    }
}

/// Whatever follows the record of a well-formed ClientHello, the parser finds
/// in it the first host name of its first `server_name` extension, and finds
/// the name absent where there is none.
pub proof fn law_server_name_is_found(h: ClientHello, rest: Seq<u8>)
    requires
        h.well_formed(),
    ensures
        sni(h.record() + rest) == h.server_name(),
{
    let buf = h.record() + rest;
    let msg = h.handshake();
    let body = h.body();
    assert(buf.skip(3) =~= vec16(msg) + rest);
    lemma_after_vec16(msg, rest);
    assert(buf.subrange(5, 5 + msg.len() as int) =~= msg);
    assert(record_payload(buf) == Some(msg));
    assert(msg.skip(1) =~= u24_bytes(body.len()) + body);
    lemma_be24(body.len(), body);
    assert(msg.subrange(4, 4 + body.len() as int) =~= body);
    lemma_hello(h);
}

/// A host name, whatever its characters, is found as it was sent. (An empty one
/// is not a host name.)
pub proof fn law_sent_name_is_found(h: ClientHello, name: Seq<char>, rest: Seq<u8>)
    requires
        h.well_formed(),
        name.len() > 0,
        h.extensions matches Some(exts) && exts.len() > 0 && exts[0] == Extension::ServerName(
            seq![NameEntry { name_type: NAME_TYPE_HOST_NAME, name: encode_utf8(name) }],
        ),
    ensures
        sni(h.record() + rest) == SniView::Found(name),
{
    law_server_name_is_found(h, rest);
    encode_utf8_valid_utf8(name);
    encode_utf8_decode_utf8(name);
}

/// Every strict prefix of a record that starts like a handshake record is
/// incomplete, whatever the record holds.
pub proof fn law_prefix_is_incomplete(buf: Seq<u8>, n: int)
    requires
        0 <= n < buf.len(),
        buf[0] == RECORD_TYPE_HANDSHAKE,
        buf.len() >= 5 ==> n < 5 + be16(buf.skip(3)),
    ensures
        sni(buf.take(n)) == SniView::Incomplete,
{
    let pre = buf.take(n);
    if n >= 5 {
        assert(pre.skip(3)[0] == buf.skip(3)[0]);
        assert(pre.skip(3)[1] == buf.skip(3)[1]);
    }
}

/// Every strict prefix of the record of a ClientHello is incomplete.
pub proof fn law_partial_hello_is_incomplete(h: ClientHello, n: int)
    requires
        h.well_formed(),
        0 <= n < h.record().len(),
    ensures
        sni(h.record().take(n)) == SniView::Incomplete,
{
    let buf = h.record();
    let msg = h.handshake();
    assert(buf.skip(3) =~= vec16(msg) + Seq::empty());
    lemma_after_vec16(msg, Seq::empty());
    law_prefix_is_incomplete(buf, n);
}

proof fn lemma_names_give_a_verdict(list: Seq<u8>)
    ensures
        name_list_sni(list) != SniView::Incomplete,
    decreases list.len(),
{
    if list.len() >= 3 {
        let n = be16(list.skip(1)) as int;
        if list.len() >= 3 + n {
            lemma_names_give_a_verdict(list.skip(3 + n));
        }
    }
}

proof fn lemma_extensions_give_a_verdict(block: Seq<u8>)
    ensures
        extensions_sni(block) != SniView::Incomplete,
    decreases block.len(),
{
    if block.len() >= 4 {
        let n = be16(block.skip(2)) as int;
        if block.len() >= 4 + n {
            let body = block.subrange(4, 4 + n);
            if body.len() >= 2 && body.len() >= 2 + be16(body) {
                lemma_names_give_a_verdict(body.subrange(2, 2 + be16(body) as int));
            }
            lemma_extensions_give_a_verdict(block.skip(4 + n));
        }
    }
}

/// Bytes are incomplete only where the ClientHello goes on past them: the
/// record is not all there, or the handshake message is longer than the
/// record.
pub proof fn law_incomplete_means_more_to_come(buf: Seq<u8>)
    ensures
        sni(buf) == SniView::Incomplete <==> buf.len() == 0 || buf[0] == RECORD_TYPE_HANDSHAKE && (
        match record_payload(buf) {
            None => true,
            Some(payload) => payload.len() == 0 || payload[0] == HANDSHAKE_TYPE_CLIENT_HELLO && (
            payload.len() < 4 || payload.len() < 4 + be24(payload.skip(1))),
        }),
{
    if let Some(payload) = record_payload(buf) {
        if payload.len() >= 4 && payload.len() >= 4 + be24(payload.skip(1)) {
            let body = payload.subrange(4, 4 + be24(payload.skip(1)) as int);
            if let Some(rest) = after_fixed_fields(body) {
                if rest.len() >= 2 && rest.len() >= 2 + be16(rest) {
                    lemma_extensions_give_a_verdict(rest.subrange(2, 2 + be16(rest) as int));
                }
            }
        }
    }
}

/// Once a record is all there, no byte that follows it changes the verdict.
pub proof fn law_later_bytes_are_ignored(buf: Seq<u8>, more: Seq<u8>)
    requires
        buf.len() > 0,
        buf[0] == RECORD_TYPE_HANDSHAKE ==> record_payload(buf) is Some,
    ensures
        sni(buf + more) == sni(buf),
{
    if buf[0] == RECORD_TYPE_HANDSHAKE {
        assert((buf + more).skip(3)[0] == buf.skip(3)[0]);
        assert((buf + more).skip(3)[1] == buf.skip(3)[1]);
        let n = be16(buf.skip(3)) as int;
        assert((buf + more).subrange(5, 5 + n) =~= buf.subrange(5, 5 + n));
    }
}

/// A verdict other than "incomplete" is final: bytes that arrive later never
/// change it.
pub proof fn law_verdict_is_final(buf: Seq<u8>, more: Seq<u8>)
    requires
        sni(buf) != SniView::Incomplete,
    ensures
        sni(buf + more) == sni(buf),
{
    law_later_bytes_are_ignored(buf, more);
}

} // verus!
