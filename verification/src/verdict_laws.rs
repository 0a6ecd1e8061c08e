//! What the parser makes of bytes, field by field. Each law speaks of calls: of
//! their arguments, and of what they gave back.
//!
//! Together they cover all bytes. A record that is not all there, or whose
//! handshake message is not, is incomplete. The body of a complete ClientHello
//! either ends within its fixed fields, or goes on with a block of extensions.
//! That block is made of extensions of other types and then of the first
//! `server_name` extension, or of a rest that is no extension. A list of names
//! is made of names of other types and then of the first `host_name`, or of a
//! rest that is no name.

use vstd::prelude::*;
use vstd::string::*;
use vstd::utf8::{decode_utf8, valid_utf8};

use crate::hello::{
    extensions_bytes, names_bytes, u16_bytes, u24_bytes, vec16, vec8, ClientHello, Extension,
    NameEntry,
};
use crate::hello::{
    law_incomplete_means_more_to_come, lemma_after_vec16, lemma_after_vec8, lemma_be16, lemma_be24,
};
use crate::sni::{
    after_fixed_fields, after_vec16, after_vec8, extensions_sni, hello_sni, name_list_sni,
    parse_server_name, parse_sni, record_payload, server_name_sni, sni, SniResult, SniView,
};
use crate::wire::Parser;

verus! {

/// Integers are read high byte first.
pub proof fn law_integers_are_big_endian(
    p: &mut Parser,
    two: Option<u16>,
    q: &mut Parser,
    three: Option<u32>,
)
    requires
        call_ensures(Parser::u16, (p,), two),
        call_ensures(Parser::u24, (q,), three),
    ensures
        old(p)@.len() >= 2 ==> two is Some && two->0 == old(p)@[0] * 256 + old(p)@[1]
            && final(p)@ == old(p)@.skip(2),
        old(p)@.len() < 2 ==> two is None && final(p)@ == old(p)@,
        old(q)@.len() >= 3 ==> three is Some && three->0 == old(q)@[0] * 65536 + old(q)@[1] * 256
            + old(q)@[2] && final(q)@ == old(q)@.skip(3),
        old(q)@.len() < 3 ==> three is None && final(q)@ == old(q)@,
{
}

/// The view of a verdict holds all of the verdict.
pub proof fn law_views_hold_the_verdict(r: SniResult)
    ensures
        match r {
            SniResult::Found(name) => r@ == SniView::Found(name@),
            SniResult::Incomplete => r@ == SniView::Incomplete,
            SniResult::Absent => r@ == SniView::Absent,
            SniResult::Malformed(why) => r@ == SniView::Malformed(why@),
        },
{
}

/// Bytes that start no handshake record, and complete records that start no
/// ClientHello, are malformed.
pub proof fn law_other_bytes_are_malformed(buf: &[u8], r: SniResult)
    requires
        call_ensures(parse_sni, (buf,), r),
    ensures
        buf@.len() > 0 && buf@[0] != 22 ==> r@ == SniView::Malformed(
            "first byte is not a handshake record"@,
        ),
        buf@.len() >= 6 && buf@[0] == 22 && buf@[3] * 256 + buf@[4] > 0 && buf@.len() >= 5 + (
        buf@[3] * 256 + buf@[4]) && buf@[5] != 1 ==> r@ == SniView::Malformed(
            "not a ClientHello"@,
        ),
{
    if buf@.len() >= 6 {
        assert(buf@.skip(3)[0] == buf@[3]);
        assert(buf@.skip(3)[1] == buf@[4]);
    }
}

/// Bytes are incomplete exactly where the record is not all there, or where the
/// handshake message in it is a ClientHello that is not.
pub proof fn law_partial_records_are_incomplete(buf: &[u8], r: SniResult)
    requires
        call_ensures(parse_sni, (buf,), r),
    ensures
        r is Incomplete <==> buf@.len() == 0 || buf@[0] == 22 && {
            let n = buf@[3] * 256 + buf@[4];
            let m = buf@[6] * 65536 + buf@[7] * 256 + buf@[8];
            ||| buf@.len() < 5
            ||| buf@.len() < 5 + n
            ||| n == 0
            ||| buf@[5] == 1 && (n < 4 || n < 4 + m)
        },
{
    law_incomplete_means_more_to_come(buf@);
    if buf@.len() >= 5 {
        assert(buf@.skip(3)[0] == buf@[3]);
        assert(buf@.skip(3)[1] == buf@[4]);
        if let Some(payload) = record_payload(buf@) {
            if payload.len() >= 4 {
                assert(payload.skip(1)[0] == buf@[6]);
                assert(payload.skip(1)[1] == buf@[7]);
                assert(payload.skip(1)[2] == buf@[8]);
            }
        }
    }
}

/// The fields of a ClientHello that come before its extensions.
pub open spec fn fixed_fields(h: ClientHello) -> Seq<u8> {
    h.version + h.random + vec8(h.session_id) + vec16(h.cipher_suites) + vec8(
        h.compression_methods,
    )
}

/// Whether the lengths of these fields are those of the format or fit.
pub open spec fn fixed_fields_fit(h: ClientHello) -> bool {
    &&& h.version.len() == 2
    &&& h.random.len() == 32
    &&& h.session_id.len() <= 0xff
    &&& h.cipher_suites.len() <= 0xffff
    &&& h.compression_methods.len() <= 0xff
}

/// A handshake message with the type of a ClientHello and the given body.
pub open spec fn message(body: Seq<u8>) -> Seq<u8> {
    seq![1u8] + u24_bytes(body.len()) + body
}

/// A handshake record that holds the message and whatever comes `after` it.
pub open spec fn record(version: Seq<u8>, message: Seq<u8>, after: Seq<u8>) -> Seq<u8> {
    seq![22u8] + version + vec16(message + after)
}

/// Whether `buf` starts with a record in which a ClientHello has the given
/// body. Another message may follow it in the record, and other bytes may
/// follow the record.
pub open spec fn has_body(
    buf: Seq<u8>,
    version: Seq<u8>,
    body: Seq<u8>,
    after: Seq<u8>,
    rest: Seq<u8>,
) -> bool {
    &&& version.len() == 2
    &&& message(body).len() + after.len() <= 0xffff
    &&& buf == record(version, message(body), after) + rest
}

/// Whether the extensions fit, and none of them is `server_name`.
pub open spec fn are_others(exts: Seq<Extension>) -> bool {
    forall|i: int| 0 <= i < exts.len() ==> (#[trigger] exts[i]) is Other && exts[i].fits()
}

/// Whether the names fit, and none of them is a host name.
pub open spec fn are_no_host_names(names: Seq<NameEntry>) -> bool {
    forall|i: int|
        0 <= i < names.len() ==> (#[trigger] names[i]).name_type != 0 && names[i].name.len()
            <= 0xffff
}

proof fn lemma_has_body(
    buf: Seq<u8>,
    version: Seq<u8>,
    body: Seq<u8>,
    after: Seq<u8>,
    rest: Seq<u8>,
)
    requires
        has_body(buf, version, body, after, rest),
    ensures
        sni(buf) == hello_sni(body),
{
    let payload = message(body) + after;
    let n = payload.len() as int;
    assert(buf.skip(3) =~= vec16(payload) + rest);
    lemma_after_vec16(payload, rest);
    assert(buf.subrange(5, 5 + n) =~= payload);
    assert(payload.skip(1) =~= u24_bytes(body.len()) + (body + after));
    lemma_be24(body.len(), body + after);
    assert(payload.subrange(4, 4 + body.len() as int) =~= body);
}

proof fn lemma_fixed_fields(h: ClientHello, tail: Seq<u8>)
    requires
        fixed_fields_fit(h),
    ensures
        after_fixed_fields(fixed_fields(h) + tail) == Some(tail),
{
    let methods = vec8(h.compression_methods) + tail;
    let suites = vec16(h.cipher_suites) + methods;
    let session = vec8(h.session_id) + suites;
    assert((fixed_fields(h) + tail).skip(34) =~= session);
    lemma_after_vec8(h.session_id, suites);
    lemma_after_vec16(h.cipher_suites, methods);
    lemma_after_vec8(h.compression_methods, tail);
}

proof fn lemma_vec8_prefix(s: Seq<u8>, tail: Seq<u8>, n: int)
    requires
        s.len() <= 0xff,
        0 <= n <= 1 + s.len() + tail.len(),
    ensures
        after_vec8((vec8(s) + tail).take(n)) == if n < 1 + s.len() {
            None
        } else {
            Some(tail.take(n - 1 - s.len()))
        },
{
    let t = (vec8(s) + tail).take(n);
    if n >= 1 {
        assert(t[0] == s.len());
    }
    if n >= 1 + s.len() {
        assert(t.skip(1 + s.len() as int) =~= tail.take(n - 1 - s.len()));
    }
}

proof fn lemma_vec16_prefix(s: Seq<u8>, tail: Seq<u8>, n: int)
    requires
        s.len() <= 0xffff,
        0 <= n <= 2 + s.len() + tail.len(),
    ensures
        after_vec16((vec16(s) + tail).take(n)) == if n < 2 + s.len() {
            None
        } else {
            Some(tail.take(n - 2 - s.len()))
        },
{
    let t = (vec16(s) + tail).take(n);
    lemma_after_vec16(s, tail);
    if n >= 2 {
        assert(t[0] == (vec16(s) + tail)[0]);
        assert(t[1] == (vec16(s) + tail)[1]);
    }
    if n >= 2 + s.len() {
        assert(t.skip(2 + s.len() as int) =~= tail.take(n - 2 - s.len()));
    }
}

proof fn lemma_short_body(h: ClientHello, n: int)
    requires
        fixed_fields_fit(h),
        0 <= n < fixed_fields(h).len(),
    ensures
        after_fixed_fields(fixed_fields(h).take(n)) is None,
{
    let body = fixed_fields(h).take(n);
    let none = Seq::<u8>::empty();
    let methods = vec8(h.compression_methods) + none;
    let suites = vec16(h.cipher_suites) + methods;
    let session = vec8(h.session_id) + suites;
    if n >= 34 {
        assert(body.skip(34) =~= session.take(n - 34));
        lemma_vec8_prefix(h.session_id, suites, n - 34);
        let m = n - 35 - h.session_id.len();
        if m >= 0 {
            lemma_vec16_prefix(h.cipher_suites, methods, m);
            let k = m - 2 - h.cipher_suites.len();
            if k >= 0 {
                lemma_vec8_prefix(h.compression_methods, none, k);
            }
        }
    }
}

/// A ClientHello that is all there, and whose body ends within its fixed
/// fields, is malformed.
#[verifier::rlimit(60)]
pub proof fn law_short_bodies_are_malformed(
    buf: &[u8],
    r: SniResult,
    h: ClientHello,
    n: int,
    version: Seq<u8>,
    after: Seq<u8>,
    rest: Seq<u8>,
)
    requires
        call_ensures(parse_sni, (buf,), r),
        fixed_fields_fit(h),
        0 <= n < fixed_fields(h).len(),
        has_body(buf@, version, fixed_fields(h).take(n), after, rest),
    ensures
        r@ == SniView::Malformed("ClientHello body too short"@),
{
    lemma_has_body(buf@, version, fixed_fields(h).take(n), after, rest);
    lemma_short_body(h, n);
}

/// A ClientHello whose fixed fields are followed by no more than a byte has no
/// extensions, and so no server name. One whose extensions go past its end is
/// malformed.
#[verifier::rlimit(60)]
pub proof fn law_extensions_may_be_left_out(
    buf: &[u8],
    r: SniResult,
    h: ClientHello,
    tail: Seq<u8>,
    version: Seq<u8>,
    after: Seq<u8>,
    rest: Seq<u8>,
)
    requires
        call_ensures(parse_sni, (buf,), r),
        fixed_fields_fit(h),
        has_body(buf@, version, fixed_fields(h) + tail, after, rest),
    ensures
        tail.len() < 2 ==> r is Absent,
        tail.len() >= 2 && tail[0] * 256 + tail[1] > tail.len() - 2 ==> r@ == SniView::Malformed(
            "extensions overflow ClientHello"@,
        ),
{
    lemma_has_body(buf@, version, fixed_fields(h) + tail, after, rest);
    lemma_fixed_fields(h, tail);
}

proof fn lemma_block(h: ClientHello, block: Seq<u8>, tail: Seq<u8>)
    requires
        fixed_fields_fit(h),
        block.len() <= 0xffff,
    ensures
        hello_sni(fixed_fields(h) + (vec16(block) + tail)) == extensions_sni(block),
{
    let t = vec16(block) + tail;
    lemma_fixed_fields(h, t);
    lemma_after_vec16(block, tail);
    assert(t.subrange(2, 2 + block.len() as int) =~= block);
}

proof fn lemma_others_are_passed_over(exts: Seq<Extension>, x: Seq<u8>)
    requires
        are_others(exts),
    ensures
        extensions_sni(extensions_bytes(exts) + x) == extensions_sni(x),
    decreases exts.len(),
{
    if exts.len() == 0 {
        assert(extensions_bytes(exts) + x =~= x);
    } else {
        let rest = exts.drop_first();
        let body = exts[0].body();
        let n = body.len() as int;
        let more = extensions_bytes(rest) + x;
        let block = extensions_bytes(exts) + x;
        assert(exts[0] is Other && exts[0].fits());
        assert(block =~= u16_bytes(exts[0].kind()) + (vec16(body) + more));
        lemma_be16(exts[0].kind(), vec16(body) + more);
        assert(block.skip(2) =~= vec16(body) + more);
        lemma_after_vec16(body, more);
        assert(block.skip(4 + n) =~= more);
        assert forall|i: int| 0 <= i < rest.len() implies (#[trigger] rest[i]) is Other
            && rest[i].fits() by {
            assert(rest[i] == exts[i + 1]);
        }
        lemma_others_are_passed_over(rest, x);
    }
}

proof fn lemma_own_extension(ext: Seq<u8>, more: Seq<u8>)
    requires
        ext.len() <= 0xffff,
    ensures
        extensions_sni(seq![0u8, 0u8] + vec16(ext) + more) == server_name_sni(ext),
{
    let own = seq![0u8, 0u8] + vec16(ext) + more;
    assert(own.skip(2) =~= vec16(ext) + more);
    lemma_after_vec16(ext, more);
    assert(own.subrange(4, 4 + ext.len() as int) =~= ext);
}

/// The first `server_name` extension decides: the verdict on the ClientHello is
/// the one on the body of that extension, whatever comes before and after it.
#[verifier::rlimit(60)]
pub proof fn law_first_server_name_decides(
    buf: &[u8],
    r: SniResult,
    h: ClientHello,
    others: Seq<Extension>,
    ext: &[u8],
    on_ext: SniResult,
    more: Seq<u8>,
    tail: Seq<u8>,
    version: Seq<u8>,
    after: Seq<u8>,
    rest: Seq<u8>,
)
    requires
        call_ensures(parse_sni, (buf,), r),
        call_ensures(parse_server_name, (ext,), on_ext),
        fixed_fields_fit(h),
        are_others(others),
        ext@.len() <= 0xffff,
        (extensions_bytes(others) + (seq![0u8, 0u8] + vec16(ext@) + more)).len() <= 0xffff,
        has_body(
            buf@,
            version,
            fixed_fields(h) + (vec16(
                extensions_bytes(others) + (seq![0u8, 0u8] + vec16(ext@) + more),
            ) + tail),
            after,
            rest,
        ),
    ensures
        r@ == on_ext@,
{
    let own = seq![0u8, 0u8] + vec16(ext@) + more;
    let block = extensions_bytes(others) + own;
    lemma_has_body(buf@, version, fixed_fields(h) + (vec16(block) + tail), after, rest);
    lemma_block(h, block, tail);
    lemma_others_are_passed_over(others, own);
    lemma_own_extension(ext@, more);
}

/// A block of extensions without a `server_name` extension names no host. Where
/// it ends with an extension that goes past its end, it is malformed.
#[verifier::rlimit(60)]
pub proof fn law_no_server_name_is_absent(
    buf: &[u8],
    r: SniResult,
    h: ClientHello,
    others: Seq<Extension>,
    x: Seq<u8>,
    tail: Seq<u8>,
    version: Seq<u8>,
    after: Seq<u8>,
    rest: Seq<u8>,
)
    requires
        call_ensures(parse_sni, (buf,), r),
        fixed_fields_fit(h),
        are_others(others),
        (extensions_bytes(others) + x).len() <= 0xffff,
        has_body(
            buf@,
            version,
            fixed_fields(h) + (vec16(extensions_bytes(others) + x) + tail),
            after,
            rest,
        ),
    ensures
        x.len() < 4 ==> r is Absent,
        x.len() >= 4 && x[2] * 256 + x[3] > x.len() - 4 ==> r@ == SniView::Malformed(
            "extension overflows extensions block"@,
        ),
{
    let block = extensions_bytes(others) + x;
    lemma_has_body(buf@, version, fixed_fields(h) + (vec16(block) + tail), after, rest);
    lemma_block(h, block, tail);
    lemma_others_are_passed_over(others, x);
    if x.len() >= 4 {
        assert(x.skip(2)[0] == x[2]);
        assert(x.skip(2)[1] == x[3]);
    }
}

proof fn lemma_names_are_passed_over(names: Seq<NameEntry>, y: Seq<u8>)
    requires
        are_no_host_names(names),
    ensures
        name_list_sni(names_bytes(names) + y) == name_list_sni(y),
    decreases names.len(),
{
    if names.len() == 0 {
        assert(names_bytes(names) + y =~= y);
    } else {
        let rest = names.drop_first();
        let name = names[0].name;
        let n = name.len() as int;
        let more = names_bytes(rest) + y;
        let list = names_bytes(names) + y;
        assert(names[0].name_type != 0 && n <= 0xffff);
        assert(list.skip(1) =~= vec16(name) + more);
        lemma_after_vec16(name, more);
        assert(list[0] == names[0].name_type);
        assert(list.skip(3 + n) =~= more);
        assert forall|i: int| 0 <= i < rest.len() implies (#[trigger] rest[i]).name_type != 0
            && rest[i].name.len() <= 0xffff by {
            assert(rest[i] == names[i + 1]);
        }
        lemma_names_are_passed_over(rest, y);
    }
}

/// The body of a `server_name` extension that ends before its list does is
/// malformed.
pub proof fn law_short_lists_are_malformed(ext: &[u8], r: SniResult)
    requires
        call_ensures(parse_server_name, (ext,), r),
    ensures
        ext@.len() < 2 ==> r@ == SniView::Malformed("server_name: short list length"@),
        ext@.len() >= 2 && ext@[0] * 256 + ext@[1] > ext@.len() - 2 ==> r@ == SniView::Malformed(
            "server_name: short list payload"@,
        ),
{
}

/// The first host name in a list decides, whatever names of other types come
/// before it and whatever comes after it. It is the server name; it must be
/// there in full, have at least one byte, and be UTF-8. Without a host name,
/// none is named.
#[verifier::rlimit(60)]
pub proof fn law_first_host_name_decides(
    ext: &[u8],
    r: SniResult,
    names: Seq<NameEntry>,
    y: Seq<u8>,
    tail: Seq<u8>,
)
    requires
        call_ensures(parse_server_name, (ext,), r),
        are_no_host_names(names),
        (names_bytes(names) + y).len() <= 0xffff,
        ext@ == vec16(names_bytes(names) + y) + tail,
    ensures
        y.len() < 3 ==> r is Absent,
        y.len() >= 3 ==> {
            let n = y[1] * 256 + y[2];
            &&& y.len() < 3 + n ==> r@ == SniView::Malformed("server_name: name overflows"@)
            &&& y.len() >= 3 + n && y[0] == 0 ==> {
                let name = y.subrange(3, 3 + n);
                &&& n == 0 ==> r@ == SniView::Malformed("server_name: empty hostname"@)
                &&& n > 0 && valid_utf8(name) ==> r@ == SniView::Found(decode_utf8(name))
                &&& !valid_utf8(name) ==> r@ == SniView::Malformed(
                    "server_name: non-utf8 hostname"@,
                )
            }
        },
{
    let list = names_bytes(names) + y;
    lemma_after_vec16(list, tail);
    assert(ext@.subrange(2, 2 + list.len() as int) =~= list);
    lemma_names_are_passed_over(names, y);
    if y.len() >= 3 {
        assert(y.skip(1)[0] == y[1]);
        assert(y.skip(1)[1] == y[2]);
    }
}

} // verus!
