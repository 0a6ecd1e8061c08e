//! The server name parser on concrete records.

use frontdoor::sni::{parse_server_name, parse_sni, SniResult};
use frontdoor::sni::{
    EXTENSION_SERVER_NAME, HANDSHAKE_TYPE_CLIENT_HELLO, NAME_TYPE_HOST_NAME, RECORD_TYPE_HANDSHAKE,
};

/// A minimal ClientHello with the given server name.
fn make_client_hello_with_sni(sni: &str) -> Vec<u8> {
    // list_len(2) | name_type(1) | name_len(2) | name
    let mut sn_body: Vec<u8> = Vec::new();
    sn_body.extend_from_slice(&((3 + sni.len()) as u16).to_be_bytes());
    sn_body.push(NAME_TYPE_HOST_NAME);
    sn_body.extend_from_slice(&(sni.len() as u16).to_be_bytes());
    sn_body.extend_from_slice(sni.as_bytes());

    // ext_type(2) | ext_len(2) | body
    let mut ext_block: Vec<u8> = Vec::new();
    ext_block.extend_from_slice(&EXTENSION_SERVER_NAME.to_be_bytes());
    ext_block.extend_from_slice(&(sn_body.len() as u16).to_be_bytes());
    ext_block.extend_from_slice(&sn_body);
    record_with_extensions(&ext_block)
}

/// A ClientHello record whose extensions are `ext_block`.
fn record_with_extensions(ext_block: &[u8]) -> Vec<u8> {
    let mut ch_body: Vec<u8> = Vec::new();
    ch_body.extend_from_slice(&[0x03, 0x03]); // TLS 1.2
    ch_body.extend_from_slice(&[0u8; 32]); // random
    ch_body.push(0); // session_id length
    ch_body.extend_from_slice(&[0x00, 0x02, 0x13, 0x01]); // one cipher suite
    ch_body.extend_from_slice(&[0x01, 0x00]); // one compression method
    ch_body.extend_from_slice(&(ext_block.len() as u16).to_be_bytes());
    ch_body.extend_from_slice(ext_block);
    record_with_body(&ch_body)
}

/// A ClientHello record with the given body.
fn record_with_body(ch_body: &[u8]) -> Vec<u8> {
    let mut hs: Vec<u8> = Vec::new();
    hs.push(HANDSHAKE_TYPE_CLIENT_HELLO);
    hs.push(0);
    hs.extend_from_slice(&(ch_body.len() as u16).to_be_bytes());
    hs.extend_from_slice(ch_body);
    record_with_payload(&hs)
}

/// A handshake record with the given payload.
fn record_with_payload(hs: &[u8]) -> Vec<u8> {
    let mut record: Vec<u8> = Vec::new();
    record.push(RECORD_TYPE_HANDSHAKE);
    record.extend_from_slice(&[0x03, 0x01]); // legacy version
    record.extend_from_slice(&(hs.len() as u16).to_be_bytes());
    record.extend_from_slice(hs);
    record
}

#[test]
fn extracts_sni_from_well_formed_clienthello() {
    let buf = make_client_hello_with_sni("mail.colinrozzi.com");
    match parse_sni(&buf) {
        SniResult::Found(s) => assert_eq!(s, "mail.colinrozzi.com"),
        other => panic!("expected Found, got {:?}", match other {
            SniResult::Incomplete => "Incomplete",
            SniResult::Absent => "Absent",
            SniResult::Malformed(m) => m,
            SniResult::Found(_) => unreachable!(),
        }),
    }
}

#[test]
fn incomplete_when_partial() {
    let buf = make_client_hello_with_sni("mail.colinrozzi.com");
    for n in 0..buf.len() {
        match parse_sni(&buf[..n]) {
            SniResult::Incomplete => {}
            SniResult::Found(_) => panic!("found SNI on prefix of length {}", n),
            SniResult::Absent => panic!("Absent on prefix of length {}", n),
            SniResult::Malformed(m) => panic!(
                "Malformed on prefix of length {}: {}",
                n, m
            ),
        }
    }
}

#[test]
fn malformed_when_first_byte_wrong() {
    let buf = vec![0x17u8, 0x03, 0x03, 0x00, 0x10];
    match parse_sni(&buf) {
        SniResult::Malformed(_) => {}
        _ => panic!("expected Malformed"),
    }
}

fn verdict(buf: &[u8]) -> String {
    match parse_sni(buf) {
        SniResult::Found(s) => format!("found {}", s),
        SniResult::Incomplete => "incomplete".to_string(),
        SniResult::Absent => "absent".to_string(),
        SniResult::Malformed(m) => format!("malformed {}", m),
    }
}

/// An extension with the given type and body.
fn extension(kind: u16, body: &[u8]) -> Vec<u8> {
    let mut out: Vec<u8> = Vec::new();
    out.extend_from_slice(&kind.to_be_bytes());
    out.extend_from_slice(&(body.len() as u16).to_be_bytes());
    out.extend_from_slice(body);
    out
}

/// The body of a server name extension with the given entries.
fn name_list(entries: &[(u8, &[u8])]) -> Vec<u8> {
    let mut list: Vec<u8> = Vec::new();
    for (kind, name) in entries {
        list.push(*kind);
        list.extend_from_slice(&(name.len() as u16).to_be_bytes());
        list.extend_from_slice(name);
    }
    let mut out: Vec<u8> = Vec::new();
    out.extend_from_slice(&(list.len() as u16).to_be_bytes());
    out.extend_from_slice(&list);
    out
}

#[test]
fn every_first_byte_but_one_is_malformed() {
    for b in 0..=255u8 {
        let expected = if b == 0x16 {
            "incomplete"
        } else {
            "malformed first byte is not a handshake record"
        };
        assert_eq!(verdict(&[b]), expected);
    }
}

#[test]
fn other_handshake_messages_are_malformed() {
    assert_eq!(verdict(&record_with_payload(&[0x02, 0, 0, 0])), "malformed not a ClientHello");
}

#[test]
fn a_record_without_payload_is_incomplete() {
    assert_eq!(verdict(&record_with_payload(&[])), "incomplete");
}

#[test]
fn a_hello_longer_than_its_record_is_incomplete() {
    assert_eq!(verdict(&record_with_payload(&[0x01, 0, 0])), "incomplete");
    assert_eq!(verdict(&record_with_payload(&[0x01, 0, 0, 5, 3, 3])), "incomplete");
    // The three-byte length is read high byte first.
    assert_eq!(verdict(&record_with_payload(&[0x01, 1, 0, 0])), "incomplete");
}

#[test]
fn a_body_that_ends_early_is_malformed() {
    let full = {
        let mut b: Vec<u8> = vec![3, 3];
        b.extend_from_slice(&[7u8; 32]);
        b.extend_from_slice(&[2, 0xaa, 0xbb]);
        b.extend_from_slice(&[0, 4, 0x13, 1, 0x13, 2]);
        b.extend_from_slice(&[1, 0]);
        b
    };
    for n in 0..full.len() {
        assert_eq!(
            verdict(&record_with_body(&full[..n])),
            "malformed ClientHello body too short",
            "body of length {}",
            n
        );
    }
    // Without extensions there is no name.
    assert_eq!(verdict(&record_with_body(&full)), "absent");
    // One byte of an extensions length is no length.
    let mut one_more = full.clone();
    one_more.push(9);
    assert_eq!(verdict(&record_with_body(&one_more)), "absent");
    // An extensions length that goes past the body.
    let mut too_long = full.clone();
    too_long.extend_from_slice(&[0, 1]);
    assert_eq!(
        verdict(&record_with_body(&too_long)),
        "malformed extensions overflow ClientHello"
    );
    // The shortest such record: a handshake message with nothing in it.
    assert_eq!(
        verdict(&[0x16, 3, 1, 0, 4, 1, 0, 0, 0]),
        "malformed ClientHello body too short"
    );
}

#[test]
fn extensions_without_a_server_name_are_absent() {
    assert_eq!(verdict(&record_with_extensions(&[])), "absent");
    assert_eq!(verdict(&record_with_extensions(&extension(0x000a, &[0, 1, 2]))), "absent");
    // Up to three stray bytes at the end of the block are ignored.
    let mut block = extension(0x0010, &[]);
    block.extend_from_slice(&[0, 0, 0]);
    assert_eq!(verdict(&record_with_extensions(&block)), "absent");
}

#[test]
fn an_extension_that_overflows_is_malformed() {
    assert_eq!(
        verdict(&record_with_extensions(&[0, 0x0a, 0, 1])),
        "malformed extension overflows extensions block"
    );
}

#[test]
fn the_server_name_may_follow_other_extensions() {
    let mut block = extension(0x000a, &[1, 2, 3]);
    block.extend_from_slice(&extension(0, &name_list(&[(0, b"a.example")])));
    block.extend_from_slice(&extension(0, &name_list(&[(0, b"b.example")])));
    assert_eq!(verdict(&record_with_extensions(&block)), "found a.example");
}

#[test]
fn a_short_server_name_extension_is_malformed() {
    assert_eq!(
        verdict(&record_with_extensions(&extension(0, &[0]))),
        "malformed server_name: short list length"
    );
    assert_eq!(
        verdict(&record_with_extensions(&extension(0, &[0, 1]))),
        "malformed server_name: short list payload"
    );
    assert_eq!(
        verdict(&record_with_extensions(&extension(0, &[0, 3, 0, 0, 1]))),
        "malformed server_name: name overflows"
    );
}

#[test]
fn the_first_host_name_counts() {
    let list = name_list(&[(1, b"not this"), (0, b"this.example"), (0, b"nor.this")]);
    assert_eq!(verdict(&record_with_extensions(&extension(0, &list))), "found this.example");
    let none = name_list(&[(1, b"not this"), (7, b"nor this")]);
    assert_eq!(verdict(&record_with_extensions(&extension(0, &none))), "absent");
    assert_eq!(verdict(&record_with_extensions(&extension(0, &name_list(&[])))), "absent");
    // The list ends where its length says.
    let mut short = name_list(&[]);
    short.extend_from_slice(&[0, 0, 1, b'x']);
    assert_eq!(verdict(&record_with_extensions(&extension(0, &short))), "absent");
}

#[test]
fn a_name_must_be_utf8() {
    let bad = name_list(&[(0, &[0x61, 0xff])]);
    assert_eq!(
        verdict(&record_with_extensions(&extension(0, &bad))),
        "malformed server_name: non-utf8 hostname"
    );
    let list = name_list(&[(0, "bücher.example".as_bytes())]);
    assert_eq!(verdict(&record_with_extensions(&extension(0, &list))), "found bücher.example");
}

#[test]
fn a_host_name_is_not_empty() {
    let empty = name_list(&[(0, b""), (0, b"a.example")]);
    assert_eq!(
        verdict(&record_with_extensions(&extension(0, &empty))),
        "malformed server_name: empty hostname"
    );
    assert_eq!(
        verdict_on_extension(&[0, 3, 0, 0, 0]),
        "malformed server_name: empty hostname"
    );
    // Names of other types may be.
    let other = name_list(&[(1, b""), (0, b"a")]);
    assert_eq!(verdict(&record_with_extensions(&extension(0, &other))), "found a");
}

#[test]
fn utf8_is_judged_as_std_judges_it() {
    let samples: [&[u8]; 10] = [
        &[0xc0, 0x80],
        &[0xc2, 0x80],
        &[0xe0, 0x80, 0x80],
        &[0xe0, 0xa0, 0x80],
        &[0xed, 0xa0, 0x80],
        &[0xed, 0x9f, 0xbf],
        &[0xf0, 0x80, 0x80, 0x80],
        &[0xf0, 0x90, 0x80, 0x80],
        &[0xf4, 0x90, 0x80, 0x80],
        &[0xf4, 0x8f, 0xbf, 0xbf],
    ];
    for name in samples {
        let expected = match std::str::from_utf8(name) {
            Ok(s) => format!("found {}", s),
            Err(_) => "malformed server_name: non-utf8 hostname".to_string(),
        };
        let list = name_list(&[(0, name)]);
        assert_eq!(verdict(&record_with_extensions(&extension(0, &list))), expected);
        assert_eq!(verdict_on_extension(&list), expected);
    }
}

fn verdict_on_extension(body: &[u8]) -> String {
    match parse_server_name(body) {
        SniResult::Found(s) => format!("found {}", s),
        SniResult::Incomplete => "incomplete".to_string(),
        SniResult::Absent => "absent".to_string(),
        SniResult::Malformed(m) => format!("malformed {}", m),
    }
}

#[test]
fn bytes_after_the_record_change_nothing() {
    let mut buf = make_client_hello_with_sni("mail.colinrozzi.com");
    buf.extend_from_slice(&[0x17, 3, 3, 0, 1, 0xff]);
    assert_eq!(verdict(&buf), "found mail.colinrozzi.com");
    let mut absent = record_with_extensions(&[]);
    absent.push(0x16);
    assert_eq!(verdict(&absent), "absent");
    let mut bad = record_with_payload(&[2]);
    bad.push(1);
    assert_eq!(verdict(&bad), "malformed not a ClientHello");
}
