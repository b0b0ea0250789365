//! End-to-end behaviour of the subscription pipeline: decoding bodies,
//! parsing URI lines, rendering fragments, and the round trips.

use subconv::model::{DecodeError, ProxyNodeEntry, ProxyNodeProtocol, ShadowsocksEntry, SkipReason, UriParts};
use subconv::render::malformed_plugin_tokens;
use subconv::ss::{decode_userinfo, encode_userinfo};
use subconv::subscription::{convert_subscription, decode_subscription, encode_subscription, parse_all};

fn bytes(s: &str) -> Vec<u8> {
    s.as_bytes().to_vec()
}

fn parse_ok(line: &str) -> ShadowsocksEntry {
    match ProxyNodeEntry::parse(&bytes(line)) {
        Ok(e) => match e.protocol {
            ProxyNodeProtocol::Shadowsocks(ss) => ss,
        },
        Err(r) => panic!("expected entry, got skip: {}", r.message()),
    }
}

#[test]
fn test_parse_ss() {
    let ss = "ss://YWVzLTEyOC1nY206aGFNTE1YaXJCeW42ckdWaA@app-zhihu.zhihu.win:20031/?plugin=simple-obfs%3Bobfs%3Dhttp%3Bobfs-host%3D5739b1aa758b.microsoft.com#%F0%9F%87%A6%F0%9F%87%B6%20%E5%8D%97%E6%9E%81%E4%B8%A83x%20AQ";
    let entry = ProxyNodeEntry::parse(&bytes(ss)).unwrap();
    let ProxyNodeProtocol::Shadowsocks(e) = entry.protocol;
    println!("{:?}", e);
    assert_eq!(e.entry_type, bytes("ss"));
    assert_eq!(e.server, bytes("app-zhihu.zhihu.win"));
    assert_eq!(e.port, 20031);
    assert_eq!(e.cipher, bytes("aes-128-gcm"));
    assert_eq!(e.password, bytes("haMLMXirByn6rGVh"));
    assert_eq!(
        e.plugin,
        bytes("plugin=simple-obfs;obfs=http;obfs-host=5739b1aa758b.microsoft.com")
    );
    assert_eq!(e.name, bytes("\u{1F1E6}\u{1F1F6} \u{5357}\u{6781}\u{4E28}3x AQ"));
    assert!(e.udp);
}

#[test]
fn credentials_round_trip() {
    let cipher = bytes("aes-256-gcm");
    let password = bytes("secret pw");
    let userinfo = encode_userinfo(&cipher, &password);
    assert_eq!(userinfo, bytes("YWVzLTI1Ni1nY206c2VjcmV0IHB3"));
    let (c, p) = decode_userinfo(&userinfo).unwrap();
    assert_eq!(c, cipher);
    assert_eq!(p, password);
}

#[test]
fn credentials_round_trip_empty_password() {
    let cipher = bytes("rc4-md5");
    let password = bytes("");
    let userinfo = encode_userinfo(&cipher, &password);
    let (c, p) = decode_userinfo(&userinfo).unwrap();
    assert_eq!(c, cipher);
    assert_eq!(p, password);
}

#[test]
fn subscription_round_trip() {
    let lines = vec![bytes("alpha"), bytes("beta"), bytes("gamma")];
    let body = encode_subscription(&lines);
    assert_eq!(body, bytes("YWxwaGEKYmV0YQpnYW1tYQ=="));
    let decoded = decode_subscription(&body).unwrap();
    assert_eq!(decoded, lines);
}

#[test]
fn subscription_decode_splits_lines() {
    // "alpha\nbeta\ngamma" encoded with the padded alphabet.
    let body = bytes("YWxwaGEKYmV0YQpnYW1tYQ==");
    let decoded = decode_subscription(&body).unwrap();
    assert_eq!(decoded, vec![bytes("alpha"), bytes("beta"), bytes("gamma")]);
}

#[test]
fn subscription_bad_base64_is_fatal() {
    let r = decode_subscription(&bytes("!!! not base64 !!!"));
    assert_eq!(r.unwrap_err(), DecodeError::BadBase64);
}

#[test]
fn subscription_bad_utf8_is_fatal() {
    // Valid base64 of the bytes 0xFF 0xFE, which are not UTF-8 text.
    let r = decode_subscription(&bytes("//4="));
    assert_eq!(r.unwrap_err(), DecodeError::BadUtf8);
}

#[test]
fn render_fixed_field_order() {
    let e = parse_ok("ss://YWVzLTEyOC1nY206cHc@example.com:443?simple-obfs;obfs=http;obfs-host=example.com#node1");
    assert_eq!(e.plugin, bytes("simple-obfs;obfs=http;obfs-host=example.com"));
    let rendered = e.gen_clash_config();
    assert_eq!(
        String::from_utf8(rendered.clone()).unwrap(),
        "  - {name: node1, type: ss, server: example.com, port: 443, cipher: aes-128-gcm, password: pw, udp: true, plugin-opts: {simple-obfs: , obfs: http, obfs-host: example.com}, "
    );
    // Rendering is deterministic: a second run gives the same text.
    assert_eq!(e.gen_clash_config(), rendered);
}

#[test]
fn render_without_plugin_omits_block() {
    let e = parse_ok("ss://YWVzLTEyOC1nY206cHc@example.com:8388#node1");
    assert_eq!(e.plugin, bytes(""));
    assert_eq!(
        String::from_utf8(e.gen_clash_config()).unwrap(),
        "  - {name: node1, type: ss, server: example.com, port: 8388, cipher: aes-128-gcm, password: pw, udp: true, "
    );
}

#[test]
fn render_port_extremes() {
    let mut e = parse_ok("ss://YWVzLTEyOC1nY206cHc@example.com:65535");
    assert_eq!(e.port, 65535);
    let text = String::from_utf8(e.gen_clash_config()).unwrap();
    assert!(text.contains(", port: 65535, "));
    e.port = 1;
    let text = String::from_utf8(e.gen_clash_config()).unwrap();
    assert!(text.contains(", port: 1, "));
}

#[test]
fn malformed_plugin_token_reported() {
    let malformed = malformed_plugin_tokens(&bytes("simple-obfs;obfs=http;obfs-host=example.com"));
    assert_eq!(malformed, vec![bytes("simple-obfs")]);
    let none = malformed_plugin_tokens(&bytes("obfs=http;obfs-host=example.com"));
    assert!(none.is_empty());
}

#[test]
fn missing_port_skipped_not_fatal() {
    let r = ProxyNodeEntry::parse(&bytes("ss://YWVzLTEyOC1nY206cHc@example.com"));
    assert_eq!(r.unwrap_err(), SkipReason::MissingPort);
    // The other, valid entries of the same run still come through.
    let lines = vec![
        bytes("ss://YWVzLTEyOC1nY206cHc@example.com"),
        bytes("ss://YWVzLTEyOC1nY206cHc@other.example.com:8388#kept"),
    ];
    let (entries, skips) = parse_all(&lines);
    assert_eq!(entries.len(), 1);
    assert_eq!(skips, vec![SkipReason::MissingPort]);
    let ProxyNodeProtocol::Shadowsocks(ref e) = entries[0].protocol;
    assert_eq!(e.server, bytes("other.example.com"));
}

#[test]
fn unsupported_scheme_skipped_with_diagnostic() {
    let r = ProxyNodeEntry::parse(&bytes("vmess://eyJhZGQiOiJleGFtcGxlLmNvbSJ9"));
    let reason = r.unwrap_err();
    assert_eq!(reason, SkipReason::UnsupportedProtocol);
    assert_eq!(reason.message(), "unsupported protocol");
    // Valid ss entries after the vmess line are still processed.
    let lines = vec![
        bytes("vmess://eyJhZGQiOiJleGFtcGxlLmNvbSJ9"),
        bytes("ss://YWVzLTEyOC1nY206cHc@example.com:443#after"),
    ];
    let (entries, skips) = parse_all(&lines);
    assert_eq!(entries.len(), 1);
    assert_eq!(skips, vec![SkipReason::UnsupportedProtocol]);
    let ProxyNodeProtocol::Shadowsocks(ref e) = entries[0].protocol;
    assert_eq!(e.name, bytes("after"));
    assert_eq!(
        String::from_utf8(e.gen_clash_config()).unwrap(),
        "  - {name: after, type: ss, server: example.com, port: 443, cipher: aes-128-gcm, password: pw, udp: true, "
    );
}

#[test]
fn skip_reasons_per_failure() {
    // A line whose percent-decoding is not UTF-8 text.
    let r = ProxyNodeEntry::parse(&bytes("%FF"));
    assert_eq!(r.unwrap_err(), SkipReason::DecodePercent);
    // A line that does not parse as a URI.
    let r = ProxyNodeEntry::parse(&bytes("not a uri at all"));
    assert_eq!(r.unwrap_err(), SkipReason::ParseUri);
    // Userinfo that is not valid unpadded base64.
    let r = ProxyNodeEntry::parse(&bytes("ss://!!@example.com:443"));
    assert_eq!(r.unwrap_err(), SkipReason::UserinfoBase64);
    // Userinfo whose decoding (the byte 0x80) is not UTF-8 text.
    let r = ProxyNodeEntry::parse(&bytes("ss://gA@example.com:443"));
    assert_eq!(r.unwrap_err(), SkipReason::UserinfoUtf8);
    // Decoded userinfo without a colon.
    let r = ProxyNodeEntry::parse(&bytes("ss://YWJj@example.com:443"));
    assert_eq!(r.unwrap_err(), SkipReason::MissingPassword);
    // Decoded userinfo ":pw", whose cipher half is empty.
    let r = ProxyNodeEntry::parse(&bytes("ss://OnB3@example.com:443"));
    assert_eq!(r.unwrap_err(), SkipReason::MissingCipher);
    // A fragment whose percent-decoding (the byte 0xFF) is not UTF-8 text.
    let r = ProxyNodeEntry::parse(&bytes("ss://YWJjOmQ@example.com:443#%25FF"));
    assert_eq!(r.unwrap_err(), SkipReason::NameUtf8);
}

#[test]
fn missing_host_skipped() {
    // A host cannot be absent in a URI that still carries userinfo, so the
    // protocol decoder is exercised on hand-built parts.
    let parts = UriParts {
        scheme: bytes("ss"),
        username: bytes("YWJjOmQ"),
        host: None,
        port: Some(443),
        query: None,
        fragment: None,
    };
    let r = ProxyNodeEntry::to_ss_entry(&parts);
    assert_eq!(r.unwrap_err(), SkipReason::MissingHost);
    // An empty host is as good as a missing one.
    let parts = UriParts {
        scheme: bytes("ss"),
        username: bytes("YWJjOmQ"),
        host: Some(bytes("")),
        port: Some(443),
        query: None,
        fragment: None,
    };
    let r = ProxyNodeEntry::to_ss_entry(&parts);
    assert_eq!(r.unwrap_err(), SkipReason::MissingHost);
}

#[test]
fn port_zero_skipped() {
    let parts = UriParts {
        scheme: bytes("ss"),
        username: bytes("YWJjOmQ"),
        host: Some(bytes("example.com")),
        port: Some(0),
        query: None,
        fragment: None,
    };
    let r = ProxyNodeEntry::to_ss_entry(&parts);
    assert_eq!(r.unwrap_err(), SkipReason::MissingPort);
}

#[test]
fn to_ss_entry_reads_all_parts() {
    let parts = UriParts {
        scheme: bytes("ss"),
        username: bytes("YWJjOmQ"),
        host: Some(bytes("example.com")),
        port: Some(8388),
        query: Some(bytes("obfs=http")),
        fragment: Some(bytes("name%20with%20spaces")),
    };
    let e = ProxyNodeEntry::to_ss_entry(&parts).unwrap();
    assert_eq!(e.cipher, bytes("abc"));
    assert_eq!(e.password, bytes("d"));
    assert_eq!(e.server, bytes("example.com"));
    assert_eq!(e.port, 8388);
    assert_eq!(e.plugin, bytes("obfs=http"));
    assert_eq!(e.name, bytes("name with spaces"));
}

#[test]
fn end_to_end_one_valid_one_invalid() {
    // Base64 of two lines: a valid ss URI and an unparseable one.
    let body = bytes(
        "c3M6Ly9ZV1Z6TFRFeU9DMW5ZMjA2Y0hjQGV4YW1wbGUuY29tOjgzODgjbm9kZTEKbm90IGEgdXJpIGF0IGFsbA==",
    );
    let fragment = convert_subscription(&body).unwrap().unwrap();
    assert_eq!(
        String::from_utf8(fragment).unwrap(),
        "  - {name: node1, type: ss, server: example.com, port: 8388, cipher: aes-128-gcm, password: pw, udp: true, "
    );
}

#[test]
fn end_to_end_no_valid_entry() {
    // Base64 of the bytes 0xFF 0xFE is a fatal decode failure; base64 of
    // text without any valid URI yields no fragment but no fatal error.
    let body = bytes("bm90IGEgdXJpIGF0IGFsbA=="); // "not a uri at all"
    assert_eq!(convert_subscription(&body).unwrap(), None);
    let bad = bytes("!!!");
    assert_eq!(convert_subscription(&bad).unwrap_err(), DecodeError::BadBase64);
}

#[test]
fn diagnostics_are_texts() {
    assert_eq!(SkipReason::MissingPort.message(), "no usable port in uri");
    assert_eq!(SkipReason::MissingCipher.message(), "empty cipher in credentials");
    assert_eq!(
        SkipReason::NameUtf8.message(),
        "percent-decoded name is not utf-8 text"
    );
    assert_eq!(
        DecodeError::BadBase64.message(),
        "subscription body is not valid base64"
    );
    assert_eq!(
        DecodeError::BadUtf8.message(),
        "decoded subscription body is not utf-8 text"
    );
}
