//! The Shadowsocks protocol decoder: from the plain parts of a parsed `ss://`
//! URI to a typed entry, and the URI dispatcher that percent-decodes a line,
//! parses it, and routes it by scheme. Also the inverse credential encoder,
//! which witnesses that decoding reproduces what was encoded.

use vstd::prelude::*;
use vstd::utf8::valid_utf8;
use crate::bytes::{
    COLON, copy_range, find_byte_spec, lemma_find_byte, lemma_valid_utf8_single_ascii,
    split_first, split_first_spec,
};
use crate::ext::{
    b64_decode_nopad, b64_encode_nopad, b64_nopad_decoded, b64_nopad_encoded, is_utf8,
    parse_uri_parts, percent_decode, percent_decode_spec, uri_parts_of,
};
use crate::model::{
    ProxyNodeEntry, ProxyNodeEntryV, ProxyNodeProtocol, ProxyNodeProtocolV, ShadowsocksEntry,
    ShadowsocksEntryV, SkipReason, UriParts, UriPartsV, entry_well_formed,
};

verus! {

/// The scheme token of the Shadowsocks protocol, as bytes: `ss`.
pub open spec fn ss_scheme() -> Seq<u8> {
    seq![115u8, 115u8]
}

/// The cipher and password carried by a userinfo component: the base64
/// (unpadded alphabet) decoding of the userinfo, read as UTF-8 text and split
/// on its first colon. The cipher half must be non-empty. Each step that
/// fails names the reason the entry is skipped.
pub open spec fn userinfo_credentials(u: Seq<u8>) -> Result<(Seq<u8>, Seq<u8>), SkipReason> {
    match b64_nopad_decoded(u) {
        None => Err(SkipReason::UserinfoBase64),
        Some(raw) => if !valid_utf8(raw) {
            Err(SkipReason::UserinfoUtf8)
        } else {
            match split_first_spec(raw, COLON) {
                None => Err(SkipReason::MissingPassword),
                Some(cp) => if cp.0.len() == 0 {
                    Err(SkipReason::MissingCipher)
                } else {
                    Ok(cp)
                },
            }
        },
    }
}

/// The entry decoded from the parts of an `ss://` URI: credentials from the
/// userinfo, server and port from the authority (an empty host is as good as
/// a missing one, no default port is substituted, and port zero is outside
/// the entry's valid range), the plugin descriptor verbatim from the query,
/// and the display name from the fragment, percent-decoded; a name that is
/// not UTF-8 text skips the entry. UDP is unconditionally on.
pub open spec fn ss_entry_of_parts(p: UriPartsV) -> Result<ShadowsocksEntryV, SkipReason> {
    match userinfo_credentials(p.username) {
        Err(r) => Err(r),
        Ok(cp) => match p.host {
            None => Err(SkipReason::MissingHost),
            Some(host) => if host.len() == 0 {
                Err(SkipReason::MissingHost)
            } else {
                match p.port {
                    None => Err(SkipReason::MissingPort),
                    Some(port) => if port == 0 {
                        Err(SkipReason::MissingPort)
                    } else {
                        let name = match p.fragment {
                            None => seq![],
                            Some(f) => percent_decode_spec(f),
                        };
                        if !valid_utf8(name) {
                            Err(SkipReason::NameUtf8)
                        } else {
                            Ok(ShadowsocksEntryV {
                                entry_type: ss_scheme(),
                                name: name,
                                server: host,
                                port: port,
                                cipher: cp.0,
                                password: cp.1,
                                plugin: match p.query {
                                    None => seq![],
                                    Some(q) => q,
                                },
                                udp: true,
                            })
                        }
                    },
                }
            },
        },
    }
}

/// What one subscription line yields: the line is percent-decoded first
/// (encoded delimiters must be restored before structural parsing), parsed
/// into URI parts, and routed by scheme; `ss` is the one supported protocol.
pub open spec fn parse_line_spec(line: Seq<u8>) -> Result<ProxyNodeEntryV, SkipReason> {
    let d = percent_decode_spec(line);
    if !valid_utf8(d) {
        Err(SkipReason::DecodePercent)
    } else {
        match uri_parts_of(d) {
            None => Err(SkipReason::ParseUri),
            Some(p) => if p.scheme != ss_scheme() {
                Err(SkipReason::UnsupportedProtocol)
            } else {
                match ss_entry_of_parts(p) {
                    Err(r) => Err(r),
                    Ok(e) => Ok(
                        ProxyNodeEntryV { protocol: ProxyNodeProtocolV::Shadowsocks(e) },
                    ),
                }
            },
        }
    }
}

/// Splitting `a + [b] + c` on the first `b` gives back `a` and `c`, when `a`
/// itself holds no `b`.
pub proof fn lemma_split_first_at_join(a: Seq<u8>, b: u8, c: Seq<u8>)
    requires
        !a.contains(b),
    ensures
        split_first_spec(a + seq![b] + c, b) == Some((a, c)),
{
    let s = a + seq![b] + c;
    lemma_find_byte(s, b);
    assert(s[a.len() as int] == b);
    assert forall|j: int| 0 <= j < a.len() implies s[j] != b by {
        assert(s[j] == a[j]);
        if a[j] == b {
            assert(a.contains(b));
        }
    }
    match find_byte_spec(s, b) {
        Some(i) => {
            assert(i == a.len());
            assert(s.take(i) =~= a);
            assert(s.skip(i + 1) =~= c);
        },
        None => {
            assert(false);
        },
    }
}

/// Every entry the protocol decoder produces is well formed: its port is in
/// the valid range, its server and cipher are non-empty, its name is UTF-8
/// text, its type tag is the Shadowsocks scheme, and UDP is on.
pub proof fn lemma_decoded_entry_well_formed(p: UriPartsV, e: ShadowsocksEntryV)
    requires
        ss_entry_of_parts(p) == Ok::<ShadowsocksEntryV, SkipReason>(e),
    ensures
        entry_well_formed(e),
{
}

/// Decode a userinfo component into its cipher and password halves.
pub fn decode_userinfo(u: &Vec<u8>) -> (r: Result<(Vec<u8>, Vec<u8>), SkipReason>)
    ensures
        match r {
            Ok(cp) => userinfo_credentials(u@) == Ok::<_, SkipReason>((cp.0@, cp.1@)),
            Err(e) => userinfo_credentials(u@) == Err::<(Seq<u8>, Seq<u8>), _>(e),
        },
{
    match b64_decode_nopad(u) {
        None => Err(SkipReason::UserinfoBase64),
        Some(raw) => {
            if !is_utf8(&raw) {
                Err(SkipReason::UserinfoUtf8)
            } else {
                match split_first(&raw, COLON) {
                    None => Err(SkipReason::MissingPassword),
                    Some(cp) => {
                        if cp.0.len() == 0 {
                            Err(SkipReason::MissingCipher)
                        } else {
                            Ok(cp)
                        }
                    },
                }
            }
        },
    }
}

/// Encode a non-empty cipher and a password as a userinfo component: join
/// them with a colon and base64-encode with the unpadded alphabet. Decoding
/// such a userinfo reproduces the cipher and the password exactly.
pub fn encode_userinfo(cipher: &Vec<u8>, password: &Vec<u8>) -> (r: Vec<u8>)
    requires
        cipher@.len() > 0,
        !cipher@.contains(COLON),
        valid_utf8(cipher@),
        valid_utf8(password@),
    ensures
        r@ == b64_nopad_encoded(cipher@ + seq![COLON] + password@),
        userinfo_credentials(r@) == Ok::<_, SkipReason>((cipher@, password@)),
{
    let mut joined = copy_range(cipher, 0, cipher.len());
    joined.push(COLON);
    let mut tail = copy_range(password, 0, password.len());
    joined.append(&mut tail);
    proof {
        assert(joined@ =~= cipher@ + seq![COLON] + password@);
        lemma_valid_utf8_single_ascii(COLON);
        vstd::utf8::valid_utf8_concat(cipher@, seq![COLON]);
        vstd::utf8::valid_utf8_concat(cipher@ + seq![COLON], password@);
        assert((cipher@ + seq![COLON]) + password@ =~= joined@);
        lemma_split_first_at_join(cipher@, COLON, password@);
    }
    b64_encode_nopad(&joined)
}

impl ProxyNodeEntry {
    /// Decode the parts of an `ss://` URI into a typed entry, or say why the
    /// entry is skipped. An entry that comes out is well formed.
    pub fn to_ss_entry(parts: &UriParts) -> (r: Result<ShadowsocksEntry, SkipReason>)
        ensures
            match r {
                Ok(e) => ss_entry_of_parts(parts@) == Ok::<ShadowsocksEntryV, SkipReason>(e@)
                    && entry_well_formed(e@),
                Err(x) => ss_entry_of_parts(parts@) == Err::<ShadowsocksEntryV, SkipReason>(x),
            },
    {
        let cp = match decode_userinfo(&parts.username) {
            Ok(cp) => cp,
            Err(r) => {
                return Err(r);
            },
        };
        let server = match &parts.host {
            Some(h) => copy_range(h, 0, h.len()),
            None => {
                return Err(SkipReason::MissingHost);
            },
        };
        if server.len() == 0 {
            return Err(SkipReason::MissingHost);
        }
        let port = match parts.port {
            Some(p) => p,
            None => {
                return Err(SkipReason::MissingPort);
            },
        };
        if port == 0 {
            return Err(SkipReason::MissingPort);
        }
        let name = match &parts.fragment {
            Some(f) => percent_decode(f),
            None => Vec::new(),
        };
        if !is_utf8(&name) {
            return Err(SkipReason::NameUtf8);
        }
        let plugin = match &parts.query {
            Some(q) => copy_range(q, 0, q.len()),
            None => Vec::new(),
        };
        let mut entry_type: Vec<u8> = Vec::new();
        entry_type.push(115);
        entry_type.push(115);
        let e = ShadowsocksEntry {
            entry_type,
            name,
            server,
            port,
            cipher: cp.0,
            password: cp.1,
            plugin,
            udp: true,
        };
        proof {
            assert(e@.entry_type =~= ss_scheme());
            assert(e@.server =~= parts@.host->Some_0);
            assert(ss_entry_of_parts(parts@) matches Ok(v) && e@ =~= v);
        }
        Ok(e)
    }

    /// Decode one subscription line: percent-decode it, parse it as a URI,
    /// and route it by scheme to the protocol decoder, or say why the line is
    /// skipped.
    pub fn parse(line: &Vec<u8>) -> (r: Result<ProxyNodeEntry, SkipReason>)
        ensures
            match r {
                Ok(e) => parse_line_spec(line@) == Ok::<ProxyNodeEntryV, SkipReason>(e@),
                Err(x) => parse_line_spec(line@) == Err::<ProxyNodeEntryV, SkipReason>(x),
            },
    {
        let decoded = percent_decode(line);
        if !is_utf8(&decoded) {
            return Err(SkipReason::DecodePercent);
        }
        let parts = match parse_uri_parts(&decoded) {
            Some(p) => p,
            None => {
                return Err(SkipReason::ParseUri);
            },
        };
        let sch = &parts.scheme;
        let scheme_is_ss = sch.len() == 2 && sch[0] == 115 && sch[1] == 115;
        proof {
            if scheme_is_ss {
                assert(sch@ =~= ss_scheme());
            } else {
                assert(sch@ != ss_scheme());
            }
        }
        if !scheme_is_ss {
            return Err(SkipReason::UnsupportedProtocol);
        }
        match Self::to_ss_entry(&parts) {
            Ok(e) => Ok(
                ProxyNodeEntry { protocol: ProxyNodeProtocol::Shadowsocks(e) },
            ),
            Err(r) => Err(r),
        }
    }
}

} // verus!
