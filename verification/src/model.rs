//! Data model: the typed proxy entry produced by the decoder, the plain parts
//! of a parsed URI, and the reasons a line is skipped or a whole subscription
//! body is rejected. Text is carried as UTF-8 bytes (`Vec<u8>`); the display
//! name is arbitrary decoded text, non-ASCII included.

use vstd::prelude::*;

verus! {

/// Reason one URI line was skipped. Per-entry failures are isolated: a skip
/// never aborts the run.
#[derive(Clone, Copy, Debug, PartialEq, Eq, Structural)]
pub enum SkipReason {
    /// The percent-decoded line is not valid UTF-8 text.
    DecodePercent,
    /// The percent-decoded line does not parse as a URI.
    ParseUri,
    /// The URI scheme names no supported protocol.
    UnsupportedProtocol,
    /// The userinfo component is not valid unpadded base64.
    UserinfoBase64,
    /// The decoded userinfo is not valid UTF-8 text.
    UserinfoUtf8,
    /// The decoded userinfo holds no colon separating cipher from password.
    MissingPassword,
    /// The decoded userinfo begins with its colon: the cipher is empty.
    MissingCipher,
    /// The percent-decoded fragment is not valid UTF-8 text.
    NameUtf8,
    /// The URI authority names no host.
    MissingHost,
    /// The URI authority names no usable port.
    MissingPort,
}

/// Reason a whole subscription body was rejected. These failures are fatal to
/// the run: no entry is produced.
#[derive(Clone, Copy, Debug, PartialEq, Eq, Structural)]
pub enum DecodeError {
    /// The body is not valid padded base64.
    BadBase64,
    /// The decoded body is not valid UTF-8 text.
    BadUtf8,
}

/// Diagnostic text for each skip reason.
pub open spec fn skip_message_spec(r: SkipReason) -> Seq<char> {
    match r {
        SkipReason::DecodePercent => "percent-decoded uri is not utf-8 text"@,
        SkipReason::ParseUri => "failed to parse uri"@,
        SkipReason::UnsupportedProtocol => "unsupported protocol"@,
        SkipReason::UserinfoBase64 => "failed to decode userinfo as base64"@,
        SkipReason::UserinfoUtf8 => "decoded userinfo is not utf-8 text"@,
        SkipReason::MissingPassword => "no colon between cipher and password"@,
        SkipReason::MissingCipher => "empty cipher in credentials"@,
        SkipReason::NameUtf8 => "percent-decoded name is not utf-8 text"@,
        SkipReason::MissingHost => "no host in uri"@,
        SkipReason::MissingPort => "no usable port in uri"@,
    }
}

/// Diagnostic text for each subscription decode error.
pub open spec fn decode_message_spec(e: DecodeError) -> Seq<char> {
    match e {
        DecodeError::BadBase64 => "subscription body is not valid base64"@,
        DecodeError::BadUtf8 => "decoded subscription body is not utf-8 text"@,
    }
}

impl SkipReason {
    /// Human-readable diagnostic for the skip.
    pub fn message(&self) -> (r: &'static str)
        ensures
            r@ == skip_message_spec(*self),
    {
        match self {
            SkipReason::DecodePercent => "percent-decoded uri is not utf-8 text",
            SkipReason::ParseUri => "failed to parse uri",
            SkipReason::UnsupportedProtocol => "unsupported protocol",
            SkipReason::UserinfoBase64 => "failed to decode userinfo as base64",
            SkipReason::UserinfoUtf8 => "decoded userinfo is not utf-8 text",
            SkipReason::MissingPassword => "no colon between cipher and password",
            SkipReason::MissingCipher => "empty cipher in credentials",
            SkipReason::NameUtf8 => "percent-decoded name is not utf-8 text",
            SkipReason::MissingHost => "no host in uri",
            SkipReason::MissingPort => "no usable port in uri",
        }
    }
}

impl DecodeError {
    /// Human-readable diagnostic for the rejection.
    pub fn message(&self) -> (r: &'static str)
        ensures
            r@ == decode_message_spec(*self),
    {
        match self {
            DecodeError::BadBase64 => "subscription body is not valid base64",
            DecodeError::BadUtf8 => "decoded subscription body is not utf-8 text",
        }
    }
}

/// Mathematical view of the parts of a parsed URI.
#[verifier::ext_equal]
pub struct UriPartsV {
    pub scheme: Seq<u8>,
    pub username: Seq<u8>,
    pub host: Option<Seq<u8>>,
    pub port: Option<u16>,
    pub query: Option<Seq<u8>>,
    pub fragment: Option<Seq<u8>>,
}

/// The plain parts of a parsed URI: scheme, userinfo, authority, query and
/// fragment, each as the parser reported it. A component the URI does not
/// have is `None`; an absent userinfo is the empty string.
#[derive(Debug)]
pub struct UriParts {
    pub scheme: Vec<u8>,
    pub username: Vec<u8>,
    pub host: Option<Vec<u8>>,
    pub port: Option<u16>,
    pub query: Option<Vec<u8>>,
    pub fragment: Option<Vec<u8>>,
}

impl View for UriParts {
    type V = UriPartsV;

    open spec fn view(&self) -> UriPartsV {
        UriPartsV {
            scheme: self.scheme@,
            username: self.username@,
            host: match self.host {
                Some(h) => Some(h@),
                None => None,
            },
            port: self.port,
            query: match self.query {
                Some(q) => Some(q@),
                None => None,
            },
            fragment: match self.fragment {
                Some(f) => Some(f@),
                None => None,
            },
        }
    }
}

/// Mathematical view of a decoded Shadowsocks entry.
#[verifier::ext_equal]
pub struct ShadowsocksEntryV {
    pub entry_type: Seq<u8>,
    pub name: Seq<u8>,
    pub server: Seq<u8>,
    pub port: u16,
    pub cipher: Seq<u8>,
    pub password: Seq<u8>,
    pub plugin: Seq<u8>,
    pub udp: bool,
}

/// One decoded Shadowsocks endpoint. `name` is decoded UTF-8 text, possibly
/// empty, possibly non-ASCII. `plugin` is the raw query string verbatim
/// (semicolon-delimited `key=value` tokens); the empty string means "no
/// plugin". `udp` is unconditionally true: nothing in the input negotiates
/// it.
#[derive(Debug)]
pub struct ShadowsocksEntry {
    pub entry_type: Vec<u8>,
    pub name: Vec<u8>,
    pub server: Vec<u8>,
    pub port: u16,
    pub cipher: Vec<u8>,
    pub password: Vec<u8>,
    pub plugin: Vec<u8>,
    pub udp: bool,
}

impl View for ShadowsocksEntry {
    type V = ShadowsocksEntryV;

    open spec fn view(&self) -> ShadowsocksEntryV {
        ShadowsocksEntryV {
            entry_type: self.entry_type@,
            name: self.name@,
            server: self.server@,
            port: self.port,
            cipher: self.cipher@,
            password: self.password@,
            plugin: self.plugin@,
            udp: self.udp,
        }
    }
}

impl DeepView for ShadowsocksEntry {
    type V = ShadowsocksEntryV;

    open spec fn deep_view(&self) -> ShadowsocksEntryV {
        self.view()
    }
}

/// Mathematical view of a decoded entry, tagged by protocol.
#[verifier::ext_equal]
pub enum ProxyNodeProtocolV {
    Shadowsocks(ShadowsocksEntryV),
}

/// A decoded proxy entry, tagged by protocol. Adding a protocol means adding
/// a variant with its own decode and render pair; existing variants stand.
#[derive(Debug)]
pub enum ProxyNodeProtocol {
    Shadowsocks(ShadowsocksEntry),
}

impl View for ProxyNodeProtocol {
    type V = ProxyNodeProtocolV;

    open spec fn view(&self) -> ProxyNodeProtocolV {
        match self {
            ProxyNodeProtocol::Shadowsocks(e) => ProxyNodeProtocolV::Shadowsocks(e@),
        }
    }
}

/// Mathematical view of one parsed subscription entry.
#[verifier::ext_equal]
pub struct ProxyNodeEntryV {
    pub protocol: ProxyNodeProtocolV,
}

/// One parsed subscription entry.
#[derive(Debug)]
pub struct ProxyNodeEntry {
    pub protocol: ProxyNodeProtocol,
}

impl View for ProxyNodeEntry {
    type V = ProxyNodeEntryV;

    open spec fn view(&self) -> ProxyNodeEntryV {
        ProxyNodeEntryV { protocol: self.protocol@ }
    }
}

impl DeepView for ProxyNodeEntry {
    type V = ProxyNodeEntryV;

    open spec fn deep_view(&self) -> ProxyNodeEntryV {
        self.view()
    }
}

/// Well-formedness of a decoded entry: the port is in the valid range, the
/// server and the cipher are non-empty, the display name is UTF-8 text, the
/// type tag is fixed to the Shadowsocks scheme, and UDP is on.
pub open spec fn entry_well_formed(e: ShadowsocksEntryV) -> bool {
    &&& 1 <= e.port
    &&& e.server.len() > 0
    &&& e.cipher.len() > 0
    &&& vstd::utf8::valid_utf8(e.name)
    &&& e.entry_type == seq![115u8, 115u8]
    &&& e.udp
}

} // verus!
