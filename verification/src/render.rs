//! The config-fragment renderer: one decoded entry becomes one line of
//! mapping-style text with a fixed field order, and a non-empty plugin
//! descriptor becomes a nested plugin-options block. A plugin token without
//! `=` is malformed: it degrades to a key with an empty value rather than
//! aborting the fragment, and `malformed_plugin_tokens` reports such tokens.

use vstd::prelude::*;
use vstd::string::StrSliceExecFns;
use vstd::utf8::encode_utf8;
use crate::bytes::{
    EQUALS, SEMICOLON, copy_range, find_byte, find_byte_spec, lemma_deep_view_bytes, split_all,
    split_all_spec, split_first, split_first_spec,
};
use crate::model::{ShadowsocksEntry, ShadowsocksEntryV};

verus! {

/// The UTF-8 bytes of a piece of text.
pub open spec fn text_bytes(s: &str) -> Seq<u8> {
    encode_utf8(s@)
}

/// The decimal digits of `n`, most significant first, no sign and no leading
/// zero (a single zero digit for zero).
pub open spec fn decimal_spec(n: nat) -> Seq<u8>
    decreases n,
{
    if n < 10 {
        seq![(48 + n) as u8]
    } else {
        decimal_spec(n / 10).push((48 + n % 10) as u8)
    }
}

/// The decimal digits of `n`.
pub fn decimal_u16(n: u16) -> (r: Vec<u8>)
    ensures
        r@ == decimal_spec(n as nat),
    decreases n,
{
    if n < 10 {
        let mut r: Vec<u8> = Vec::new();
        r.push(48 + n as u8);
        proof {
            assert(r@ =~= decimal_spec(n as nat));
        }
        r
    } else {
        let mut r = decimal_u16(n / 10);
        r.push(48 + (n % 10) as u8);
        proof {
            assert(r@ =~= decimal_spec(n as nat));
        }
        r
    }
}

/// Append the UTF-8 bytes of a piece of text.
pub fn append_text(out: &mut Vec<u8>, s: &str)
    ensures
        final(out)@ == old(out)@ + text_bytes(s),
{
    let mut p = s.as_bytes_vec();
    out.append(&mut p);
}

/// Append a copy of the given bytes.
pub fn append_bytes(out: &mut Vec<u8>, v: &Vec<u8>)
    ensures
        final(out)@ == old(out)@ + v@,
{
    let mut p = copy_range(v, 0, v.len());
    proof {
        assert(p@ =~= v@);
    }
    out.append(&mut p);
}

/// One plugin token rendered as `key: value`: the token split on its first
/// `=`. A token without `=` is rendered as its key with an empty value.
pub open spec fn render_token_spec(t: Seq<u8>) -> Seq<u8> {
    match split_first_spec(t, EQUALS) {
        Some(kv) => kv.0 + text_bytes(": ") + kv.1,
        None => t + text_bytes(": "),
    }
}

/// Rendered plugin tokens joined with `", "`.
pub open spec fn plugin_opts_spec(toks: Seq<Seq<u8>>) -> Seq<u8>
    decreases toks.len(),
{
    if toks.len() == 0 {
        seq![]
    } else if toks.len() == 1 {
        render_token_spec(toks[0])
    } else {
        render_token_spec(toks[0]) + text_bytes(", ") + plugin_opts_spec(toks.drop_first())
    }
}

/// Rendering one more token extends the joined text by a separator and that
/// token's rendering.
pub proof fn lemma_plugin_opts_snoc(toks: Seq<Seq<u8>>, i: int)
    requires
        1 <= i < toks.len(),
    ensures
        plugin_opts_spec(toks.take(i + 1)) == plugin_opts_spec(toks.take(i)) + text_bytes(", ")
            + render_token_spec(toks[i]),
    decreases i,
{
    let a = toks.take(i + 1);
    let b = toks.take(i);
    if i == 1 {
        let s1 = seq![toks[1]];
        assert(a.len() == 2);
        assert(a.drop_first() =~= s1);
        assert(s1.len() == 1 && s1[0] == toks[1]);
        assert(plugin_opts_spec(s1) == render_token_spec(toks[1]));
        assert(a[0] == toks[0]);
        assert(plugin_opts_spec(a) == render_token_spec(a[0]) + text_bytes(", ")
            + plugin_opts_spec(a.drop_first()));
        assert(b =~= seq![toks[0]]);
        assert(b.len() == 1 && b[0] == toks[0]);
        assert(plugin_opts_spec(b) == render_token_spec(toks[0]));
        assert(plugin_opts_spec(a) == render_token_spec(toks[0]) + text_bytes(", ")
            + render_token_spec(toks[1]));
    } else {
        lemma_plugin_opts_snoc(toks.drop_first(), i - 1);
        assert(a.drop_first() =~= toks.drop_first().take(i));
        assert(b.drop_first() =~= toks.drop_first().take(i - 1));
        assert(toks.drop_first()[i - 1] == toks[i]);
        assert(a[0] == toks[0]);
        assert(b[0] == toks[0]);
        assert(plugin_opts_spec(a) == render_token_spec(toks[0]) + text_bytes(", ") + (
        plugin_opts_spec(b.drop_first()) + text_bytes(", ") + render_token_spec(toks[i])));
        assert(render_token_spec(toks[0]) + text_bytes(", ") + (plugin_opts_spec(b.drop_first())
            + text_bytes(", ") + render_token_spec(toks[i])) =~= (render_token_spec(toks[0])
            + text_bytes(", ") + plugin_opts_spec(b.drop_first())) + text_bytes(", ")
            + render_token_spec(toks[i]));
    }
}

/// One plugin token rendered as `key: value`.
pub fn render_token(t: &Vec<u8>) -> (r: Vec<u8>)
    ensures
        r@ == render_token_spec(t@),
{
    match split_first(t, EQUALS) {
        Some(kv) => {
            let mut out = kv.0;
            append_text(&mut out, ": ");
            let mut v = kv.1;
            out.append(&mut v);
            out
        },
        None => {
            let mut out = copy_range(t, 0, t.len());
            proof {
                assert(out@ =~= t@);
            }
            append_text(&mut out, ": ");
            out
        },
    }
}

/// The plugin-options text: the descriptor split on `;` into tokens, each
/// token split on its first `=` and rendered as `key: value`, the renderings
/// joined with `", "`.
pub fn render_plugin_opts(plugin: &Vec<u8>) -> (r: Vec<u8>)
    ensures
        r@ == plugin_opts_spec(split_all_spec(plugin@, SEMICOLON)),
{
    let toks = split_all(plugin, SEMICOLON);
    let ghost tv = toks.deep_view();
    proof {
        lemma_deep_view_bytes(toks);
    }
    let mut out: Vec<u8> = Vec::new();
    let mut i: usize = 0;
    while i < toks.len()
        invariant
            0 <= i <= toks@.len(),
            tv == split_all_spec(plugin@, SEMICOLON),
            tv.len() == toks@.len(),
            forall|j: int| 0 <= j < toks@.len() ==> tv[j] == toks@[j]@,
            out@ == plugin_opts_spec(tv.take(i as int)),
        decreases toks@.len() - i,
    {
        if i > 0 {
            append_text(&mut out, ", ");
        }
        let piece = render_token(&toks[i]);
        append_bytes(&mut out, &piece);
        proof {
            if i == 0 {
                assert(tv.take(1)[0] == tv[0]);
                assert(out@ =~= plugin_opts_spec(tv.take(i + 1 as int)));
            } else {
                lemma_plugin_opts_snoc(tv, i as int);
                assert(out@ =~= plugin_opts_spec(tv.take(i + 1 as int)));
            }
        }
        i += 1;
    }
    proof {
        assert(tv.take(toks@.len() as int) =~= tv);
    }
    out
}

/// The plugin tokens that hold no `=`: the malformed ones, each rendered
/// degraded with an empty value and worth a diagnostic.
pub open spec fn malformed_tokens_spec(toks: Seq<Seq<u8>>) -> Seq<Seq<u8>>
    decreases toks.len(),
{
    if toks.len() == 0 {
        seq![]
    } else {
        (if find_byte_spec(toks[0], EQUALS) is None {
            seq![toks[0]]
        } else {
            seq![]
        }) + malformed_tokens_spec(toks.drop_first())
    }
}

/// Taking one more token extends the malformed list by that token exactly
/// when it holds no `=`.
pub proof fn lemma_malformed_snoc(toks: Seq<Seq<u8>>, i: int)
    requires
        0 <= i < toks.len(),
    ensures
        malformed_tokens_spec(toks.take(i + 1)) == malformed_tokens_spec(toks.take(i)) + (
        if find_byte_spec(toks[i], EQUALS) is None {
            seq![toks[i]]
        } else {
            seq![]
        }),
    decreases i,
{
    let a = toks.take(i + 1);
    let b = toks.take(i);
    if i == 0 {
        assert(a.drop_first() =~= Seq::<Seq<u8>>::empty());
        assert(a[0] == toks[0]);
        assert(b =~= Seq::<Seq<u8>>::empty());
        assert(malformed_tokens_spec(a) =~~= malformed_tokens_spec(b) + (
        if find_byte_spec(toks[0], EQUALS) is None {
            seq![toks[0]]
        } else {
            seq![]
        }));
    } else {
        lemma_malformed_snoc(toks.drop_first(), i - 1);
        assert(a.drop_first() =~= toks.drop_first().take(i));
        assert(b.drop_first() =~= toks.drop_first().take(i - 1));
        assert(toks.drop_first()[i - 1] == toks[i]);
        assert(a[0] == toks[0]);
        assert(b[0] == toks[0]);
        assert(malformed_tokens_spec(a) =~~= malformed_tokens_spec(b) + (
        if find_byte_spec(toks[i], EQUALS) is None {
            seq![toks[i]]
        } else {
            seq![]
        }));
    }
}

/// The malformed tokens of a plugin descriptor: those without `=`.
pub fn malformed_plugin_tokens(plugin: &Vec<u8>) -> (r: Vec<Vec<u8>>)
    ensures
        r.deep_view() == malformed_tokens_spec(split_all_spec(plugin@, SEMICOLON)),
{
    let toks = split_all(plugin, SEMICOLON);
    let ghost tv = toks.deep_view();
    proof {
        lemma_deep_view_bytes(toks);
    }
    let mut r: Vec<Vec<u8>> = Vec::new();
    let mut i: usize = 0;
    while i < toks.len()
        invariant
            0 <= i <= toks@.len(),
            tv == split_all_spec(plugin@, SEMICOLON),
            tv.len() == toks@.len(),
            forall|j: int| 0 <= j < toks@.len() ==> tv[j] == toks@[j]@,
            r.deep_view() == malformed_tokens_spec(tv.take(i as int)),
        decreases toks@.len() - i,
    {
        let tok = &toks[i];
        if find_byte(tok, EQUALS).is_none() {
            r.push(copy_range(tok, 0, tok.len()));
            proof {
                lemma_deep_view_bytes(r);
                assert(r@[r@.len() - 1]@ =~= tv[i as int]);
            }
        }
        proof {
            lemma_malformed_snoc(tv, i as int);
            lemma_deep_view_bytes(r);
            assert(r.deep_view() =~~= malformed_tokens_spec(tv.take(i + 1 as int)));
        }
        i += 1;
    }
    proof {
        assert(tv.take(toks@.len() as int) =~= tv);
    }
    r
}

/// The full fragment for one entry, in the fixed field order: name, type,
/// server, port, cipher, password, udp, and — only when the plugin descriptor
/// is non-empty — the nested plugin-options block.
pub open spec fn render_spec(e: ShadowsocksEntryV) -> Seq<u8> {
    text_bytes("  - {name: ") + e.name + text_bytes(", type: ") + e.entry_type + text_bytes(
        ", server: ",
    ) + e.server + text_bytes(", port: ") + decimal_spec(e.port as nat) + text_bytes(", cipher: ")
        + e.cipher + text_bytes(", password: ") + e.password + text_bytes(", udp: ") + (if e.udp {
        text_bytes("true")
    } else {
        text_bytes("false")
    }) + text_bytes(", ") + (if e.plugin.len() > 0 {
        text_bytes("plugin-opts: {") + plugin_opts_spec(split_all_spec(e.plugin, SEMICOLON))
            + text_bytes("}, ")
    } else {
        seq![]
    })
}

impl ShadowsocksEntry {
    /// Serialize this entry as one Clash configuration fragment.
    pub fn gen_clash_config(&self) -> (r: Vec<u8>)
        ensures
            r@ == render_spec(self@),
    {
        let mut out: Vec<u8> = Vec::new();
        append_text(&mut out, "  - {name: ");
        append_bytes(&mut out, &self.name);
        append_text(&mut out, ", type: ");
        append_bytes(&mut out, &self.entry_type);
        append_text(&mut out, ", server: ");
        append_bytes(&mut out, &self.server);
        append_text(&mut out, ", port: ");
        let port_digits = decimal_u16(self.port);
        append_bytes(&mut out, &port_digits);
        append_text(&mut out, ", cipher: ");
        append_bytes(&mut out, &self.cipher);
        append_text(&mut out, ", password: ");
        append_bytes(&mut out, &self.password);
        append_text(&mut out, ", udp: ");
        if self.udp {
            append_text(&mut out, "true");
        } else {
            append_text(&mut out, "false");
        }
        append_text(&mut out, ", ");
        if self.plugin.len() > 0 {
            append_text(&mut out, "plugin-opts: {");
            let opts = render_plugin_opts(&self.plugin);
            append_bytes(&mut out, &opts);
            append_text(&mut out, "}, ");
        }
        proof {
            assert(out@ =~= render_spec(self@));
        }
        out
    }
}

} // verus!
