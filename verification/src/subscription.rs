//! The subscription decoder and the pipeline over its lines: a base64 body
//! becomes an ordered sequence of candidate URI lines, each line is parsed
//! independently, and the first decoded entry is rendered. A bad body is
//! fatal; a bad line is skipped with a reason and the run goes on. The
//! inverse encoder witnesses that decoding a body built from given lines
//! yields exactly those lines.

use vstd::prelude::*;
use vstd::utf8::valid_utf8;
use crate::bytes::{
    CARRIAGE, NEWLINE, copy_range, lemma_deep_view_bytes, lemma_find_byte,
    lemma_valid_utf8_single_ascii, split_lines, split_lines_spec, strip_carriage,
};
use crate::ext::{b64_decode_standard, b64_encode_standard, b64_standard_decoded,
    b64_standard_encoded, is_utf8,
};
use crate::model::{
    DecodeError, ProxyNodeEntry, ProxyNodeEntryV, ProxyNodeProtocol, ProxyNodeProtocolV,
    SkipReason,
};
use crate::render::render_spec;
use crate::ss::parse_line_spec;

verus! {

/// What a subscription body yields: the base64 (padded alphabet) decoding of
/// the body, read as UTF-8 text and split into lines. Either failure is fatal
/// to the whole run.
pub open spec fn subscription_lines(body: Seq<u8>) -> Result<Seq<Seq<u8>>, DecodeError> {
    match b64_standard_decoded(body) {
        None => Err(DecodeError::BadBase64),
        Some(d) => if !valid_utf8(d) {
            Err(DecodeError::BadUtf8)
        } else {
            Ok(split_lines_spec(d))
        },
    }
}

/// Decode a subscription body into its ordered lines.
pub fn decode_subscription(body: &Vec<u8>) -> (r: Result<Vec<Vec<u8>>, DecodeError>)
    ensures
        match r {
            Ok(ls) => subscription_lines(body@) == Ok::<_, DecodeError>(ls.deep_view()),
            Err(e) => subscription_lines(body@) == Err::<Seq<Seq<u8>>, DecodeError>(e),
        },
{
    match b64_decode_standard(body) {
        None => Err(DecodeError::BadBase64),
        Some(d) => {
            if !is_utf8(&d) {
                Err(DecodeError::BadUtf8)
            } else {
                Ok(split_lines(&d))
            }
        },
    }
}

/// The given lines joined with single newlines, no trailing newline.
pub open spec fn join_lines_spec(lines: Seq<Seq<u8>>) -> Seq<u8>
    decreases lines.len(),
{
    if lines.len() == 0 {
        seq![]
    } else if lines.len() == 1 {
        lines[0]
    } else {
        lines[0] + seq![NEWLINE] + join_lines_spec(lines.drop_first())
    }
}

/// Joining one more line extends the text by a newline and that line.
pub proof fn lemma_join_snoc(lines: Seq<Seq<u8>>, i: int)
    requires
        1 <= i < lines.len(),
    ensures
        join_lines_spec(lines.take(i + 1)) == join_lines_spec(lines.take(i)) + seq![NEWLINE]
            + lines[i],
    decreases i,
{
    let a = lines.take(i + 1);
    let b = lines.take(i);
    if i == 1 {
        let s1 = seq![lines[1]];
        assert(a.len() == 2);
        assert(a.drop_first() =~= s1);
        assert(s1.len() == 1 && s1[0] == lines[1]);
        assert(join_lines_spec(s1) == lines[1]);
        assert(a[0] == lines[0]);
        assert(b =~= seq![lines[0]]);
        assert(b.len() == 1 && b[0] == lines[0]);
        assert(join_lines_spec(a) == lines[0] + seq![NEWLINE] + lines[1]);
    } else {
        lemma_join_snoc(lines.drop_first(), i - 1);
        assert(a.drop_first() =~= lines.drop_first().take(i));
        assert(b.drop_first() =~= lines.drop_first().take(i - 1));
        assert(lines.drop_first()[i - 1] == lines[i]);
        assert(a[0] == lines[0]);
        assert(b[0] == lines[0]);
        assert(join_lines_spec(a) == lines[0] + seq![NEWLINE] + (join_lines_spec(b.drop_first())
            + seq![NEWLINE] + lines[i]));
        assert(lines[0] + seq![NEWLINE] + (join_lines_spec(b.drop_first()) + seq![NEWLINE]
            + lines[i]) =~= (lines[0] + seq![NEWLINE] + join_lines_spec(b.drop_first()))
            + seq![NEWLINE] + lines[i]);
    }
}

/// A text joined from valid UTF-8 lines is valid UTF-8.
pub proof fn lemma_join_valid_utf8(lines: Seq<Seq<u8>>)
    requires
        forall|k: int| 0 <= k < lines.len() ==> valid_utf8(#[trigger] lines[k]),
    ensures
        valid_utf8(join_lines_spec(lines)),
    decreases lines.len(),
{
    if lines.len() == 0 {
        assert(valid_utf8(join_lines_spec(lines)));
    } else if lines.len() == 1 {
        assert(valid_utf8(join_lines_spec(lines)));
    } else {
        lemma_valid_utf8_single_ascii(NEWLINE);
        vstd::utf8::valid_utf8_concat(lines[0], seq![NEWLINE]);
        lemma_join_valid_utf8(lines.drop_first());
        vstd::utf8::valid_utf8_concat(lines[0] + seq![NEWLINE], join_lines_spec(lines.drop_first()));
        assert((lines[0] + seq![NEWLINE]) + join_lines_spec(lines.drop_first())
            =~= join_lines_spec(lines));
    }
}

/// Splitting a joined text gives the lines back: no line holds a newline or
/// ends with a carriage return, and the last line is non-empty (a trailing
/// newline would otherwise end the last line early).
pub proof fn lemma_split_join(lines: Seq<Seq<u8>>)
    requires
        forall|k: int| 0 <= k < lines.len() ==> !(#[trigger] lines[k]).contains(NEWLINE),
        forall|k: int|
            0 <= k < lines.len() ==> ((#[trigger] lines[k]).len() > 0 ==> lines[k][lines[k].len()
                - 1] != CARRIAGE),
        lines.len() > 0 ==> lines[lines.len() - 1].len() > 0,
    ensures
        split_lines_spec(join_lines_spec(lines)) == lines,
    decreases lines.len(),
{
    let j = join_lines_spec(lines);
    if lines.len() == 0 {
        assert(split_lines_spec(j) =~= lines);
    } else if lines.len() == 1 {
        assert(j == lines[0]);
        assert(j.len() > 0);
        lemma_find_byte(j, NEWLINE);
        match crate::bytes::find_byte_spec(j, NEWLINE) {
            Some(i) => {
                assert(j[i] == NEWLINE);
                assert(lines[0].contains(NEWLINE));
                assert(false);
            },
            None => {
                assert(split_lines_spec(j) =~= lines);
            },
        }
    } else {
        let m = lines[0].len() as int;
        assert(j == lines[0] + seq![NEWLINE] + join_lines_spec(lines.drop_first()));
        assert(j[m] == NEWLINE);
        assert forall|k: int| 0 <= k < m implies j[k] != NEWLINE by {
            assert(j[k] == lines[0][k]);
            if lines[0][k] == NEWLINE {
                assert(lines[0].contains(NEWLINE));
            }
        }
        lemma_find_byte(j, NEWLINE);
        match crate::bytes::find_byte_spec(j, NEWLINE) {
            None => {
                assert(false);
            },
            Some(i) => {
                assert(i == m);
                assert(j.take(m) =~= lines[0]);
                if lines[0].len() > 0 {
                    assert(lines[0][lines[0].len() - 1] != CARRIAGE);
                }
                assert(strip_carriage(j.take(m)) == lines[0]);
                assert(j.skip(m + 1) =~= join_lines_spec(lines.drop_first()));
                lemma_split_join(lines.drop_first());
                assert(lines.drop_first()[lines.drop_first().len() - 1] == lines[lines.len() - 1]);
                assert(split_lines_spec(j) =~= seq![lines[0]] + lines.drop_first());
                assert(seq![lines[0]] + lines.drop_first() =~= lines);
            },
        }
    }
}

/// Encode the given lines as a subscription body: join them with newlines and
/// base64-encode with the padded alphabet. Decoding such a body yields
/// exactly the given lines, in order.
pub fn encode_subscription(lines: &Vec<Vec<u8>>) -> (r: Vec<u8>)
    requires
        forall|k: int| 0 <= k < lines@.len() ==> valid_utf8(#[trigger] lines.deep_view()[k]),
        forall|k: int| 0 <= k < lines@.len() ==> !(#[trigger] lines.deep_view()[k]).contains(
            NEWLINE,
        ),
        forall|k: int|
            0 <= k < lines@.len() ==> ((#[trigger] lines.deep_view()[k]).len() > 0
                ==> lines.deep_view()[k][lines.deep_view()[k].len() - 1] != CARRIAGE),
        lines@.len() > 0 ==> lines.deep_view()[lines@.len() - 1].len() > 0,
    ensures
        r@ == b64_standard_encoded(join_lines_spec(lines.deep_view())),
        subscription_lines(r@) == Ok::<Seq<Seq<u8>>, DecodeError>(lines.deep_view()),
{
    let ghost lv = lines.deep_view();
    proof {
        lemma_deep_view_bytes(*lines);
    }
    let mut joined: Vec<u8> = Vec::new();
    let mut i: usize = 0;
    while i < lines.len()
        invariant
            0 <= i <= lines@.len(),
            lv == lines.deep_view(),
            lv.len() == lines@.len(),
            forall|j: int| 0 <= j < lines@.len() ==> lv[j] == lines@[j]@,
            joined@ == join_lines_spec(lv.take(i as int)),
        decreases lines@.len() - i,
    {
        if i > 0 {
            joined.push(NEWLINE);
        }
        let mut piece = copy_range(&lines[i], 0, lines[i].len());
        proof {
            assert(piece@ =~= lv[i as int]);
        }
        joined.append(&mut piece);
        proof {
            if i == 0 {
                assert(lv.take(1)[0] == lv[0]);
                assert(joined@ =~= join_lines_spec(lv.take(i + 1 as int)));
            } else {
                lemma_join_snoc(lv, i as int);
                assert(joined@ =~= join_lines_spec(lv.take(i + 1 as int)));
            }
        }
        i += 1;
    }
    proof {
        assert(lv.take(lines@.len() as int) =~= lv);
        lemma_join_valid_utf8(lv);
        lemma_split_join(lv);
    }
    b64_encode_standard(&joined)
}

/// The entries the given lines decode to, in order, skips left out.
pub open spec fn parsed_entries_spec(lines: Seq<Seq<u8>>) -> Seq<ProxyNodeEntryV>
    decreases lines.len(),
{
    if lines.len() == 0 {
        seq![]
    } else {
        (match parse_line_spec(lines[0]) {
            Ok(e) => seq![e],
            Err(_) => seq![],
        }) + parsed_entries_spec(lines.drop_first())
    }
}

/// The reasons the given lines are skipped, in order, entries left out.
pub open spec fn skip_reasons_spec(lines: Seq<Seq<u8>>) -> Seq<SkipReason>
    decreases lines.len(),
{
    if lines.len() == 0 {
        seq![]
    } else {
        (match parse_line_spec(lines[0]) {
            Ok(_) => seq![],
            Err(x) => seq![x],
        }) + skip_reasons_spec(lines.drop_first())
    }
}

/// Parsing one more line extends the entries by its entry, or the skips by
/// its reason.
pub proof fn lemma_parsed_snoc(lines: Seq<Seq<u8>>, i: int)
    requires
        0 <= i < lines.len(),
    ensures
        parsed_entries_spec(lines.take(i + 1)) == parsed_entries_spec(lines.take(i)) + (
        match parse_line_spec(lines[i]) {
            Ok(e) => seq![e],
            Err(_) => seq![],
        }),
        skip_reasons_spec(lines.take(i + 1)) == skip_reasons_spec(lines.take(i)) + (
        match parse_line_spec(lines[i]) {
            Ok(_) => seq![],
            Err(x) => seq![x],
        }),
    decreases i,
{
    let a = lines.take(i + 1);
    let b = lines.take(i);
    if i == 0 {
        assert(a.drop_first() =~= Seq::<Seq<u8>>::empty());
        assert(a[0] == lines[0]);
        assert(b =~= Seq::<Seq<u8>>::empty());
        assert(parsed_entries_spec(a) =~= parsed_entries_spec(b) + (
        match parse_line_spec(lines[0]) {
            Ok(e) => seq![e],
            Err(_) => seq![],
        }));
        assert(skip_reasons_spec(a) =~= skip_reasons_spec(b) + (match parse_line_spec(lines[0]) {
            Ok(_) => seq![],
            Err(x) => seq![x],
        }));
    } else {
        lemma_parsed_snoc(lines.drop_first(), i - 1);
        assert(a.drop_first() =~= lines.drop_first().take(i));
        assert(b.drop_first() =~= lines.drop_first().take(i - 1));
        assert(lines.drop_first()[i - 1] == lines[i]);
        assert(a[0] == lines[0]);
        assert(b[0] == lines[0]);
        assert(parsed_entries_spec(a) =~= parsed_entries_spec(b) + (
        match parse_line_spec(lines[i]) {
            Ok(e) => seq![e],
            Err(_) => seq![],
        }));
        assert(skip_reasons_spec(a) =~= skip_reasons_spec(b) + (match parse_line_spec(lines[i]) {
            Ok(_) => seq![],
            Err(x) => seq![x],
        }));
    }
}

/// The deep view of a vector of entries is its view taken element-wise.
pub proof fn lemma_deep_view_entries(v: Vec<ProxyNodeEntry>)
    ensures
        v.deep_view().len() == v@.len(),
        forall|j: int| 0 <= j < v@.len() ==> v.deep_view()[j] == v@[j]@,
{
    assert forall|j: int| 0 <= j < v@.len() implies v.deep_view()[j] == v@[j]@ by {}
}

/// Parse every line, isolating failures: the entries of the lines that
/// decode, in order, and the skip reasons of the lines that do not, in order.
pub fn parse_all(lines: &Vec<Vec<u8>>) -> (r: (Vec<ProxyNodeEntry>, Vec<SkipReason>))
    ensures
        r.0.deep_view() == parsed_entries_spec(lines.deep_view()),
        r.1@ == skip_reasons_spec(lines.deep_view()),
{
    let ghost lv = lines.deep_view();
    proof {
        lemma_deep_view_bytes(*lines);
    }
    let mut entries: Vec<ProxyNodeEntry> = Vec::new();
    let mut skips: Vec<SkipReason> = Vec::new();
    let mut i: usize = 0;
    while i < lines.len()
        invariant
            0 <= i <= lines@.len(),
            lv == lines.deep_view(),
            lv.len() == lines@.len(),
            forall|j: int| 0 <= j < lines@.len() ==> lv[j] == lines@[j]@,
            entries.deep_view() == parsed_entries_spec(lv.take(i as int)),
            skips@ == skip_reasons_spec(lv.take(i as int)),
        decreases lines@.len() - i,
    {
        match ProxyNodeEntry::parse(&lines[i]) {
            Ok(e) => {
                entries.push(e);
            },
            Err(x) => {
                skips.push(x);
            },
        }
        proof {
            lemma_parsed_snoc(lv, i as int);
            lemma_deep_view_entries(entries);
            assert(entries.deep_view() =~= parsed_entries_spec(lv.take(i + 1 as int)));
            assert(skips@ =~= skip_reasons_spec(lv.take(i + 1 as int)));
        }
        i += 1;
    }
    proof {
        assert(lv.take(lines@.len() as int) =~= lv);
    }
    (entries, skips)
}

/// The rendering of one decoded entry, by protocol.
pub open spec fn render_entry_spec(e: ProxyNodeEntryV) -> Seq<u8> {
    match e.protocol {
        ProxyNodeProtocolV::Shadowsocks(ss) => render_spec(ss),
    }
}

/// Parse-then-render is deterministic: any two entries decoded from the same
/// line render to the same fragment, whose field order `render_spec` fixes.
pub proof fn lemma_parse_render_deterministic(
    line: Seq<u8>,
    e1: ProxyNodeEntryV,
    e2: ProxyNodeEntryV,
)
    requires
        parse_line_spec(line) == Ok::<ProxyNodeEntryV, SkipReason>(e1),
        parse_line_spec(line) == Ok::<ProxyNodeEntryV, SkipReason>(e2),
    ensures
        render_entry_spec(e1) == render_entry_spec(e2),
{
}

/// The fragment of the first entry the given lines decode to, if any line
/// decodes at all.
pub open spec fn first_fragment_spec(lines: Seq<Seq<u8>>) -> Option<Seq<u8>> {
    let es = parsed_entries_spec(lines);
    if es.len() == 0 {
        None
    } else {
        Some(render_entry_spec(es[0]))
    }
}

/// The whole pipeline on one subscription body: decode it into lines, parse
/// every line, and render the first decoded entry. A bad body is the one
/// fatal error; a body whose lines all fail to parse yields no fragment.
pub fn convert_subscription(body: &Vec<u8>) -> (r: Result<Option<Vec<u8>>, DecodeError>)
    ensures
        match r {
            Err(e) => subscription_lines(body@) == Err::<Seq<Seq<u8>>, DecodeError>(e),
            Ok(opt) => subscription_lines(body@) matches Ok(ls) && (match opt {
                None => first_fragment_spec(ls) is None,
                Some(cfg) => first_fragment_spec(ls) == Some(cfg@),
            }),
        },
{
    let lines = match decode_subscription(body) {
        Ok(l) => l,
        Err(e) => {
            return Err(e);
        },
    };
    let pr = parse_all(&lines);
    let entries = pr.0;
    proof {
        lemma_deep_view_entries(entries);
    }
    if entries.len() == 0 {
        return Ok(None);
    }
    let first = &entries[0];
    match &first.protocol {
        ProxyNodeProtocol::Shadowsocks(ss) => {
            let cfg = ss.gen_clash_config();
            proof {
                assert(entries.deep_view()[0] == entries@[0]@);
            }
            Ok(Some(cfg))
        },
    }
}

} // verus!
