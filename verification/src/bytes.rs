//! Byte-sequence utilities: searching, splitting and copying, with exact
//! specifications. Every structural rule of the pipeline (split a credential
//! on the first colon, split a plugin descriptor on semicolons, split a
//! subscription body into lines) is stated here over `Seq<u8>`.

use vstd::prelude::*;
use vstd::utf8::{
    valid_utf8, valid_first_scalar, valid_leading_and_continuation_bytes_first_codepoint,
    decode_first_codepoint, length_of_first_codepoint, pop_first_scalar, is_leading_byte_width_1,
};

verus! {

pub const NEWLINE: u8 = 10;

pub const CARRIAGE: u8 = 13;

pub const COLON: u8 = 58;

pub const SEMICOLON: u8 = 59;

pub const EQUALS: u8 = 61;

pub const PERCENT: u8 = 37;

/// Index of the first occurrence of `b` in `s`, if any.
pub open spec fn find_byte_spec(s: Seq<u8>, b: u8) -> Option<int>
    decreases s.len(),
{
    if s.len() == 0 {
        None
    } else if s[0] == b {
        Some(0int)
    } else {
        match find_byte_spec(s.skip(1), b) {
            Some(i) => Some(i + 1),
            None => None,
        }
    }
}

/// `find_byte_spec` returns the index of the first occurrence: the byte there
/// is `b` and no earlier byte is; `None` means `b` does not occur at all.
pub proof fn lemma_find_byte(s: Seq<u8>, b: u8)
    ensures
        match find_byte_spec(s, b) {
            Some(i) => 0 <= i < s.len() && s[i] == b && (forall|j: int| 0 <= j < i ==> s[j] != b),
            None => forall|j: int| 0 <= j < s.len() ==> s[j] != b,
        },
    decreases s.len(),
{
    if s.len() > 0 && s[0] != b {
        lemma_find_byte(s.skip(1), b);
        assert forall|j: int| 1 <= j < s.len() implies s.skip(1)[j - 1] == s[j] by {}
    }
}

/// Everything before the first occurrence of `b`, and everything after it.
pub open spec fn split_first_spec(s: Seq<u8>, b: u8) -> Option<(Seq<u8>, Seq<u8>)> {
    match find_byte_spec(s, b) {
        Some(i) => Some((s.take(i), s.skip(i + 1))),
        None => None,
    }
}

/// The pieces of `s` between occurrences of `b`, in order. A sequence with no
/// occurrence is one piece; each separator ends a piece, so `n` separators
/// give `n + 1` pieces (some possibly empty).
pub open spec fn split_all_spec(s: Seq<u8>, b: u8) -> Seq<Seq<u8>>
    decreases s.len(),
    via split_all_spec_decreases
{
    match find_byte_spec(s, b) {
        None => seq![s],
        Some(i) => seq![s.take(i)] + split_all_spec(s.skip(i + 1), b),
    }
}

#[via_fn]
proof fn split_all_spec_decreases(s: Seq<u8>, b: u8) {
    lemma_find_byte(s, b);
}

/// A piece with its trailing carriage return removed, if it has one.
pub open spec fn strip_carriage(s: Seq<u8>) -> Seq<u8> {
    if s.len() > 0 && s[s.len() - 1] == CARRIAGE {
        s.drop_last()
    } else {
        s
    }
}

/// The lines of `t`: split at each newline, dropping a carriage return that
/// sits directly before the newline. A trailing newline ends the last line
/// rather than opening an empty one, and the empty text has no lines.
pub open spec fn split_lines_spec(t: Seq<u8>) -> Seq<Seq<u8>>
    decreases t.len(),
    via split_lines_spec_decreases
{
    if t.len() == 0 {
        seq![]
    } else {
        match find_byte_spec(t, NEWLINE) {
            None => seq![t],
            Some(i) => seq![strip_carriage(t.take(i))] + split_lines_spec(t.skip(i + 1)),
        }
    }
}

#[via_fn]
proof fn split_lines_spec_decreases(t: Seq<u8>) {
    lemma_find_byte(t, NEWLINE);
}

/// A single byte below 128 is a valid UTF-8 text of its own.
pub proof fn lemma_valid_utf8_single_ascii(b: u8)
    requires
        b < 128,
    ensures
        valid_utf8(seq![b]),
{
    let s = seq![b];
    assert(b & 0x7f == b) by (bit_vector)
        requires
            b < 128,
    ;
    assert(is_leading_byte_width_1(s[0]));
    assert(valid_leading_and_continuation_bytes_first_codepoint(s));
    assert(decode_first_codepoint(s) == b as u32);
    assert(length_of_first_codepoint(s) == 1);
    assert(valid_first_scalar(s));
    assert(pop_first_scalar(s) =~= Seq::<u8>::empty());
    assert(valid_utf8(pop_first_scalar(s)));
    assert(valid_utf8(s));
}

/// The deep view of a vector of byte vectors is its view taken element-wise.
pub proof fn lemma_deep_view_bytes(r: Vec<Vec<u8>>)
    ensures
        r.deep_view().len() == r@.len(),
        forall|j: int| 0 <= j < r@.len() ==> r.deep_view()[j] == r@[j]@,
{
    assert forall|j: int| 0 <= j < r@.len() implies r.deep_view()[j] == r@[j]@ by {
        assert(r@[j].deep_view() =~= r@[j]@);
    }
}

/// Copy of `s[from..to]`.
pub fn copy_range(s: &Vec<u8>, from: usize, to: usize) -> (r: Vec<u8>)
    requires
        from <= to <= s@.len(),
    ensures
        r@ == s@.subrange(from as int, to as int),
{
    let mut r: Vec<u8> = Vec::new();
    let mut i: usize = from;
    while i < to
        invariant
            from <= i <= to <= s@.len(),
            r@ == s@.subrange(from as int, i as int),
        decreases to - i,
    {
        r.push(s[i]);
        proof {
            assert(r@ =~= s@.subrange(from as int, i + 1 as int));
        }
        i += 1;
    }
    r
}

/// Index of the first occurrence of `b` in `s`, if any.
pub fn find_byte(s: &Vec<u8>, b: u8) -> (r: Option<usize>)
    ensures
        match r {
            Some(i) => find_byte_spec(s@, b) == Some(i as int),
            None => find_byte_spec(s@, b) is None,
        },
{
    let mut i: usize = 0;
    while i < s.len()
        invariant
            0 <= i <= s@.len(),
            forall|j: int| 0 <= j < i ==> s@[j] != b,
        decreases s@.len() - i,
    {
        if s[i] == b {
            proof {
                lemma_find_byte(s@, b);
            }
            return Some(i);
        }
        i += 1;
    }
    proof {
        lemma_find_byte(s@, b);
    }
    None
}

/// Whether the two byte vectors hold the same bytes.
pub fn bytes_eq(a: &Vec<u8>, b: &Vec<u8>) -> (r: bool)
    ensures
        r == (a@ == b@),
{
    if a.len() != b.len() {
        return false;
    }
    let mut i: usize = 0;
    while i < a.len()
        invariant
            0 <= i <= a@.len(),
            a@.len() == b@.len(),
            forall|j: int| 0 <= j < i ==> a@[j] == b@[j],
        decreases a@.len() - i,
    {
        if a[i] != b[i] {
            return false;
        }
        i += 1;
    }
    proof {
        assert(a@ =~= b@);
    }
    true
}

/// Everything before the first occurrence of `b`, and everything after it.
pub fn split_first(s: &Vec<u8>, b: u8) -> (r: Option<(Vec<u8>, Vec<u8>)>)
    ensures
        match r {
            Some(p) => split_first_spec(s@, b) == Some((p.0@, p.1@)),
            None => split_first_spec(s@, b) is None,
        },
{
    match find_byte(s, b) {
        None => None,
        Some(i) => {
            proof {
                lemma_find_byte(s@, b);
            }
            let n = s.len();
            let before = copy_range(s, 0, i);
            let after = copy_range(s, i + 1, n);
            proof {
                assert(before@ =~= s@.take(i as int));
                assert(after@ =~= s@.skip(i + 1));
            }
            Some((before, after))
        },
    }
}

/// The pieces of `s` between occurrences of `b`, in order.
pub fn split_all(s: &Vec<u8>, b: u8) -> (r: Vec<Vec<u8>>)
    ensures
        r.deep_view() == split_all_spec(s@, b),
    decreases s@.len(),
{
    match find_byte(s, b) {
        None => {
            let mut r: Vec<Vec<u8>> = Vec::new();
            r.push(copy_range(s, 0, s.len()));
            proof {
                lemma_deep_view_bytes(r);
                assert(r@[0]@ =~= s@);
                assert(r.deep_view() =~= split_all_spec(s@, b));
            }
            r
        },
        Some(i) => {
            let n = s.len();
            proof {
                lemma_find_byte(s@, b);
            }
            let head = copy_range(s, 0, i);
            let tail = copy_range(s, i + 1, n);
            proof {
                assert(head@ =~= s@.take(i as int));
                assert(tail@ =~= s@.skip(i + 1));
            }
            let rest = split_all(&tail, b);
            let mut r: Vec<Vec<u8>> = Vec::new();
            r.push(head);
            let mut k: usize = 0;
            while k < rest.len()
                invariant
                    0 <= k <= rest@.len(),
                    r@.len() == 1 + k,
                    r@[0]@ == s@.take(i as int),
                    forall|j: int| 0 <= j < k ==> r@[j + 1]@ == rest@[j]@,
                decreases rest@.len() - k,
            {
                r.push(copy_range(&rest[k], 0, rest[k].len()));
                proof {
                    assert(r@[k as int + 1]@ =~= rest@[k as int]@);
                }
                k += 1;
            }
            proof {
                lemma_deep_view_bytes(r);
                lemma_deep_view_bytes(rest);
                assert(r.deep_view() =~= seq![s@.take(i as int)] + split_all_spec(s@.skip(i + 1), b));
            }
            r
        },
    }
}

/// The lines of `t`, per `split_lines_spec`.
pub fn split_lines(t: &Vec<u8>) -> (r: Vec<Vec<u8>>)
    ensures
        r.deep_view() == split_lines_spec(t@),
    decreases t@.len(),
{
    if t.len() == 0 {
        let r: Vec<Vec<u8>> = Vec::new();
        proof {
            lemma_deep_view_bytes(r);
            assert(r.deep_view() =~= split_lines_spec(t@));
        }
        return r;
    }
    match find_byte(t, NEWLINE) {
        None => {
            let mut r: Vec<Vec<u8>> = Vec::new();
            r.push(copy_range(t, 0, t.len()));
            proof {
                lemma_deep_view_bytes(r);
                assert(r@[0]@ =~= t@);
                assert(r.deep_view() =~= split_lines_spec(t@));
            }
            r
        },
        Some(i) => {
            proof {
                lemma_find_byte(t@, NEWLINE);
            }
            let head_end = if i > 0 && t[i - 1] == CARRIAGE {
                i - 1
            } else {
                i
            };
            let n = t.len();
            let head = copy_range(t, 0, head_end);
            let tail = copy_range(t, i + 1, n);
            proof {
                assert(t@.take(i as int).len() == i);
                if i > 0 && t@[i - 1] == CARRIAGE {
                    assert(t@.take(i as int)[i - 1] == t@[i - 1]);
                    assert(head@ =~= strip_carriage(t@.take(i as int)));
                } else {
                    if i > 0 {
                        assert(t@.take(i as int)[i - 1] == t@[i - 1]);
                    }
                    assert(head@ =~= strip_carriage(t@.take(i as int)));
                }
                assert(tail@ =~= t@.skip(i + 1));
            }
            let rest = split_lines(&tail);
            let mut r: Vec<Vec<u8>> = Vec::new();
            r.push(head);
            let mut k: usize = 0;
            while k < rest.len()
                invariant
                    0 <= k <= rest@.len(),
                    r@.len() == 1 + k,
                    r@[0]@ == strip_carriage(t@.take(i as int)),
                    forall|j: int| 0 <= j < k ==> r@[j + 1]@ == rest@[j]@,
                decreases rest@.len() - k,
            {
                r.push(copy_range(&rest[k], 0, rest[k].len()));
                proof {
                    assert(r@[k as int + 1]@ =~= rest@[k as int]@);
                }
                k += 1;
            }
            proof {
                lemma_deep_view_bytes(r);
                lemma_deep_view_bytes(rest);
                assert(r.deep_view() =~= seq![strip_carriage(t@.take(i as int))]
                    + split_lines_spec(t@.skip(i + 1)));
            }
            r
        },
    }
}

} // verus!
