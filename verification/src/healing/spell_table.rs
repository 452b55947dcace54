//! The spell table: lines of the form `Name: <name> (<descriptors>) (id=<id>)`.

use std::collections::HashMap;

use vstd::prelude::*;
use vstd::string::StringSliceAdditionalSpecFns;
use vstd::utf8::*;

use crate::text::{
    ascii_bytes, decimal, find_bytes, find_bytes_from, is_whitespace_char, lemma_decimal_is_ascii,
    lemma_first_occurrence_unique, lemma_occurrence_found, lemma_parse_decimal_roundtrip, occurs_at, occurs_at_exec, parse_i64,
    parse_i64_in, trim_end_whitespace, trim_start_whitespace, trim_str, trim_whitespace,
};

verus! {

broadcast use vstd::utf8::group_utf8_lib, vstd::std_specs::hash::group_hash_axioms;

/// The bytes `id=`.
pub open spec fn id_marker() -> Seq<u8> {
    seq![105u8, 100u8, 61u8]
}

/// The byte `)`.
pub open spec fn close_paren() -> Seq<u8> {
    seq![41u8]
}

/// The byte `:`.
pub open spec fn colon() -> Seq<u8> {
    seq![58u8]
}

/// The bytes ` (`.
pub open spec fn space_paren() -> Seq<u8> {
    seq![32u8, 40u8]
}

/// Where the first `id=` of a line stands and the number that follows it up to the
/// next `)`, if both are there and the number reads as an `i64`.
pub open spec fn spell_line_id(b: Seq<u8>) -> Option<(int, i64)> {
    match find_bytes(b, id_marker(), 0) {
        None => None,
        Some(id_start) => match find_bytes(b, close_paren(), id_start + 3) {
            None => None,
            Some(close) => match parse_i64(b.subrange(id_start + 3, close)) {
                None => None,
                Some(id) => Some((id_start, id)),
            },
        },
    }
}

/// The whitespace-trimmed text of a line between the byte offsets `name_start` and
/// `id_start`.
pub open spec fn spell_line_name_text(b: Seq<u8>, name_start: int, id_start: int) -> Seq<char> {
    trim_whitespace(decode_utf8(b.subrange(name_start, id_start)))
}

/// A spell's name: the trimmed text between `name_start` and `id_start`, cut before its
/// first ` (` where it has one, and trimmed again.
pub open spec fn spell_line_name(b: Seq<u8>, name_start: int, id_start: int) -> Seq<char> {
    let text = spell_line_name_text(b, name_start, id_start);
    let tb = encode_utf8(text);
    match find_bytes(tb, space_paren(), 0) {
        Some(p) => trim_whitespace(decode_utf8(tb.subrange(0, p))),
        None => trim_whitespace(text),
    }
}

/// The line can be cut where the parse cuts it: the name starts no later than `id=` and
/// on a character boundary.
pub open spec fn spell_line_sliceable(b: Seq<u8>) -> bool {
    match (spell_line_id(b), find_bytes(b, colon(), 0)) {
        (Some((id_start, _)), Some(c)) => {
            &&& c + 2 <= id_start
            &&& is_char_boundary(b, c + 2)
        },
        _ => true,
    }
}

/// The spell id and the name that a line of the spell table gives, as
/// `Name: <name> (<descriptors>) (id=<id>)` is read: the name is the text two bytes after
/// the first `:` and before `id=`, without the descriptors in parentheses, trimmed.
pub open spec fn spell_line_parse(b: Seq<u8>) -> Option<(i64, Seq<char>)> {
    match (spell_line_id(b), find_bytes(b, colon(), 0)) {
        (Some((id_start, id)), Some(c)) => Some((id, spell_line_name(b, c + 2, id_start))),
        _ => None,
    }
}

/// A boundary of a string is a boundary of each of its prefixes that holds it.
proof fn lemma_boundary_in_prefix(b: Seq<u8>, hi: int, lo: int)
    requires
        valid_utf8(b),
        0 <= lo <= hi <= b.len(),
        is_char_boundary(b, hi),
        is_char_boundary(b, lo),
    ensures
        is_char_boundary(b.subrange(0, hi), lo),
        valid_utf8(b.subrange(0, hi)),
{
    let p = b.subrange(0, hi);
    valid_utf8_split(b, hi);
    if lo == hi {
        is_char_boundary_start_end_of_seq(p);
        assert(p.len() == hi);
    } else {
        is_char_boundary_iff_not_is_continuation_byte(b, lo);
        is_char_boundary_iff_not_is_continuation_byte(p, lo);
        assert(p[lo] == b[lo]);
    }
}

/// The position after an ASCII byte that starts a character starts the next one.
proof fn lemma_boundary_after_ascii(b: Seq<u8>, i: int)
    requires
        valid_utf8(b),
        0 <= i < b.len(),
        is_char_boundary(b, i),
        b[i] < 0x80,
    ensures
        is_char_boundary(b, i + 1),
    decreases b.len(),
{
    if i == 0 {
        assert(length_of_first_scalar(b) == 1);
        assert(is_char_boundary(pop_first_scalar(b), 0));
    } else {
        let l = length_of_first_scalar(b);
        let p = pop_first_scalar(b);
        assert(is_char_boundary(p, i - l));
        assert(p.len() == b.len() - l);
        assert(p[i - l] == b[i]);
        lemma_boundary_after_ascii(p, i - l);
    }
}

/// The part of `s` between the byte offsets `lo` and `hi`.
fn substring(s: &str, lo: usize, hi: usize) -> (r: &str)
    requires
        lo <= hi <= s.spec_bytes().len(),
        is_char_boundary(s.spec_bytes(), lo as int),
        is_char_boundary(s.spec_bytes(), hi as int),
    ensures
        r.spec_bytes() == s.spec_bytes().subrange(lo as int, hi as int),
        r@ == decode_utf8(s.spec_bytes().subrange(lo as int, hi as int)),
{
    let ghost b = s.spec_bytes();
    proof {
        lemma_boundary_in_prefix(b, hi as int, lo as int);
    }
    let (head, _) = s.split_at(hi);
    let (_, mid) = head.split_at(lo);
    assert(mid.spec_bytes() =~= b.subrange(lo as int, hi as int));
    mid
}

/// A byte that is not a continuation byte starts a character.
proof fn lemma_ascii_at_boundary(b: Seq<u8>, i: int)
    requires
        valid_utf8(b),
        0 <= i < b.len(),
        b[i] < 0x80,
    ensures
        is_char_boundary(b, i),
{
    is_char_boundary_iff_not_is_continuation_byte(b, i);
}

/// Finds the fields of a spell line before any cut: where `id=` stands, the id, and where
/// the first `:` stands.
fn spell_line_fields(line: &str) -> (r: Option<(usize, i64, usize)>)
    ensures
        match r {
            Some((id_start, id, c)) => {
                &&& spell_line_id(line.spec_bytes()) == Some((id_start as int, id))
                &&& find_bytes(line.spec_bytes(), colon(), 0) == Some(c as int)
                &&& id_start + 3 <= line.spec_bytes().len()
                &&& is_char_boundary(line.spec_bytes(), id_start as int)
            },
            None => spell_line_id(line.spec_bytes()) is None || find_bytes(line.spec_bytes(), colon(), 0) is None,
        },
{
    let ghost sb = line.spec_bytes();
    let b = line.as_bytes();
    let n = b.len();
    let id_pat: [u8; 3] = [105, 100, 61];
    let close_pat: [u8; 1] = [41];
    let colon_pat: [u8; 1] = [58];
    assert(id_pat@ =~= id_marker());
    assert(close_pat@ =~= close_paren());
    assert(colon_pat@ =~= colon());
    let id_start = match find_bytes_from(b, id_pat.as_slice(), 0) {
        Some(i) => i,
        None => {
            return None;
        },
    };
    assert(crate::text::occurs_at(sb, id_marker(), id_start as int)) by {
        assert(crate::text::is_first_occurrence(sb, id_marker(), 0, id_start as int));
    }
    assert(id_start + 3 <= n);
    let close = match find_bytes_from(b, close_pat.as_slice(), id_start + 3) {
        Some(i) => i,
        None => {
            return None;
        },
    };
    assert(crate::text::occurs_at(sb, close_paren(), close as int)) by {
        assert(crate::text::is_first_occurrence(sb, close_paren(), id_start + 3, close as int));
    }
    let id = match parse_i64_in(b, id_start + 3, close) {
        Some(v) => v,
        None => {
            return None;
        },
    };
    let c = match find_bytes_from(b, colon_pat.as_slice(), 0) {
        Some(i) => i,
        None => {
            return None;
        },
    };
    proof {
        assert(sb.subrange(id_start as int, id_start + 3)[0] == sb[id_start as int]);
        lemma_ascii_at_boundary(sb, id_start as int);
    }
    Some((id_start, id, c))
}

/// The name between `name_start` and `id_start` (`spell_line_name`).
fn spell_line_name_exec(line: &str, name_start: usize, id_start: usize) -> (r: String)
    requires
        name_start <= id_start <= line.spec_bytes().len(),
        is_char_boundary(line.spec_bytes(), name_start as int),
        is_char_boundary(line.spec_bytes(), id_start as int),
    ensures
        r@ == spell_line_name(line.spec_bytes(), name_start as int, id_start as int),
{
    let paren_pat: [u8; 2] = [32, 40];
    assert(paren_pat@ =~= space_paren());
    let before_id = substring(line, name_start, id_start);
    let trimmed = trim_str(before_id);
    let ghost tb = trimmed.spec_bytes();
    let cut = match find_bytes_from(trimmed.as_bytes(), paren_pat.as_slice(), 0) {
        Some(p) => {
            assert(crate::text::is_first_occurrence(tb, space_paren(), 0, p as int));
            assert(tb.subrange(p as int, p + 2)[0] == tb[p as int]);
            proof {
                lemma_ascii_at_boundary(tb, p as int);
                is_char_boundary_start_end_of_seq(tb);
            }
            substring(trimmed, 0, p)
        },
        None => trimmed,
    };
    trim_str(cut).to_owned()
}

/// Whether the line can be cut where the parse cuts it (`spell_line_sliceable`).
pub fn spell_line_is_sliceable(line: &str) -> (r: bool)
    ensures
        r == spell_line_sliceable(line.spec_bytes()),
{
    let (id_start, _id, c) = match spell_line_fields(line) {
        Some(f) => f,
        None => {
            return true;
        },
    };
    if c > id_start || id_start - c < 2 {
        return false;
    }
    let name_start = c + 2;
    line.is_char_boundary(name_start)
}

/// Reads one line of the spell table: the id after `id=` and the name after `: `, without
/// the descriptors that follow it in parentheses.
pub fn parse_spell_line(line: &str) -> (r: Option<(i64, String)>)
    requires
        spell_line_sliceable(line.spec_bytes()),
    ensures
        match r {
            None => spell_line_parse(line.spec_bytes()) is None,
            Some((id, name)) => spell_line_parse(line.spec_bytes()) == Some((id, name@)),
        },
{
    let (id_start, id, c) = match spell_line_fields(line) {
        Some(f) => f,
        None => {
            return None;
        },
    };
    let name = spell_line_name_exec(line, c + 2, id_start);
    Some((id, name))
}

/// A spell line as the spell table writes it: `Name: <name> (id=<id>)`.
pub open spec fn canonical_spell_line(name: Seq<char>, id: i64) -> Seq<char> {
    "Name: "@ + name + " (id="@ + decimal(id as int) + ")"@
}

proof fn lemma_encode_concat(a: Seq<char>, b: Seq<char>)
    ensures
        encode_utf8(a + b) == encode_utf8(a) + encode_utf8(b),
    decreases a.len(),
{
    if a.len() == 0 {
        assert(a + b =~= b);
        assert(encode_utf8(a) + encode_utf8(b) =~= encode_utf8(b));
    } else {
        lemma_encode_concat(a.drop_first(), b);
        assert((a + b).drop_first() =~= a.drop_first() + b);
        assert((a + b)[0] == a[0]);
        assert(encode_utf8(a + b) =~= encode_utf8(a) + encode_utf8(b));
    }
}

proof fn lemma_boundary_at_join(a: Seq<char>, b: Seq<char>)
    ensures
        is_char_boundary(encode_utf8(a + b), encode_utf8(a).len() as int),
{
    lemma_encode_concat(a, b);
    let bytes = encode_utf8(a + b);
    if b.len() == 0 {
        assert(encode_utf8(b) =~= Seq::<u8>::empty());
        assert(bytes.len() == encode_utf8(a).len());
        is_char_boundary_start_end_of_seq(bytes);
    } else {
        encode_utf8_first_scalar(b);
        assert(bytes[encode_utf8(a).len() as int] == encode_utf8(b)[0]);
        is_char_boundary_iff_not_is_continuation_byte(bytes, encode_utf8(a).len() as int);
    }
}

proof fn lemma_ascii_encoding(s: Seq<char>)
    requires
        is_ascii_chars(s),
    ensures
        encode_utf8(s) == ascii_bytes(s),
{
    is_ascii_chars_encode_utf8(s);
    assert(encode_utf8(s) =~= ascii_bytes(s));
}

/// The bytes of a canonical spell line around the bytes of its name and of its id.
pub open spec fn spell_line_layout(e_name: Seq<u8>, e_dec: Seq<u8>) -> Seq<u8> {
    seq![78u8, 97u8, 109u8, 101u8, 58u8, 32u8] + e_name + seq![32u8, 40u8, 105u8, 100u8, 61u8] + e_dec + seq![41u8]
}

proof fn lemma_canonical_line_bytes(name: Seq<char>, id: i64)
    ensures
        encode_utf8(canonical_spell_line(name, id)) == spell_line_layout(
            encode_utf8(name),
            ascii_bytes(decimal(id as int)),
        ),
        is_char_boundary(encode_utf8(canonical_spell_line(name, id)), 6),
        is_char_boundary(encode_utf8(canonical_spell_line(name, id)), 6 + encode_utf8(name).len() as int),
{
    reveal_strlit("Name: ");
    reveal_strlit(" (id=");
    reveal_strlit(")");
    let pre = "Name: "@;
    let mid = " (id="@;
    let post = ")"@;
    let dec = decimal(id as int);
    lemma_decimal_is_ascii(id as int);
    lemma_ascii_encoding(pre);
    lemma_ascii_encoding(mid);
    lemma_ascii_encoding(post);
    lemma_ascii_encoding(dec);
    assert(encode_utf8(pre) =~= seq![78u8, 97u8, 109u8, 101u8, 58u8, 32u8]);
    assert(encode_utf8(mid) =~= seq![32u8, 40u8, 105u8, 100u8, 61u8]);
    assert(encode_utf8(post) =~= seq![41u8]);
    lemma_encode_concat(pre, name);
    lemma_encode_concat(pre + name, mid);
    lemma_encode_concat(pre + name + mid, dec);
    lemma_encode_concat(pre + name + mid + dec, post);
    let line = canonical_spell_line(name, id);
    assert(encode_utf8(line) =~= spell_line_layout(encode_utf8(name), ascii_bytes(dec)));
    assert(line =~= pre + (name + mid + dec + post));
    lemma_boundary_at_join(pre, name + mid + dec + post);
    assert(line =~= (pre + name) + (mid + dec + post));
    lemma_boundary_at_join(pre + name, mid + dec + post);
}

proof fn lemma_layout_id(e_name: Seq<u8>, id: i64)
    requires
        forall|j: int| !#[trigger] occurs_at(e_name, id_marker(), j),
    ensures
        spell_line_id(spell_line_layout(e_name, ascii_bytes(decimal(id as int)))) == Some((6 + e_name.len() as int + 2, id)),
{
    let e_dec = ascii_bytes(decimal(id as int));
    lemma_decimal_is_ascii(id as int);
    let b = spell_line_layout(e_name, e_dec);
    let l = e_name.len() as int;
    let d = e_dec.len() as int;
    let p = 6 + l + 2;
    let close = p + 3 + d;
    assert(b.subrange(p, p + 3) =~= id_marker());
    assert forall|j: int| 0 <= j < p implies !#[trigger] occurs_at(b, id_marker(), j) by {
        if occurs_at(b, id_marker(), j) {
            assert(b[j] == b.subrange(j, j + 3)[0]);
            assert(b[j + 1] == b.subrange(j, j + 3)[1]);
            assert(b[j + 2] == b.subrange(j, j + 3)[2]);
            if 6 <= j && j + 3 <= 6 + l {
                assert(e_name.subrange(j - 6, j - 3) =~= b.subrange(j, j + 3));
                assert(occurs_at(e_name, id_marker(), j - 6));
            }
        }
    }
    lemma_first_occurrence_unique(b, id_marker(), 0, p);
    assert(b.subrange(close, close + 1) =~= close_paren());
    assert forall|j: int| p + 3 <= j < close implies !#[trigger] occurs_at(b, close_paren(), j) by {
        if occurs_at(b, close_paren(), j) {
            assert(b[j] == b.subrange(j, j + 1)[0]);
            assert(b[j] == e_dec[j - p - 3]);
            let c = decimal(id as int)[j - p - 3];
            assert(e_dec[j - p - 3] == c as u8);
            assert(c == '-' || '0' <= c <= '9');
        }
    }
    lemma_first_occurrence_unique(b, close_paren(), p + 3, close);
    assert(b.subrange(p + 3, close) =~= e_dec);
    lemma_parse_decimal_roundtrip(id);
}

proof fn lemma_layout_colon(e_name: Seq<u8>, e_dec: Seq<u8>)
    ensures
        find_bytes(spell_line_layout(e_name, e_dec), colon(), 0) == Some(4int),
{
    let b = spell_line_layout(e_name, e_dec);
    assert(b.subrange(4, 5) =~= colon());
    assert forall|j: int| 0 <= j < 4 implies !#[trigger] occurs_at(b, colon(), j) by {
        if occurs_at(b, colon(), j) {
            assert(b[j] == b.subrange(j, j + 1)[0]);
        }
    }
    lemma_first_occurrence_unique(b, colon(), 0, 4);
}

proof fn lemma_layout_name(name: Seq<char>, e_dec: Seq<u8>)
    requires
        name.len() > 0,
        !is_whitespace_char(name[0]),
        !is_whitespace_char(name.last()),
        forall|j: int| !#[trigger] occurs_at(encode_utf8(name), space_paren(), j),
    ensures
        spell_line_name(spell_line_layout(encode_utf8(name), e_dec), 6, 6 + encode_utf8(name).len() as int + 2)
            == name,
{
    let e_name = encode_utf8(name);
    let b = spell_line_layout(e_name, e_dec);
    let l = e_name.len() as int;
    let p = 6 + l + 2;
    let paren = seq![' ', '('];
    assert(is_ascii_chars(paren));
    lemma_ascii_encoding(paren);
    assert(encode_utf8(paren) =~= space_paren());
    lemma_encode_concat(name, paren);
    let before = name + paren;
    assert(b.subrange(6, p) =~= encode_utf8(before));
    assert(decode_utf8(encode_utf8(before)) == before);
    assert(before[0] == name[0]);
    assert(trim_start_whitespace(before) == before);
    assert(before.last() == '(');
    assert(trim_end_whitespace(before) == before);
    let t = encode_utf8(before);
    assert(t =~= e_name + space_paren());
    assert(t.subrange(l, l + 2) =~= space_paren());
    assert forall|j: int| 0 <= j < l implies !#[trigger] occurs_at(t, space_paren(), j) by {
        if occurs_at(t, space_paren(), j) {
            assert(t[j] == t.subrange(j, j + 2)[0]);
            assert(t[j + 1] == t.subrange(j, j + 2)[1]);
            if j + 2 <= l {
                assert(e_name.subrange(j, j + 2) =~= t.subrange(j, j + 2));
                assert(occurs_at(e_name, space_paren(), j));
            }
        }
    }
    lemma_first_occurrence_unique(t, space_paren(), 0, l);
    assert(t.subrange(0, l) =~= e_name);
    assert(trim_start_whitespace(name) == name);
    assert(trim_end_whitespace(name) == name);
}

/// A spell line written as `Name: <name> (id=<id>)` reads back as that id and that name,
/// when the name is not empty, neither starts nor ends with whitespace, and holds neither
/// `id=` nor ` (`; and it can be cut where the parse cuts it.
pub proof fn lemma_spell_line_roundtrip(name: Seq<char>, id: i64)
    requires
        name.len() > 0,
        !is_whitespace_char(name[0]),
        !is_whitespace_char(name.last()),
        forall|j: int| !#[trigger] occurs_at(encode_utf8(name), id_marker(), j),
        forall|j: int| !#[trigger] occurs_at(encode_utf8(name), space_paren(), j),
    ensures
        spell_line_sliceable(encode_utf8(canonical_spell_line(name, id))),
        spell_line_parse(encode_utf8(canonical_spell_line(name, id))) == Some((id, name)),
{
    let e_name = encode_utf8(name);
    let e_dec = ascii_bytes(decimal(id as int));
    let l = e_name.len() as int;
    lemma_canonical_line_bytes(name, id);
    lemma_layout_id(e_name, id);
    lemma_layout_colon(e_name, e_dec);
    lemma_layout_name(name, e_dec);
}

/// The id of a line is read from its first `id=` up to the first `)` after it, whatever
/// follows that `)`: where the text before `id=` holds none, and a decimal number and a `)`
/// follow it, the line gives that number; and where the line also holds a `:`, it parses.
pub proof fn lemma_spell_line_id_up_to_paren(pre: Seq<u8>, id: i64, suf: Seq<u8>)
    requires
        forall|j: int| !#[trigger] occurs_at(pre, id_marker(), j),
    ensures
        ({
            let b = pre + seq![105u8, 100u8, 61u8] + ascii_bytes(decimal(id as int)) + seq![41u8] + suf;
            &&& spell_line_id(b) == Some((pre.len() as int, id))
            &&& (exists|j: int| occurs_at(b, seq![58u8], j)) ==> (spell_line_parse(b) matches Some((x, _)) && x == id)
        }),
{
    let e_dec = ascii_bytes(decimal(id as int));
    lemma_decimal_is_ascii(id as int);
    let b = pre + seq![105u8, 100u8, 61u8] + e_dec + seq![41u8] + suf;
    let l = pre.len() as int;
    let d = e_dec.len() as int;
    let close = l + 3 + d;
    assert(b.subrange(l, l + 3) =~= id_marker());
    assert forall|j: int| 0 <= j < l implies !#[trigger] occurs_at(b, id_marker(), j) by {
        if occurs_at(b, id_marker(), j) {
            assert(b[j] == b.subrange(j, j + 3)[0]);
            assert(b[j + 1] == b.subrange(j, j + 3)[1]);
            assert(b[j + 2] == b.subrange(j, j + 3)[2]);
            if j + 3 <= l {
                assert(pre.subrange(j, j + 3) =~= b.subrange(j, j + 3));
                assert(occurs_at(pre, id_marker(), j));
            } else if j + 2 == l {
                assert(b[j + 2] == 105u8);
            } else {
                assert(b[j + 1] == 105u8);
            }
        }
    }
    lemma_first_occurrence_unique(b, id_marker(), 0, l);
    assert(b[close] == 41u8);
    assert(b.subrange(close, close + 1) =~= close_paren());
    assert forall|j: int| l + 3 <= j < close implies !#[trigger] occurs_at(b, close_paren(), j) by {
        if occurs_at(b, close_paren(), j) {
            assert(b[j] == b.subrange(j, j + 1)[0]);
            assert(b[j] == e_dec[j - l - 3]);
            let c = decimal(id as int)[j - l - 3];
            assert(e_dec[j - l - 3] == c as u8);
            assert(c == '-' || '0' <= c <= '9');
        }
    }
    lemma_first_occurrence_unique(b, close_paren(), l + 3, close);
    assert(b.subrange(l + 3, close) =~= e_dec);
    lemma_parse_decimal_roundtrip(id);
    if exists|j: int| occurs_at(b, seq![58u8], j) {
        let j = choose|j: int| occurs_at(b, seq![58u8], j);
        assert(colon() =~= seq![58u8]);
        lemma_occurrence_found(b, colon(), 0, j);
    }
}

/// The byte `\n`.
pub open spec fn newline() -> Seq<u8> {
    seq![10u8]
}

/// The bytes `Name`.
pub open spec fn name_marker() -> Seq<u8> {
    seq![78u8, 97u8, 109u8, 101u8]
}

/// The byte ranges of the lines of `b` from `from` on, as `str::lines` cuts them: at each
/// `\n`, without it and without a `\r` just before it; no line after a final `\n`.
pub open spec fn line_ranges(b: Seq<u8>, from: int) -> Seq<(int, int)>
    decreases b.len() - from,
{
    if from < 0 || from >= b.len() {
        seq![]
    } else {
        match find_bytes(b, newline(), from) {
            Some(nl) => {
                if from <= nl < b.len() {
                    let end = if nl > from && b[nl - 1] == 13 { nl - 1 } else { nl };
                    seq![(from, end)] + line_ranges(b, nl + 1)
                } else {
                    seq![]
                }
            },
            None => seq![(from, b.len() as int)],
        }
    }
}

/// A line of the spell table that names a spell.
pub open spec fn is_name_line(line: Seq<u8>) -> bool {
    occurs_at(line, name_marker(), 0)
}

/// The spells that the lines `ranges` of `b` name, a later line winning over an earlier one
/// with the same id.
pub open spec fn spell_map_of_lines(b: Seq<u8>, ranges: Seq<(int, int)>) -> Map<i64, Seq<char>>
    decreases ranges.len(),
{
    if ranges.len() == 0 {
        Map::empty()
    } else {
        let m = spell_map_of_lines(b, ranges.drop_last());
        let line = b.subrange(ranges.last().0, ranges.last().1);
        if is_name_line(line) {
            match spell_line_parse(line) {
                Some((id, name)) => m.insert(id, name),
                None => m,
            }
        } else {
            m
        }
    }
}

/// The spells that a spell table names.
pub open spec fn spell_map_of(b: Seq<u8>) -> Map<i64, Seq<char>> {
    spell_map_of_lines(b, line_ranges(b, 0))
}

/// Every line of the table that names a spell can be cut where the parse cuts it.
pub open spec fn spell_table_sliceable(b: Seq<u8>) -> bool {
    forall|i: int| 0 <= i < line_ranges(b, 0).len() ==> name_line_sliceable(b, #[trigger] line_ranges(b, 0)[i])
}

/// The line `range` of `b`, if it names a spell, can be cut where the parse cuts it.
pub open spec fn name_line_sliceable(b: Seq<u8>, range: (int, int)) -> bool {
    let line = b.subrange(range.0, range.1);
    is_name_line(line) ==> spell_line_sliceable(line)
}

/// The end of the line that starts at `pos` and where the next line starts.
fn next_line(content: &str, pos: usize) -> (r: (usize, usize))
    requires
        pos < content.spec_bytes().len(),
        is_char_boundary(content.spec_bytes(), pos as int),
    ensures
        pos <= r.0 <= r.1 <= content.spec_bytes().len(),
        pos < r.1,
        is_char_boundary(content.spec_bytes(), r.0 as int),
        is_char_boundary(content.spec_bytes(), r.1 as int),
        line_ranges(content.spec_bytes(), pos as int) == seq![(pos as int, r.0 as int)] + line_ranges(
            content.spec_bytes(),
            r.1 as int,
        ),
{
    let ghost sb = content.spec_bytes();
    let b = content.as_bytes();
    let n = b.len();
    let nl_pat: [u8; 1] = [10];
    assert(nl_pat@ =~= newline());
    let (end, next) = match find_bytes_from(b, nl_pat.as_slice(), pos) {
        Some(nl) => {
            assert(crate::text::is_first_occurrence(sb, newline(), pos as int, nl as int));
            assert(sb.subrange(nl as int, nl + 1)[0] == sb[nl as int]);
            proof {
                is_char_boundary_iff_not_is_continuation_byte(sb, nl as int);
                lemma_boundary_after_ascii(sb, nl as int);
            }
            let end = if nl > pos && b[nl - 1] == 13 { nl - 1 } else { nl };
            (end, nl + 1)
        },
        None => (n, n),
    };
    assert(line_ranges(sb, pos as int) == seq![(pos as int, end as int)] + line_ranges(sb, next as int));
    proof {
        is_char_boundary_start_end_of_seq(sb);
        if end < n {
            is_char_boundary_iff_not_is_continuation_byte(sb, end as int);
        }
    }
    (end, next)
}

/// A table of one line (no `\n`) that starts with `Name` maps just the id that the line
/// gives to the name it gives; any other single line gives an empty table.
pub proof fn lemma_single_line_table(b: Seq<u8>)
    requires
        b.len() > 0,
        forall|j: int| !#[trigger] occurs_at(b, newline(), j),
    ensures
        spell_map_of(b) == (match spell_line_parse(b) {
            Some((id, name)) => if is_name_line(b) {
                Map::<i64, Seq<char>>::empty().insert(id, name)
            } else {
                Map::<i64, Seq<char>>::empty()
            },
            None => Map::<i64, Seq<char>>::empty(),
        }),
{
    assert(find_bytes(b, newline(), 0) is None);
    let ranges = line_ranges(b, 0);
    assert(ranges == seq![(0int, b.len() as int)]);
    assert(ranges.drop_last() =~= Seq::<(int, int)>::empty());
    assert(b.subrange(0, b.len() as int) =~= b);
    assert(spell_map_of_lines(b, ranges.drop_last()) == Map::<i64, Seq<char>>::empty());
}

/// A later line wins: in a table whose last line names a spell and parses, that line's id
/// maps to that line's name, whatever the lines before it say of the same id.
pub proof fn lemma_later_line_wins(b1: Seq<u8>, b2: Seq<u8>)
    requires
        forall|j: int| !#[trigger] occurs_at(b1, newline(), j),
        forall|j: int| !#[trigger] occurs_at(b2, newline(), j),
        b2.len() > 0,
        is_name_line(b2),
        spell_line_parse(b2) is Some,
    ensures
        ({
            let b = b1 + seq![10u8] + b2;
            match spell_line_parse(b2) {
                Some((id, name)) => spell_map_of(b).contains_key(id) && spell_map_of(b)[id] == name,
                None => true,
            }
        }),
{
    let b = b1 + seq![10u8] + b2;
    let l1 = b1.len() as int;
    assert(b.subrange(l1, l1 + 1) =~= newline());
    assert forall|j: int| 0 <= j < l1 implies !#[trigger] occurs_at(b, newline(), j) by {
        if occurs_at(b, newline(), j) {
            assert(b[j] == b.subrange(j, j + 1)[0]);
            assert(b1.subrange(j, j + 1) =~= b.subrange(j, j + 1));
            assert(occurs_at(b1, newline(), j));
        }
    }
    lemma_first_occurrence_unique(b, newline(), 0, l1);
    assert forall|j: int| l1 + 1 <= j implies !#[trigger] occurs_at(b, newline(), j) by {
        if occurs_at(b, newline(), j) {
            assert(b2.subrange(j - l1 - 1, j - l1) =~= b.subrange(j, j + 1));
            assert(occurs_at(b2, newline(), j - l1 - 1));
        }
    }
    assert(find_bytes(b, newline(), l1 + 1) is None);
    let rest = line_ranges(b, l1 + 1);
    assert(rest == seq![(l1 + 1, b.len() as int)]);
    let end = if l1 > 0 && b[l1 - 1] == 13 { l1 - 1 } else { l1 };
    let ranges = line_ranges(b, 0);
    assert(ranges == seq![(0int, end)] + rest);
    assert(ranges.len() == 2);
    assert(ranges.last() == (l1 + 1, b.len() as int));
    assert(b.subrange(l1 + 1, b.len() as int) =~= b2);
}

/// Whether every line of the table that names a spell can be cut where the parse cuts it
/// (`spell_table_sliceable`).
pub fn spell_table_is_sliceable(content: &str) -> (r: bool)
    ensures
        r == spell_table_sliceable(content.spec_bytes()),
{
    let ghost sb = content.spec_bytes();
    let n = content.as_bytes().len();
    let name_pat: [u8; 4] = [78, 97, 109, 101];
    assert(name_pat@ =~= name_marker());
    let ghost mut done: Seq<(int, int)> = seq![];
    let mut pos: usize = 0;
    proof {
        is_char_boundary_start_end_of_seq(sb);
    }
    while pos < n
        invariant
            n == sb.len(),
            sb == content.spec_bytes(),
            valid_utf8(sb),
            name_pat@ == name_marker(),
            0 <= pos <= n,
            is_char_boundary(sb, pos as int),
            line_ranges(sb, 0) == done + line_ranges(sb, pos as int),
            forall|i: int| 0 <= i < done.len() ==> name_line_sliceable(sb, #[trigger] done[i]),
        decreases n - pos,
    {
        let (end, next) = next_line(content, pos);
        let ghost range = (pos as int, end as int);
        let line = substring(content, pos, end);
        assert(line.spec_bytes() == sb.subrange(pos as int, end as int));
        assert(line_ranges(sb, 0)[done.len() as int] == range);
        let lbytes = line.as_bytes();
        if lbytes.len() >= 4 && occurs_at_exec(lbytes, name_pat.as_slice(), 0) {
            if !spell_line_is_sliceable(line) {
                assert(!name_line_sliceable(sb, line_ranges(sb, 0)[done.len() as int]));
                return false;
            }
        }
        proof {
            let done2 = done.push(range);
            assert(done2.drop_last() =~= done);
            assert(line_ranges(sb, 0) =~= done2 + line_ranges(sb, next as int));
            assert forall|i: int| 0 <= i < done2.len() implies name_line_sliceable(sb, #[trigger] done2[i]) by {
                if i < done.len() {
                    assert(done2[i] == done[i]);
                }
            }
            done = done2;
        }
        pos = next;
    }
    assert(line_ranges(sb, pos as int) =~= seq![]);
    assert(line_ranges(sb, 0) =~= done);
    true
}

/// Reads the spells of a spell table: each line that starts with `Name` and parses gives
/// its id and name; a later line wins over an earlier one with the same id.
pub fn parse_spell_map(content: &str) -> (r: HashMap<i64, String>)
    requires
        spell_table_sliceable(content.spec_bytes()),
    ensures
        r@.dom() == spell_map_of(content.spec_bytes()).dom(),
        forall|k: i64| #[trigger] r@.contains_key(k) ==> r@[k]@ == spell_map_of(content.spec_bytes())[k],
{
    let ghost sb = content.spec_bytes();
    let b = content.as_bytes();
    let n = b.len();
    let name_pat: [u8; 4] = [78, 97, 109, 101];
    assert(name_pat@ =~= name_marker());
    let mut map: HashMap<i64, String> = HashMap::new();
    let ghost mut done: Seq<(int, int)> = seq![];
    let mut pos: usize = 0;
    proof {
        is_char_boundary_start_end_of_seq(sb);
    }
    while pos < n
        invariant
            n == sb.len(),
            b@ == sb,
            sb == content.spec_bytes(),
            valid_utf8(sb),
            name_pat@ == name_marker(),
            0 <= pos <= n,
            is_char_boundary(sb, pos as int),
            line_ranges(sb, 0) == done + line_ranges(sb, pos as int),
            spell_table_sliceable(sb),
            map@.dom() == spell_map_of_lines(sb, done).dom(),
            forall|k: i64| #[trigger] map@.contains_key(k) ==> map@[k]@ == spell_map_of_lines(sb, done)[k],
        decreases n - pos,
    {
        let (end, next) = next_line(content, pos);
        let ghost range = (pos as int, end as int);
        let line = substring(content, pos, end);
        let ghost lb = sb.subrange(pos as int, end as int);
        assert(line.spec_bytes() == lb);
        proof {
            assert(line_ranges(sb, 0)[done.len() as int] == range);
        }
        let lbytes = line.as_bytes();
        if lbytes.len() >= 4 && occurs_at_exec(lbytes, name_pat.as_slice(), 0) {
            match parse_spell_line(line) {
                Some((id, name)) => {
                    map.insert(id, name);
                },
                None => {},
            }
        }
        proof {
            let done2 = done.push(range);
            assert(done2.drop_last() =~= done);
            assert(line_ranges(sb, 0) =~= done2 + line_ranges(sb, next as int));
            done = done2;
        }
        pos = next;
    }
    assert(line_ranges(sb, pos as int) =~= seq![]);
    assert(line_ranges(sb, 0) =~= done);
    map
}

} // verus!
