//! The properties the library states of its output specification: the
//! escaping of string contents is faithful, integer and numeric literals
//! hold no whitespace, separators stand exactly between elements, and the
//! two output styles differ in whitespace alone.

use vstd::prelude::*;
use crate::format::{dec_rep, elem_open_bytes, end_struct_bytes, escape_byte, escape_bytes,
    fmt_i64, fmt_u64, is_ws_byte, key_close_bytes, key_open_bytes, nl_indent,
    num_token_wf, spaces, str_lit, value_open_bytes, BACKSLASH, NEWLINE, QUOTE, RBRACE};
use crate::value::{byte_items, render, render_entries, render_fields, render_items, render_key,
    variant_open, Value};

verus! {

/// Reads an escaped string body back into the bytes it stands for. A
/// backslash is followed either by a short escape code or by three decimal
/// digits; every other byte stands for itself.
pub open spec fn unescape_bytes(t: Seq<u8>) -> Seq<u8>
    decreases t.len(),
{
    if t.len() == 0 {
        Seq::empty()
    } else if t[0] == BACKSLASH {
        if t.len() == 1 {
            seq![BACKSLASH]
        } else if t[1] == 110 {
            seq![NEWLINE] + unescape_bytes(t.skip(2))
        } else if t[1] == 114 {
            seq![13u8] + unescape_bytes(t.skip(2))
        } else if t[1] == 116 {
            seq![9u8] + unescape_bytes(t.skip(2))
        } else if 48 <= t[1] && t[1] <= 57 {
            if t.len() >= 4 {
                seq![(((t[1] - 48) * 100 + (t[2] - 48) * 10 + (t[3] - 48)) % 256) as u8]
                    + unescape_bytes(t.skip(4))
            } else {
                Seq::empty()
            }
        } else {
            seq![t[1]] + unescape_bytes(t.skip(2))
        }
    } else {
        seq![t[0]] + unescape_bytes(t.skip(1))
    }
}

/// One escaped byte, followed by anything, reads back as that byte followed
/// by the rest.
proof fn lemma_unescape_one(b: u8, rest: Seq<u8>)
    ensures
        unescape_bytes(escape_byte(b) + rest) == seq![b] + unescape_bytes(rest),
{
    let t = escape_byte(b) + rest;
    if b == QUOTE || b == BACKSLASH || b == NEWLINE || b == 13 || b == 9 {
        assert(t.skip(2) =~= rest);
    } else if b < 32 {
        assert(t[0] == BACKSLASH);
        assert(t[1] == 48);
        assert(t[2] == 48 + b / 10);
        assert(t[3] == 48 + b % 10);
        assert(48 <= t[1] && t[1] <= 57);
        assert(t.len() >= 4);
        assert(t.skip(4) =~= rest);
        assert((((t[1] - 48) * 100 + (t[2] - 48) * 10 + (t[3] - 48)) % 256) as u8 == b);
    } else {
        assert(t[0] == b);
        assert(t[0] != BACKSLASH);
        assert(t.skip(1) =~= rest);
    }
}

/// Escaping is faithful: the escaped body of any byte sequence, read back,
/// is exactly the original sequence. One pass of the escaper loses nothing
/// and confuses no two inputs.
pub proof fn escaping_is_faithful(s: Seq<u8>)
    ensures
        unescape_bytes(escape_bytes(s)) == s,
    decreases s.len(),
{
    if s.len() == 0 {
        assert(escape_bytes(s) =~= Seq::<u8>::empty());
    } else {
        escaping_is_faithful(s.drop_first());
        lemma_unescape_one(s[0], escape_bytes(s.drop_first()));
        assert(unescape_bytes(escape_bytes(s)) =~= s);
    }
}

/// Every byte of a decimal representation is a digit.
proof fn lemma_dec_rep_digits(n: nat)
    ensures
        forall|i: int| 0 <= i < dec_rep(n).len() ==> 48 <= #[trigger] dec_rep(n)[i] <= 57,
    decreases n,
{
    if n >= 10 {
        lemma_dec_rep_digits(n / 10);
        assert forall|i: int| 0 <= i < dec_rep(n).len() implies 48 <= #[trigger] dec_rep(n)[i]
            <= 57 by {
            if i < dec_rep(n / 10).len() {
                assert(dec_rep(n)[i] == dec_rep(n / 10)[i]);
            } else {
                assert(dec_rep(n)[i] == (48 + n % 10) as u8);
            }
        }
    } else {
        assert(dec_rep(n) =~= seq![(48 + n) as u8]);
    }
}

/// No whitespace byte occurs in `s`.
pub open spec fn ws_free(s: Seq<u8>) -> bool {
    forall|i: int| 0 <= i < s.len() ==> !is_ws_byte(#[trigger] s[i])
}

/// Integer literals hold no space, tab or line break.
pub proof fn integer_literals_have_no_whitespace(u: u64, v: i64)
    ensures
        ws_free(fmt_u64(u)),
        ws_free(fmt_i64(v)),
{
    lemma_dec_rep_digits(u as nat);
    lemma_dec_rep_digits(v as nat);
    if v < 0 {
        lemma_dec_rep_digits((-(v as int)) as nat);
    }
}

/// Numeric literals within the numeric alphabet hold no whitespace, so
/// compact output for every integer and every well-formed caller-rendered
/// number (the float path) is whitespace-free.
pub proof fn number_tokens_have_no_whitespace(t: Seq<u8>)
    requires
        num_token_wf(t),
    ensures
        ws_free(t),
{
}

/// The separators written after the first element of a nonempty sequence:
/// each later element contributes exactly one leading separator.
pub open spec fn rest_items(items: Seq<Value>, p: bool, d: nat) -> Seq<u8>
    decreases items,
{
    if items.len() == 0 {
        Seq::empty()
    } else {
        rest_items(items.drop_last(), p, d) + elem_open_bytes(false, p, d) + render(
            items.last(),
            p,
            d,
        )
    }
}

/// Separator placement: a nonempty sequence interior is the first element's
/// rendering, without a leading separator, followed by the later elements,
/// each preceded by exactly one separator. With the closing delimiter
/// standing right after the interior in `render`, a sequence of N elements
/// shows exactly N - 1 separators and no trailing one.
pub proof fn separator_placement(items: Seq<Value>, p: bool, d: nat)
    requires
        items.len() >= 1,
    ensures
        render_items(items, p, d) == elem_open_bytes(true, p, d) + render(items[0], p, d)
            + rest_items(items.drop_first(), p, d),
    decreases items.len(),
{
    if items.len() == 1 {
        assert(items.drop_last() =~= Seq::<Value>::empty());
        assert(items.drop_first() =~= Seq::<Value>::empty());
        assert(items.last() == items[0]);
        assert(render_items(items, p, d) =~= elem_open_bytes(true, p, d) + render(items[0], p, d)
            + rest_items(items.drop_first(), p, d));
    } else {
        separator_placement(items.drop_last(), p, d);
        assert(items.drop_last()[0] == items[0]);
        assert(items.drop_first().drop_last() =~= items.drop_last().drop_first());
        assert(items.drop_first().last() == items.last());
        assert(rest_items(items.drop_first(), p, d) == rest_items(
            items.drop_first().drop_last(),
            p,
            d,
        ) + elem_open_bytes(false, p, d) + render(items.last(), p, d));
        assert(render_items(items, p, d) == render_items(items.drop_last(), p, d)
            + elem_open_bytes(false, p, d) + render(items.last(), p, d));
        assert(render_items(items, p, d) =~= elem_open_bytes(true, p, d) + render(items[0], p, d)
            + rest_items(items.drop_first(), p, d));
    }
}

/// The bytes of `s` with every whitespace byte removed.
pub open spec fn strip_ws(s: Seq<u8>) -> Seq<u8>
    decreases s.len(),
{
    if s.len() == 0 {
        Seq::empty()
    } else if is_ws_byte(s[0]) {
        strip_ws(s.drop_first())
    } else {
        seq![s[0]] + strip_ws(s.drop_first())
    }
}

/// Stripping distributes over concatenation.
pub proof fn lemma_strip_ws_add(a: Seq<u8>, b: Seq<u8>)
    ensures
        strip_ws(a + b) == strip_ws(a) + strip_ws(b),
    decreases a.len(),
{
    if a.len() == 0 {
        assert(a + b =~= b);
        assert(strip_ws(a) + strip_ws(b) =~= strip_ws(b));
    } else {
        lemma_strip_ws_add(a.drop_first(), b);
        assert((a + b).drop_first() =~= a.drop_first() + b);
        assert((a + b)[0] == a[0]);
        if !is_ws_byte(a[0]) {
            assert(seq![a[0]] + (strip_ws(a.drop_first()) + strip_ws(b)) =~= (seq![a[0]]
                + strip_ws(a.drop_first())) + strip_ws(b));
        }
    }
}

/// A whitespace-free sequence strips to itself.
pub proof fn lemma_strip_ws_free(s: Seq<u8>)
    requires
        ws_free(s),
    ensures
        strip_ws(s) == s,
    decreases s.len(),
{
    if s.len() > 0 {
        lemma_strip_ws_free(s.drop_first());
        assert(strip_ws(s) =~= s);
    }
}

/// All-whitespace bytes strip to nothing.
proof fn lemma_strip_spaces(n: nat)
    ensures
        strip_ws(spaces(n)) == Seq::<u8>::empty(),
    decreases n,
{
    if n > 0 {
        lemma_strip_spaces((n - 1) as nat);
        assert(spaces(n).drop_first() =~= spaces((n - 1) as nat));
    }
}

/// A line break with indentation strips to nothing.
proof fn lemma_strip_nl_indent(d: nat)
    ensures
        strip_ws(nl_indent(d)) == Seq::<u8>::empty(),
{
    reveal_with_fuel(strip_ws, 3);
    lemma_strip_spaces(2 * d);
    lemma_strip_ws_add(seq![NEWLINE], spaces(2 * d));
    assert(seq![NEWLINE].drop_first() =~= Seq::<u8>::empty());
    assert(strip_ws(seq![NEWLINE]) =~= Seq::<u8>::empty());
    assert(strip_ws(nl_indent(d)) =~= Seq::<u8>::empty());
}

/// The pretty form of each structural token strips to its compact form.
proof fn lemma_strip_tokens(first: bool, dp: nat, dc: nat)
    ensures
        strip_ws(elem_open_bytes(first, true, dp)) == strip_ws(elem_open_bytes(first, false, dc)),
        strip_ws(key_open_bytes(first, true, dp)) == strip_ws(key_open_bytes(first, false, dc)),
        strip_ws(value_open_bytes(true)) == strip_ws(value_open_bytes(false)),
        forall|h1: bool, h2: bool|
            strip_ws(#[trigger] end_struct_bytes(h1, true, dp)) == strip_ws(
                #[trigger] end_struct_bytes(h2, false, dc),
            ),
{
    reveal_with_fuel(strip_ws, 5);
    let sep: Seq<u8> = if first {
        Seq::empty()
    } else {
        seq![44u8]
    };
    assert(seq![44u8].drop_first() =~= Seq::<u8>::empty());
    assert(seq![91u8].drop_first() =~= Seq::<u8>::empty());
    assert(seq![61u8].drop_first() =~= Seq::<u8>::empty());
    assert(seq![RBRACE].drop_first() =~= Seq::<u8>::empty());
    assert(value_open_bytes(true).drop_first() =~= seq![61u8, 32u8]);
    assert(seq![61u8, 32u8].drop_first() =~= seq![32u8]);
    assert(seq![32u8].drop_first() =~= Seq::<u8>::empty());
    lemma_strip_nl_indent(dp);
    lemma_strip_ws_add(sep, nl_indent(dp));
    lemma_strip_ws_free(sep);
    assert(strip_ws(elem_open_bytes(first, true, dp)) =~= strip_ws(
        elem_open_bytes(first, false, dc),
    ));
    lemma_strip_ws_add(elem_open_bytes(first, true, dp), seq![91u8]);
    lemma_strip_ws_add(elem_open_bytes(first, false, dc), seq![91u8]);
    assert(strip_ws(seq![91u8]) =~= seq![91u8]);
    assert(strip_ws(key_open_bytes(first, true, dp)) =~= strip_ws(
        key_open_bytes(first, false, dc),
    ));
    assert(strip_ws(value_open_bytes(true)) =~= seq![61u8]);
    assert(strip_ws(value_open_bytes(false)) =~= seq![61u8]);
    assert forall|h1: bool, h2: bool|
        strip_ws(#[trigger] end_struct_bytes(h1, true, dp)) == strip_ws(
            #[trigger] end_struct_bytes(h2, false, dc),
        ) by {
        lemma_strip_nl_indent((dp - 1) as nat);
        lemma_strip_ws_add(nl_indent((dp - 1) as nat), seq![RBRACE]);
        assert(strip_ws(seq![RBRACE]) =~= seq![RBRACE]);
        assert(strip_ws(end_struct_bytes(h1, true, dp)) =~= seq![RBRACE]);
        assert(strip_ws(end_struct_bytes(h2, false, dc)) =~= seq![RBRACE]);
    }
}

/// Whitespace is the only difference between the styles: for any value, the
/// pretty rendering with all whitespace removed equals the compact rendering
/// with all whitespace removed, whatever depths the two walks use.
pub proof fn pretty_strips_as_compact(v: Value, dp: nat, dc: nat)
    ensures
        strip_ws(render(v, true, dp)) == strip_ws(render(v, false, dc)),
    decreases v,
{
    let lp = render(v, true, dp);
    let lc = render(v, false, dc);
    match v {
        Value::Bytes(bs) => {
            lemma_bytes_agree(bs@, dp, dc);
            lemma_struct_wrap(byte_items(bs@, true, crate::format::bump(true, dp)), byte_items(bs@, false, 0), bs@.len() > 0, dp, dc);
        },
        Value::Sequence(elems) => {
            assert(decreases_to!(v => v->Sequence_0));
            lemma_items_agree(elems@, dp, dc);
            lemma_struct_wrap(render_items(elems@, true, crate::format::bump(true, dp)), render_items(elems@, false, 0), elems@.len() > 0, dp, dc);
        },
        Value::Mapping(entries) => {
            assert(decreases_to!(v => v->Mapping_0));
            lemma_entries_agree(entries@, dp, dc);
            lemma_struct_wrap(render_entries(entries@, true, crate::format::bump(true, dp)), render_entries(entries@, false, 0), entries@.len() > 0, dp, dc);
        },
        Value::NewtypeVariant(name, val) => {
            assert(decreases_to!(v => v->NewtypeVariant_1));
            pretty_strips_as_compact(*val, crate::format::bump(true, dp), 0);
            lemma_variant_open_agree(name@, dp, dc);
            lemma_strip_tokens(true, crate::format::bump(true, dp), 0);
            lemma_strip_ws_add(variant_open(name@, true, dp), render(*val, true, crate::format::bump(true, dp)));
            lemma_strip_ws_add(variant_open(name@, true, dp) + render(*val, true, crate::format::bump(true, dp)), end_struct_bytes(true, true, crate::format::bump(true, dp)));
            lemma_strip_ws_add(variant_open(name@, false, dc), render(*val, false, 0));
            lemma_strip_ws_add(variant_open(name@, false, dc) + render(*val, false, 0), end_struct_bytes(true, false, 0));
            assert(strip_ws(lp) =~= strip_ws(lc));
        },
        Value::TupleVariant(name, elems) => {
            assert(decreases_to!(v => v->TupleVariant_1));
            let dpp = crate::format::bump(true, dp);
            let dpp2 = crate::format::bump(true, dpp);
            lemma_items_agree(elems@, dpp, dc);
            lemma_variant_open_agree(name@, dp, dc);
            lemma_strip_tokens(true, dpp2, 0);
            lemma_strip_tokens(true, dpp, 0);
            let body_p = begin_struct() + render_items(elems@, true, dpp2) + end_struct_bytes(elems@.len() > 0, true, dpp2);
            let body_c = begin_struct() + render_items(elems@, false, 0) + end_struct_bytes(elems@.len() > 0, false, 0);
            lemma_struct_wrap_inner(render_items(elems@, true, dpp2), render_items(elems@, false, 0), elems@.len() > 0, dpp2, 0);
            lemma_strip_ws_add(variant_open(name@, true, dp), body_p);
            lemma_strip_ws_add(variant_open(name@, true, dp) + body_p, end_struct_bytes(true, true, dpp));
            lemma_strip_ws_add(variant_open(name@, false, dc), body_c);
            lemma_strip_ws_add(variant_open(name@, false, dc) + body_c, end_struct_bytes(true, false, 0));
            assert(lp =~= variant_open(name@, true, dp) + body_p + end_struct_bytes(true, true, dpp));
            assert(lc =~= variant_open(name@, false, dc) + body_c + end_struct_bytes(true, false, 0));
            assert(strip_ws(lp) =~= strip_ws(lc));
        },
        Value::StructVariant(name, fields) => {
            assert(decreases_to!(v => v->StructVariant_1));
            let dpp = crate::format::bump(true, dp);
            let dpp2 = crate::format::bump(true, dpp);
            lemma_fields_agree(fields@, dpp, dc);
            lemma_variant_open_agree(name@, dp, dc);
            lemma_strip_tokens(true, dpp2, 0);
            lemma_strip_tokens(true, dpp, 0);
            let body_p = begin_struct() + render_fields(fields@, true, dpp2) + end_struct_bytes(fields@.len() > 0, true, dpp2);
            let body_c = begin_struct() + render_fields(fields@, false, 0) + end_struct_bytes(fields@.len() > 0, false, 0);
            lemma_struct_wrap_inner(render_fields(fields@, true, dpp2), render_fields(fields@, false, 0), fields@.len() > 0, dpp2, 0);
            lemma_strip_ws_add(variant_open(name@, true, dp), body_p);
            lemma_strip_ws_add(variant_open(name@, true, dp) + body_p, end_struct_bytes(true, true, dpp));
            lemma_strip_ws_add(variant_open(name@, false, dc), body_c);
            lemma_strip_ws_add(variant_open(name@, false, dc) + body_c, end_struct_bytes(true, false, 0));
            assert(lp =~= variant_open(name@, true, dp) + body_p + end_struct_bytes(true, true, dpp));
            assert(lc =~= variant_open(name@, false, dc) + body_c + end_struct_bytes(true, false, 0));
            assert(strip_ws(lp) =~= strip_ws(lc));
        },
        _ => {
            assert(lp == lc);
        },
    }
}

/// The opening brace.
spec fn begin_struct() -> Seq<u8> {
    crate::format::begin_struct_bytes()
}

/// Wrapping agreed interiors in braces keeps the stripped forms equal, with
/// the variant-wrapper case factored out.
proof fn lemma_struct_wrap_inner(ip: Seq<u8>, ic: Seq<u8>, had: bool, dip: nat, dic: nat)
    requires
        strip_ws(ip) == strip_ws(ic),
    ensures
        strip_ws(begin_struct() + ip + end_struct_bytes(had, true, dip)) == strip_ws(
            begin_struct() + ic + end_struct_bytes(had, false, dic),
        ),
{
    reveal_with_fuel(strip_ws, 3);
    assert(begin_struct().drop_first() =~= Seq::<u8>::empty());
    lemma_strip_tokens(true, dip, dic);
    lemma_strip_ws_add(begin_struct(), ip);
    lemma_strip_ws_add(begin_struct() + ip, end_struct_bytes(had, true, dip));
    lemma_strip_ws_add(begin_struct(), ic);
    lemma_strip_ws_add(begin_struct() + ic, end_struct_bytes(had, false, dic));
    assert(strip_ws(begin_struct()) =~= begin_struct());
    assert(strip_ws(begin_struct() + ip + end_struct_bytes(had, true, dip)) =~= strip_ws(
        begin_struct() + ic + end_struct_bytes(had, false, dic),
    ));
}

/// The brace-wrapped interiors of a sequence or mapping agree stripped, at
/// the depths `render` uses under depths `dp` and `dc`.
proof fn lemma_struct_wrap(ip: Seq<u8>, ic: Seq<u8>, had: bool, dp: nat, dc: nat)
    requires
        strip_ws(ip) == strip_ws(ic),
    ensures
        strip_ws(begin_struct() + ip + end_struct_bytes(had, true, crate::format::bump(true, dp)))
            == strip_ws(begin_struct() + ic + end_struct_bytes(had, false, 0)),
{
    lemma_struct_wrap_inner(ip, ic, had, crate::format::bump(true, dp), 0);
}

/// The tagged-variant opening agrees stripped across styles.
proof fn lemma_variant_open_agree(name: Seq<char>, dp: nat, dc: nat)
    ensures
        strip_ws(variant_open(name, true, dp)) == strip_ws(variant_open(name, false, dc)),
{
    reveal_with_fuel(strip_ws, 3);
    assert(begin_struct().drop_first() =~= Seq::<u8>::empty());
    let lit = str_lit(vstd::utf8::encode_utf8(name));
    lemma_strip_tokens(true, crate::format::bump(true, dp), 0);
    lemma_strip_ws_add(begin_struct(), key_open_bytes(true, true, crate::format::bump(true, dp)));
    lemma_strip_ws_add(begin_struct() + key_open_bytes(true, true, crate::format::bump(true, dp)), lit);
    lemma_strip_ws_add(begin_struct() + key_open_bytes(true, true, crate::format::bump(true, dp)) + lit, key_close_bytes());
    lemma_strip_ws_add(begin_struct() + key_open_bytes(true, true, crate::format::bump(true, dp)) + lit + key_close_bytes(), value_open_bytes(true));
    lemma_strip_ws_add(begin_struct(), key_open_bytes(true, false, 0));
    lemma_strip_ws_add(begin_struct() + key_open_bytes(true, false, 0), lit);
    lemma_strip_ws_add(begin_struct() + key_open_bytes(true, false, 0) + lit, key_close_bytes());
    lemma_strip_ws_add(begin_struct() + key_open_bytes(true, false, 0) + lit + key_close_bytes(), value_open_bytes(false));
    assert(strip_ws(begin_struct()) =~= begin_struct());
    assert(strip_ws(key_open_bytes(true, false, 0)) =~= strip_ws(key_open_bytes(true, false, dc)));
    assert(strip_ws(variant_open(name, true, dp)) =~= strip_ws(variant_open(name, false, dc)));
}

/// Sequence interiors agree stripped, element by element.
proof fn lemma_items_agree(items: Seq<Value>, dp: nat, dc: nat)
    ensures
        strip_ws(render_items(items, true, crate::format::bump(true, dp))) == strip_ws(
            render_items(items, false, 0),
        ),
    decreases items,
{
    let d1 = crate::format::bump(true, dp);
    if items.len() > 0 {
        lemma_items_agree(items.drop_last(), dp, dc);
        pretty_strips_as_compact(items.last(), d1, 0);
        lemma_strip_tokens(items.len() == 1, d1, 0);
        lemma_strip_ws_add(render_items(items.drop_last(), true, d1), elem_open_bytes(items.len() == 1, true, d1));
        lemma_strip_ws_add(render_items(items.drop_last(), true, d1) + elem_open_bytes(items.len() == 1, true, d1), render(items.last(), true, d1));
        lemma_strip_ws_add(render_items(items.drop_last(), false, 0), elem_open_bytes(items.len() == 1, false, 0));
        lemma_strip_ws_add(render_items(items.drop_last(), false, 0) + elem_open_bytes(items.len() == 1, false, 0), render(items.last(), false, 0));
        assert(strip_ws(render_items(items, true, d1)) =~= strip_ws(render_items(items, false, 0)));
    }
}

/// Byte-sequence interiors agree stripped.
proof fn lemma_bytes_agree(bs: Seq<u8>, dp: nat, dc: nat)
    ensures
        strip_ws(byte_items(bs, true, crate::format::bump(true, dp))) == strip_ws(
            byte_items(bs, false, 0),
        ),
    decreases bs.len(),
{
    let d1 = crate::format::bump(true, dp);
    if bs.len() > 0 {
        lemma_bytes_agree(bs.drop_last(), dp, dc);
        lemma_strip_tokens(bs.len() == 1, d1, 0);
        integer_literals_have_no_whitespace(bs.last() as u64, 0);
        lemma_strip_ws_free(fmt_u64(bs.last() as u64));
        lemma_strip_ws_add(byte_items(bs.drop_last(), true, d1), elem_open_bytes(bs.len() == 1, true, d1));
        lemma_strip_ws_add(byte_items(bs.drop_last(), true, d1) + elem_open_bytes(bs.len() == 1, true, d1), fmt_u64(bs.last() as u64));
        lemma_strip_ws_add(byte_items(bs.drop_last(), false, 0), elem_open_bytes(bs.len() == 1, false, 0));
        lemma_strip_ws_add(byte_items(bs.drop_last(), false, 0) + elem_open_bytes(bs.len() == 1, false, 0), fmt_u64(bs.last() as u64));
        assert(strip_ws(byte_items(bs, true, d1)) =~= strip_ws(byte_items(bs, false, 0)));
    }
}

/// Mapping interiors agree stripped, entry by entry.
proof fn lemma_entries_agree(entries: Seq<(Value, Value)>, dp: nat, dc: nat)
    ensures
        strip_ws(render_entries(entries, true, crate::format::bump(true, dp))) == strip_ws(
            render_entries(entries, false, 0),
        ),
    decreases entries,
{
    let d1 = crate::format::bump(true, dp);
    if entries.len() > 0 {
        lemma_entries_agree(entries.drop_last(), dp, dc);
        assert(decreases_to!(entries => entries[entries.len() - 1]));
        pretty_strips_as_compact(entries.last().1, d1, 0);
        lemma_strip_tokens(entries.len() == 1, d1, 0);
        let key = render_key(entries.last().0);
        let pre_p = render_entries(entries.drop_last(), true, d1);
        let pre_c = render_entries(entries.drop_last(), false, 0);
        lemma_strip_ws_add(pre_p, key_open_bytes(entries.len() == 1, true, d1));
        lemma_strip_ws_add(pre_p + key_open_bytes(entries.len() == 1, true, d1), key);
        lemma_strip_ws_add(pre_p + key_open_bytes(entries.len() == 1, true, d1) + key, key_close_bytes());
        lemma_strip_ws_add(pre_p + key_open_bytes(entries.len() == 1, true, d1) + key + key_close_bytes(), value_open_bytes(true));
        lemma_strip_ws_add(pre_p + key_open_bytes(entries.len() == 1, true, d1) + key + key_close_bytes() + value_open_bytes(true), render(entries.last().1, true, d1));
        lemma_strip_ws_add(pre_c, key_open_bytes(entries.len() == 1, false, 0));
        lemma_strip_ws_add(pre_c + key_open_bytes(entries.len() == 1, false, 0), key);
        lemma_strip_ws_add(pre_c + key_open_bytes(entries.len() == 1, false, 0) + key, key_close_bytes());
        lemma_strip_ws_add(pre_c + key_open_bytes(entries.len() == 1, false, 0) + key + key_close_bytes(), value_open_bytes(false));
        lemma_strip_ws_add(pre_c + key_open_bytes(entries.len() == 1, false, 0) + key + key_close_bytes() + value_open_bytes(false), render(entries.last().1, false, 0));
        assert(strip_ws(render_entries(entries, true, d1)) =~= strip_ws(render_entries(entries, false, 0)));
    }
}

/// Whitespace-freedom is kept by concatenation.
proof fn lemma_ws_free_add(a: Seq<u8>, b: Seq<u8>)
    requires
        ws_free(a),
        ws_free(b),
    ensures
        ws_free(a + b),
{
    assert forall|i: int| 0 <= i < (a + b).len() implies !is_ws_byte(#[trigger] (a + b)[i]) by {
        if i < a.len() {
            assert((a + b)[i] == a[i]);
        } else {
            assert((a + b)[i] == b[i - a.len()]);
        }
    }
}

/// No byte holds a space (the one whitespace byte the escaper passes
/// through; tabs and line breaks are escaped).
pub open spec fn space_free(s: Seq<u8>) -> bool {
    forall|i: int| 0 <= i < s.len() ==> #[trigger] s[i] != 32
}

/// Escaped contents of space-free bytes are whitespace-free: every
/// whitespace byte but the space is turned into a visible escape.
proof fn lemma_escape_ws_free(s: Seq<u8>)
    requires
        space_free(s),
    ensures
        ws_free(escape_bytes(s)),
    decreases s.len(),
{
    if s.len() > 0 {
        lemma_escape_ws_free(s.drop_first());
        assert(s[0] != 32);
        assert(ws_free(escape_byte(s[0])));
        lemma_ws_free_add(escape_byte(s[0]), escape_bytes(s.drop_first()));
    }
}

/// A string literal over space-free contents is whitespace-free.
proof fn lemma_str_lit_ws_free(contents: Seq<u8>)
    requires
        space_free(contents),
    ensures
        ws_free(str_lit(contents)),
{
    lemma_escape_ws_free(contents);
    lemma_ws_free_add(seq![QUOTE], escape_bytes(contents));
    lemma_ws_free_add(seq![QUOTE] + escape_bytes(contents), seq![QUOTE]);
}

/// Every string, character, numeric literal and variant name in the graph
/// is free of space bytes (other whitespace in them is escaped on output),
/// and every numeric literal is well formed.
pub open spec fn compact_ws_free(v: Value) -> bool
    decreases v,
{
    match v {
        Value::Number(t) => num_token_wf(t@),
        Value::Char(c) => space_free(vstd::utf8::encode_utf8(seq![c])),
        Value::Str(s) => space_free(vstd::utf8::encode_utf8(s@)),
        Value::Sequence(elems) => forall|i: int|
            0 <= i < elems@.len() ==> compact_ws_free(#[trigger] elems@[i]),
        Value::Mapping(entries) => forall|i: int| #![trigger entries@[i]]
            0 <= i < entries@.len() ==> compact_ws_free(entries@[i].0) && compact_ws_free(
                entries@[i].1,
            ),
        Value::UnitVariant(name) => space_free(vstd::utf8::encode_utf8(name@)),
        Value::NewtypeVariant(name, val) => space_free(vstd::utf8::encode_utf8(name@))
            && compact_ws_free(*val),
        Value::TupleVariant(name, elems) => space_free(vstd::utf8::encode_utf8(name@)) && forall|
            i: int,
        |
            0 <= i < elems@.len() ==> compact_ws_free(#[trigger] elems@[i]),
        Value::StructVariant(name, fields) => space_free(vstd::utf8::encode_utf8(name@)) && forall|
            i: int,
        | #![trigger fields@[i]]
            0 <= i < fields@.len() ==> space_free(vstd::utf8::encode_utf8(fields@[i].0@))
                && compact_ws_free(fields@[i].1),
        _ => true,
    }
}

/// A key of a graph in which every textual atom is space-free renders
/// whitespace-free.
proof fn lemma_key_ws_free(k: Value)
    requires
        compact_ws_free(k),
    ensures
        ws_free(render_key(k)),
{
    match k {
        Value::Int(i) => {
            integer_literals_have_no_whitespace(0, i);
        },
        Value::UInt(u) => {
            integer_literals_have_no_whitespace(u, 0);
        },
        Value::Char(c) => {
            lemma_str_lit_ws_free(vstd::utf8::encode_utf8(seq![c]));
        },
        Value::Str(s) => {
            lemma_str_lit_ws_free(vstd::utf8::encode_utf8(s@));
        },
        Value::UnitVariant(name) => {
            lemma_str_lit_ws_free(vstd::utf8::encode_utf8(name@));
        },
        _ => {
        },
    }
}

/// The variant wrapper's opening is whitespace-free in compact style.
proof fn lemma_variant_open_ws_free(name: Seq<char>, d: nat)
    requires
        space_free(vstd::utf8::encode_utf8(name)),
    ensures
        ws_free(variant_open(name, false, d)),
{
    lemma_str_lit_ws_free(vstd::utf8::encode_utf8(name));
    assert(ws_free(begin_struct()));
    assert(ws_free(key_open_bytes(true, false, 0)));
    lemma_ws_free_add(begin_struct(), key_open_bytes(true, false, 0));
    lemma_ws_free_add(
        begin_struct() + key_open_bytes(true, false, 0),
        str_lit(vstd::utf8::encode_utf8(name)),
    );
    lemma_ws_free_add(
        begin_struct() + key_open_bytes(true, false, 0) + str_lit(vstd::utf8::encode_utf8(name)),
        key_close_bytes(),
    );
    lemma_ws_free_add(
        begin_struct() + key_open_bytes(true, false, 0) + str_lit(vstd::utf8::encode_utf8(name))
            + key_close_bytes(),
        value_open_bytes(false),
    );
    assert(variant_open(name, false, d) =~= begin_struct() + key_open_bytes(true, false, 0)
        + str_lit(vstd::utf8::encode_utf8(name)) + key_close_bytes() + value_open_bytes(false));
}

/// Compact output of a graph whose textual atoms are space-free holds no
/// whitespace byte at all.
pub proof fn compact_output_is_whitespace_free(v: Value, d: nat)
    requires
        compact_ws_free(v),
    ensures
        ws_free(render(v, false, d)),
    decreases v,
{
    match v {
        Value::Unit => {
        },
        Value::Bool(_) => {
        },
        Value::Int(i) => {
            integer_literals_have_no_whitespace(0, i);
        },
        Value::UInt(u) => {
            integer_literals_have_no_whitespace(u, 0);
        },
        Value::Number(_) => {
        },
        Value::Char(c) => {
            lemma_str_lit_ws_free(vstd::utf8::encode_utf8(seq![c]));
        },
        Value::Str(s) => {
            lemma_str_lit_ws_free(vstd::utf8::encode_utf8(s@));
        },
        Value::Bytes(bs) => {
            lemma_compact_byte_items_ws_free(bs@);
            lemma_ws_free_add(begin_struct(), byte_items(bs@, false, 0));
            lemma_ws_free_add(
                begin_struct() + byte_items(bs@, false, 0),
                end_struct_bytes(bs@.len() > 0, false, 0),
            );
        },
        Value::Sequence(elems) => {
            assert(decreases_to!(v => v->Sequence_0));
            lemma_compact_items_ws_free(elems@);
            lemma_ws_free_add(begin_struct(), render_items(elems@, false, 0));
            lemma_ws_free_add(
                begin_struct() + render_items(elems@, false, 0),
                end_struct_bytes(elems@.len() > 0, false, 0),
            );
        },
        Value::Mapping(entries) => {
            assert(decreases_to!(v => v->Mapping_0));
            lemma_compact_entries_ws_free(entries@);
            lemma_ws_free_add(begin_struct(), render_entries(entries@, false, 0));
            lemma_ws_free_add(
                begin_struct() + render_entries(entries@, false, 0),
                end_struct_bytes(entries@.len() > 0, false, 0),
            );
        },
        Value::UnitVariant(name) => {
            lemma_str_lit_ws_free(vstd::utf8::encode_utf8(name@));
        },
        Value::NewtypeVariant(name, val) => {
            assert(decreases_to!(v => v->NewtypeVariant_1));
            compact_output_is_whitespace_free(*val, 0);
            lemma_variant_open_ws_free(name@, d);
            lemma_ws_free_add(variant_open(name@, false, d), render(*val, false, 0));
            lemma_ws_free_add(
                variant_open(name@, false, d) + render(*val, false, 0),
                end_struct_bytes(true, false, 0),
            );
        },
        Value::TupleVariant(name, elems) => {
            assert(decreases_to!(v => v->TupleVariant_1));
            lemma_compact_items_ws_free(elems@);
            lemma_variant_open_ws_free(name@, d);
            let body = begin_struct() + render_items(elems@, false, 0) + end_struct_bytes(
                elems@.len() > 0,
                false,
                0,
            );
            lemma_ws_free_add(begin_struct(), render_items(elems@, false, 0));
            lemma_ws_free_add(
                begin_struct() + render_items(elems@, false, 0),
                end_struct_bytes(elems@.len() > 0, false, 0),
            );
            lemma_ws_free_add(variant_open(name@, false, d), body);
            lemma_ws_free_add(variant_open(name@, false, d) + body, end_struct_bytes(true, false, 0));
            assert(render(v, false, d) =~= variant_open(name@, false, d) + body + end_struct_bytes(
                true,
                false,
                0,
            ));
        },
        Value::StructVariant(name, fields) => {
            assert(decreases_to!(v => v->StructVariant_1));
            lemma_compact_fields_ws_free(fields@);
            lemma_variant_open_ws_free(name@, d);
            let body = begin_struct() + render_fields(fields@, false, 0) + end_struct_bytes(
                fields@.len() > 0,
                false,
                0,
            );
            lemma_ws_free_add(begin_struct(), render_fields(fields@, false, 0));
            lemma_ws_free_add(
                begin_struct() + render_fields(fields@, false, 0),
                end_struct_bytes(fields@.len() > 0, false, 0),
            );
            lemma_ws_free_add(variant_open(name@, false, d), body);
            lemma_ws_free_add(variant_open(name@, false, d) + body, end_struct_bytes(true, false, 0));
            assert(render(v, false, d) =~= variant_open(name@, false, d) + body + end_struct_bytes(
                true,
                false,
                0,
            ));
        },
    }
}

/// Compact sequence interiors over space-free graphs are whitespace-free.
proof fn lemma_compact_items_ws_free(items: Seq<Value>)
    requires
        forall|i: int| 0 <= i < items.len() ==> compact_ws_free(#[trigger] items[i]),
    ensures
        ws_free(render_items(items, false, 0)),
    decreases items,
{
    if items.len() > 0 {
        lemma_compact_items_ws_free(items.drop_last());
        compact_output_is_whitespace_free(items.last(), 0);
        lemma_ws_free_add(
            render_items(items.drop_last(), false, 0),
            elem_open_bytes(items.len() == 1, false, 0),
        );
        lemma_ws_free_add(
            render_items(items.drop_last(), false, 0) + elem_open_bytes(items.len() == 1, false, 0),
            render(items.last(), false, 0),
        );
    }
}

/// Compact byte-sequence interiors are whitespace-free.
proof fn lemma_compact_byte_items_ws_free(bs: Seq<u8>)
    ensures
        ws_free(byte_items(bs, false, 0)),
    decreases bs.len(),
{
    if bs.len() > 0 {
        lemma_compact_byte_items_ws_free(bs.drop_last());
        integer_literals_have_no_whitespace(bs.last() as u64, 0);
        lemma_ws_free_add(
            byte_items(bs.drop_last(), false, 0),
            elem_open_bytes(bs.len() == 1, false, 0),
        );
        lemma_ws_free_add(
            byte_items(bs.drop_last(), false, 0) + elem_open_bytes(bs.len() == 1, false, 0),
            fmt_u64(bs.last() as u64),
        );
    }
}

/// Compact mapping interiors over space-free graphs are whitespace-free.
proof fn lemma_compact_entries_ws_free(entries: Seq<(Value, Value)>)
    requires
        forall|i: int| #![trigger entries[i]]
            0 <= i < entries.len() ==> compact_ws_free(entries[i].0) && compact_ws_free(
                entries[i].1,
            ),
    ensures
        ws_free(render_entries(entries, false, 0)),
    decreases entries,
{
    if entries.len() > 0 {
        lemma_compact_entries_ws_free(entries.drop_last());
        assert(decreases_to!(entries => entries[entries.len() - 1]));
        compact_output_is_whitespace_free(entries.last().1, 0);
        lemma_key_ws_free(entries.last().0);
        let pre = render_entries(entries.drop_last(), false, 0);
        lemma_ws_free_add(pre, key_open_bytes(entries.len() == 1, false, 0));
        lemma_ws_free_add(
            pre + key_open_bytes(entries.len() == 1, false, 0),
            render_key(entries.last().0),
        );
        lemma_ws_free_add(
            pre + key_open_bytes(entries.len() == 1, false, 0) + render_key(entries.last().0),
            key_close_bytes(),
        );
        lemma_ws_free_add(
            pre + key_open_bytes(entries.len() == 1, false, 0) + render_key(entries.last().0)
                + key_close_bytes(),
            value_open_bytes(false),
        );
        lemma_ws_free_add(
            pre + key_open_bytes(entries.len() == 1, false, 0) + render_key(entries.last().0)
                + key_close_bytes() + value_open_bytes(false),
            render(entries.last().1, false, 0),
        );
    }
}

/// Compact struct-like interiors over space-free graphs are whitespace-free.
proof fn lemma_compact_fields_ws_free(fields: Seq<(String, Value)>)
    requires
        forall|i: int| #![trigger fields[i]]
            0 <= i < fields.len() ==> space_free(vstd::utf8::encode_utf8(fields[i].0@))
                && compact_ws_free(fields[i].1),
    ensures
        ws_free(render_fields(fields, false, 0)),
    decreases fields,
{
    if fields.len() > 0 {
        lemma_compact_fields_ws_free(fields.drop_last());
        assert(decreases_to!(fields => fields[fields.len() - 1]));
        compact_output_is_whitespace_free(fields.last().1, 0);
        lemma_str_lit_ws_free(vstd::utf8::encode_utf8(fields.last().0@));
        let key = str_lit(vstd::utf8::encode_utf8(fields.last().0@));
        let pre = render_fields(fields.drop_last(), false, 0);
        lemma_ws_free_add(pre, key_open_bytes(fields.len() == 1, false, 0));
        lemma_ws_free_add(pre + key_open_bytes(fields.len() == 1, false, 0), key);
        lemma_ws_free_add(
            pre + key_open_bytes(fields.len() == 1, false, 0) + key,
            key_close_bytes(),
        );
        lemma_ws_free_add(
            pre + key_open_bytes(fields.len() == 1, false, 0) + key + key_close_bytes(),
            value_open_bytes(false),
        );
        lemma_ws_free_add(
            pre + key_open_bytes(fields.len() == 1, false, 0) + key + key_close_bytes()
                + value_open_bytes(false),
            render(fields.last().1, false, 0),
        );
    }
}

/// The literal whitespace-only difference: for a graph whose textual atoms
/// hold no space byte, the pretty rendering with all whitespace removed is
/// byte-identical to the compact rendering. (A space inside a string is the
/// one byte both styles keep that stripping would remove, so those inputs
/// are excluded; the stripped-to-stripped agreement above holds for all.)
pub proof fn pretty_stripped_is_compact(v: Value, dp: nat, dc: nat)
    requires
        compact_ws_free(v),
    ensures
        strip_ws(render(v, true, dp)) == render(v, false, dc),
{
    pretty_strips_as_compact(v, dp, dc);
    compact_output_is_whitespace_free(v, dc);
    lemma_strip_ws_free(render(v, false, dc));
}

/// Struct-like interiors agree stripped, field by field.
proof fn lemma_fields_agree(fields: Seq<(String, Value)>, dp: nat, dc: nat)
    ensures
        strip_ws(render_fields(fields, true, crate::format::bump(true, dp))) == strip_ws(
            render_fields(fields, false, 0),
        ),
    decreases fields,
{
    let d1 = crate::format::bump(true, dp);
    if fields.len() > 0 {
        lemma_fields_agree(fields.drop_last(), dp, dc);
        assert(decreases_to!(fields => fields[fields.len() - 1]));
        pretty_strips_as_compact(fields.last().1, d1, 0);
        lemma_strip_tokens(fields.len() == 1, d1, 0);
        let key = str_lit(vstd::utf8::encode_utf8(fields.last().0@));
        let pre_p = render_fields(fields.drop_last(), true, d1);
        let pre_c = render_fields(fields.drop_last(), false, 0);
        lemma_strip_ws_add(pre_p, key_open_bytes(fields.len() == 1, true, d1));
        lemma_strip_ws_add(pre_p + key_open_bytes(fields.len() == 1, true, d1), key);
        lemma_strip_ws_add(pre_p + key_open_bytes(fields.len() == 1, true, d1) + key, key_close_bytes());
        lemma_strip_ws_add(pre_p + key_open_bytes(fields.len() == 1, true, d1) + key + key_close_bytes(), value_open_bytes(true));
        lemma_strip_ws_add(pre_p + key_open_bytes(fields.len() == 1, true, d1) + key + key_close_bytes() + value_open_bytes(true), render(fields.last().1, true, d1));
        lemma_strip_ws_add(pre_c, key_open_bytes(fields.len() == 1, false, 0));
        lemma_strip_ws_add(pre_c + key_open_bytes(fields.len() == 1, false, 0), key);
        lemma_strip_ws_add(pre_c + key_open_bytes(fields.len() == 1, false, 0) + key, key_close_bytes());
        lemma_strip_ws_add(pre_c + key_open_bytes(fields.len() == 1, false, 0) + key + key_close_bytes(), value_open_bytes(false));
        lemma_strip_ws_add(pre_c + key_open_bytes(fields.len() == 1, false, 0) + key + key_close_bytes() + value_open_bytes(false), render(fields.last().1, false, 0));
        assert(strip_ws(render_fields(fields, true, d1)) =~= strip_ws(render_fields(fields, false, 0)));
    }
}

} // verus!
