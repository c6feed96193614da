//! The laws of the engine, proved once and for all over the model:
//! parsing inverts both renderings, parsing yields well-formed trees,
//! resolution is deterministic, object lookup takes the first match,
//! and replacement touches nothing off its path.

use vstd::prelude::*;
use crate::model::{
    escape_char, escape_string, hex_digit_char, indent, is_digit_char, is_hex_char,
    is_number_char, is_number_lit, is_ws_char, hex_val, num_accepting, num_run, num_step, render,
    render_doc, render_elems, render_members, render_pair, elem_head, elem_sep, wf, FmtMode,
    JsonModel, NumState,
};
use crate::spec_parse::{
    esc_simple, has_prefix, hex4_val, is_hex4, num_chunk_len, spec_parse_array_body,
    spec_parse_elems, spec_parse_json, spec_parse_member, spec_parse_members,
    spec_parse_object_body, spec_parse_string_body, spec_parse_value, spec_skip_ws,
};
use crate::path_model::{
    first_key_index, lemma_first_key_index_spec, spec_resolve, spec_set, spec_step, PathErrModel,
    StepModel,
};

verus! {

// ---------------------------------------------------------------------
// Whitespace
// ---------------------------------------------------------------------

/// Skipping whitespace walks over any all-whitespace prefix.
proof fn lemma_skip_ws_concat(p: Seq<char>, s: Seq<char>)
    requires
        forall|i: int| 0 <= i < p.len() ==> is_ws_char(#[trigger] p[i]),
    ensures
        spec_skip_ws(p + s) == spec_skip_ws(s),
    decreases p.len(),
{
    if p.len() == 0 {
        assert(p + s =~= s);
    } else {
        assert((p + s)[0] == p[0]);
        assert((p + s).skip(1) =~= p.skip(1) + s);
        lemma_skip_ws_concat(p.skip(1), s);
    }
}

/// Parsing a value walks over any all-whitespace prefix.
proof fn lemma_parse_value_ws(p: Seq<char>, s: Seq<char>)
    requires
        forall|i: int| 0 <= i < p.len() ==> is_ws_char(#[trigger] p[i]),
    ensures
        spec_parse_value(p + s) == spec_parse_value(s),
    decreases p.len(),
{
    if p.len() == 0 {
        assert(p + s =~= s);
    } else {
        assert((p + s)[0] == p[0]);
        assert((p + s).skip(1) =~= p.skip(1) + s);
        lemma_parse_value_ws(p.skip(1), s);
    }
}

/// Every character of the indentation is a space.
proof fn lemma_indent_ws(n: nat)
    ensures
        forall|i: int| 0 <= i < indent(n).len() ==> is_ws_char(#[trigger] indent(n)[i]),
    decreases n,
{
    if n > 0 {
        lemma_indent_ws((n - 1) as nat);
        let m = (n - 1) as nat;
        assert forall|i: int| 0 <= i < indent(n).len() implies is_ws_char(#[trigger] indent(n)[i])
        by {
            if i < indent(m).len() {
                assert(indent(n)[i] == indent(m)[i]);
            } else {
                assert(indent(n)[i] == seq![' ', ' '][i - indent(m).len()]);
            }
        }
    }
}

// ---------------------------------------------------------------------
// Numbers
// ---------------------------------------------------------------------

/// The automaton only steps on number characters.
proof fn lemma_num_run_chars(st: NumState, s: Seq<char>)
    requires
        num_run(st, s) is Some,
    ensures
        forall|i: int| 0 <= i < s.len() ==> is_number_char(#[trigger] s[i]),
    decreases s.len(),
{
    if s.len() > 0 {
        lemma_num_run_chars(num_step(st, s[0]).unwrap(), s.skip(1));
        assert forall|i: int| 0 <= i < s.len() implies is_number_char(#[trigger] s[i]) by {
            if i == 0 {
                assert(num_step(st, s[0]) is Some);
            } else {
                assert(s.skip(1)[i - 1] == s[i]);
            }
        }
    }
}

/// A number literal is not empty and opens with a sign or a digit.
proof fn lemma_num_lit_head(s: Seq<char>)
    requires
        is_number_lit(s),
    ensures
        s.len() > 0,
        s[0] == '-' || is_digit_char(s[0]),
        forall|i: int| 0 <= i < s.len() ==> is_number_char(#[trigger] s[i]),
{
    lemma_num_run_chars(NumState::Start, s);
    if s.len() == 0 {
        assert(!num_accepting(NumState::Start));
    } else {
        assert(num_step(NumState::Start, s[0]) is Some);
    }
}

/// The number scan over a literal followed by a non-number character
/// takes exactly the literal.
proof fn lemma_num_chunk_concat(s: Seq<char>, rest: Seq<char>)
    requires
        forall|i: int| 0 <= i < s.len() ==> is_number_char(#[trigger] s[i]),
        rest.len() == 0 || !is_number_char(rest[0]),
    ensures
        num_chunk_len(s + rest) == s.len(),
    decreases s.len(),
{
    if s.len() == 0 {
        assert(s + rest =~= rest);
    } else {
        assert((s + rest)[0] == s[0]);
        assert((s + rest).skip(1) =~= s.skip(1) + rest);
        lemma_num_chunk_concat(s.skip(1), rest);
    }
}

// ---------------------------------------------------------------------
// Strings
// ---------------------------------------------------------------------

/// Hexadecimal output digits read back as themselves.
proof fn lemma_hex_digit_roundtrip(n: nat)
    requires
        n < 16,
    ensures
        is_hex_char(hex_digit_char(n)),
        hex_val(hex_digit_char(n)) == n,
{
}

/// Parsing the escaped form of one string, followed by the closing
/// quote and anything after it, gives back exactly that string.
proof fn lemma_parse_escaped(s: Seq<char>, rest: Seq<char>)
    ensures
        spec_parse_string_body(escape_string(s) + seq!['"'] + rest) == Some((s, rest)),
    decreases s.len(),
{
    if s.len() == 0 {
        let t = escape_string(s) + seq!['"'] + rest;
        assert(t[0] == '"');
        assert(t.skip(1) =~= rest);
        assert(Some((Seq::<char>::empty(), rest)) == Some((s, rest)));
    } else {
        let c = s[0];
        let e = escape_char(c);
        let t = escape_string(s) + seq!['"'] + rest;
        let t2 = escape_string(s.skip(1)) + seq!['"'] + rest;
        lemma_parse_escaped(s.skip(1), rest);
        assert(escape_string(s) == e + escape_string(s.skip(1)));
        assert(t =~= e + t2);
        assert(seq![c] + s.skip(1) =~= s);
        if c == '"' || c == '\\' || c == '\n' || c == '\r' || c == '\t' || c == '\u{8}' || c
            == '\u{c}' {
            assert(t[0] == '\\' && t[1] == e[1]);
            assert(t.skip(2) =~= t2);
            assert(esc_simple(e[1]) == Some(c));
        } else if (c as u32) < 0x20 {
            let x = c as u32;
            assert(e == seq!['\\', 'u', '0', '0', hex_digit_char((x / 16) as nat), hex_digit_char(
                (x % 16) as nat,
            )]);
            assert(t[0] == '\\' && t[1] == 'u');
            assert(t.len() >= 6);
            assert(t.skip(2)[0] == '0' && t.skip(2)[1] == '0' && t.skip(2)[2] == hex_digit_char(
                (x / 16) as nat,
            ) && t.skip(2)[3] == hex_digit_char((x % 16) as nat));
            lemma_hex_digit_roundtrip((x / 16) as nat);
            lemma_hex_digit_roundtrip((x % 16) as nat);
            assert(is_hex_char('0') && hex_val('0') == 0);
            assert(is_hex4(t.skip(2)));
            assert(hex4_val(t.skip(2)) == (x / 16) * 16 + (x % 16));
            assert((x / 16) * 16 + (x % 16) == x) by {
                assert(x == 16 * (x / 16) + (x % 16));
            }
            assert(t.skip(6) =~= t2);
            vstd::utf8::char_u32_cast(c, x);
            assert(((hex4_val(t.skip(2)) as u32) as char) == c);
        } else {
            assert(e =~= seq![c]);
            assert(t[0] == c);
            assert(c != '"' && c != '\\' && !((c as u32) < 0x20));
            assert(t.skip(1) =~= t2);
        }
    }
}

// ---------------------------------------------------------------------
// The head of a rendering
// ---------------------------------------------------------------------

/// What a rendering can open with: never whitespace and never one of
/// the closing or separating characters.
proof fn lemma_render_head(v: JsonModel, mode: FmtMode, depth: nat)
    requires
        wf(v),
    ensures
        render(v, mode, depth).len() > 0,
        !is_ws_char(render(v, mode, depth)[0]),
        render(v, mode, depth)[0] != ']',
        render(v, mode, depth)[0] != '}',
{
    match v {
        JsonModel::Number(s) => {
            lemma_num_lit_head(s);
        },
        _ => {},
    }
}

// ---------------------------------------------------------------------
// Parsing inverts rendering
// ---------------------------------------------------------------------

/// What closes a non-empty array or object in each layout, `dp` being
/// the depth of the bracket itself.
spec fn closing(mode: FmtMode, dp: nat, bracket: char) -> Seq<char> {
    match mode {
        FmtMode::Dense => seq![bracket],
        FmtMode::Pretty => seq!['\n'] + indent(dp) + seq![bracket],
    }
}

/// Parsing one rendered value, with anything after it that cannot
/// extend a number, gives back exactly that value.
#[verifier::rlimit(100)]
#[verifier::spinoff_prover]
proof fn lemma_parse_render(v: JsonModel, mode: FmtMode, depth: nat, rest: Seq<char>)
    requires
        wf(v),
        rest.len() == 0 || !is_number_char(rest[0]),
    ensures
        spec_parse_value(render(v, mode, depth) + rest) == Some((v, rest)),
    decreases v, 1int,
{
    let t = render(v, mode, depth) + rest;
    lemma_render_head(v, mode, depth);
    assert(t[0] == render(v, mode, depth)[0]);
    match v {
        JsonModel::String(s) => {
            assert(t[0] == '"');
            assert(t.skip(1) =~= escape_string(s) + seq!['"'] + rest);
            lemma_parse_escaped(s, rest);
        },
        JsonModel::Number(s) => {
            lemma_num_lit_head(s);
            assert(t =~= s + rest);
            lemma_num_chunk_concat(s, rest);
            assert(t.take(s.len() as int) =~= s);
            assert(t.skip(s.len() as int) =~= rest);
        },
        JsonModel::Bool(b) => {
            if b {
                assert(has_prefix(t, seq!['t', 'r', 'u', 'e'])) by {
                    assert(t[0] == 't' && t[1] == 'r' && t[2] == 'u' && t[3] == 'e');
                }
                assert(t.skip(4) =~= rest);
            } else {
                assert(has_prefix(t, seq!['f', 'a', 'l', 's', 'e'])) by {
                    assert(t[0] == 'f' && t[1] == 'a' && t[2] == 'l' && t[3] == 's' && t[4]
                        == 'e');
                }
                assert(t.skip(5) =~= rest);
            }
        },
        JsonModel::Null => {
            assert(has_prefix(t, seq!['n', 'u', 'l', 'l'])) by {
                assert(t[0] == 'n' && t[1] == 'u' && t[2] == 'l' && t[3] == 'l');
            }
            assert(t.skip(4) =~= rest);
        },
        JsonModel::Array(a) => {
            lemma_parse_render_array(a, mode, depth, rest);
        },
        JsonModel::Object(o) => {
            lemma_parse_render_object(o, mode, depth, rest);
        },
    }
}

/// The array case of [`lemma_parse_render`].
#[verifier::rlimit(100)]
#[verifier::spinoff_prover]
proof fn lemma_parse_render_array(a: Seq<JsonModel>, mode: FmtMode, depth: nat, rest: Seq<char>)
    requires
        wf(JsonModel::Array(a)),
        rest.len() == 0 || !is_number_char(rest[0]),
    ensures
        spec_parse_value(render(JsonModel::Array(a), mode, depth) + rest) == Some(
            (JsonModel::Array(a), rest),
        ),
    decreases a, 3int,
{
    let v = JsonModel::Array(a);
    let t = render(v, mode, depth) + rest;
    assert(t[0] == '[');
    if a.len() == 0 {
        assert(t.skip(1) =~= seq![']'] + rest);
        let u = seq![']'] + rest;
        assert(u[0] == ']');
        assert(spec_skip_ws(u) == u);
        assert(u.skip(1) =~= rest);
        assert(a =~= Seq::<JsonModel>::empty());
        assert(spec_parse_array_body(u) == Some((JsonModel::Array(a), rest)));
        assert(spec_parse_value(t) == spec_parse_array_body(t.skip(1)));
    } else {
        let close = closing(mode, depth, ']');
        let w: Seq<char> = match mode {
            FmtMode::Dense => Seq::empty(),
            FmtMode::Pretty => seq!['\n'],
        };
        let d: nat = match mode {
            FmtMode::Dense => depth,
            FmtMode::Pretty => depth + 1,
        };
        let inner = w + render_elems(a, mode, d) + close + rest;
        assert(t.skip(1) =~= inner);
        lemma_parse_elems_render(a, mode, d, depth, w, rest, Seq::empty());
        assert(Seq::<JsonModel>::empty() + a =~= a);
        let head0 = render(a[0], mode, d);
        lemma_render_head(a[0], mode, d);
        let pre = w + elem_head(mode, d);
        let after = inner.skip(pre.len() as int);
        assert(inner =~= pre + after);
        lemma_indent_ws(d);
        assert(forall|i: int| 0 <= i < pre.len() ==> is_ws_char(#[trigger] pre[i]));
        lemma_skip_ws_concat(pre, after);
        assert(after[0] == head0[0]) by {
            assert(render_elems(a, mode, d)[elem_head(mode, d).len() as int] == head0[0]);
            assert(inner[pre.len() as int] == render_elems(a, mode, d)[elem_head(
                mode,
                d,
            ).len() as int]);
        }
        assert(spec_skip_ws(after) == after);
        assert(spec_skip_ws(inner) == after);
        assert(after.len() <= inner.len());
        assert(after[0] != ']');
        assert(spec_parse_array_body(inner) == Some((JsonModel::Array(a), rest)));
        assert(spec_parse_value(t) == spec_parse_array_body(t.skip(1)));
    }
}

/// A rendered run of members opens, after its indentation, with the
/// first key's quote.
proof fn lemma_members_head(o: Seq<(Seq<char>, JsonModel)>, mode: FmtMode, d: nat)
    requires
        o.len() >= 1,
    ensures
        render_members(o, mode, d).len() > elem_head(mode, d).len(),
        render_members(o, mode, d)[elem_head(mode, d).len() as int] == '"',
{
    let pair = render_pair(o[0].0, o[0].1, mode, d);
    assert(pair[0] == '"');
    if o.len() == 1 {
        assert(render_members(o, mode, d) == elem_head(mode, d) + pair);
        assert(render_members(o, mode, d)[elem_head(mode, d).len() as int] == pair[0]);
    } else {
        assert(render_members(o, mode, d) == (elem_head(mode, d) + pair) + elem_sep(mode)
            + render_members(o.drop_first(), mode, d));
        assert(render_members(o, mode, d)[elem_head(mode, d).len() as int] == pair[0]);
    }
}

/// The object case of [`lemma_parse_render`].
#[verifier::rlimit(100)]
#[verifier::spinoff_prover]
proof fn lemma_parse_render_object(
    o: Seq<(Seq<char>, JsonModel)>,
    mode: FmtMode,
    depth: nat,
    rest: Seq<char>,
)
    requires
        wf(JsonModel::Object(o)),
        rest.len() == 0 || !is_number_char(rest[0]),
    ensures
        spec_parse_value(render(JsonModel::Object(o), mode, depth) + rest) == Some(
            (JsonModel::Object(o), rest),
        ),
    decreases o, 3int,
{
    let v = JsonModel::Object(o);
    let t = render(v, mode, depth) + rest;
    assert(t[0] == '{');
    if o.len() == 0 {
        assert(t.skip(1) =~= seq!['}'] + rest);
        let u = seq!['}'] + rest;
        assert(u[0] == '}');
        assert(spec_skip_ws(u) == u);
        assert(u.skip(1) =~= rest);
        assert(o =~= Seq::<(Seq<char>, JsonModel)>::empty());
        assert(spec_parse_object_body(u) == Some((JsonModel::Object(o), rest)));
        assert(spec_parse_value(t) == spec_parse_object_body(t.skip(1)));
    } else {
        let close = closing(mode, depth, '}');
        let w: Seq<char> = match mode {
            FmtMode::Dense => Seq::empty(),
            FmtMode::Pretty => seq!['\n'],
        };
        let d: nat = match mode {
            FmtMode::Dense => depth,
            FmtMode::Pretty => depth + 1,
        };
        let inner = w + render_members(o, mode, d) + close + rest;
        assert(t.skip(1) =~= inner);
        lemma_parse_members_render(o, mode, d, depth, w, rest, Seq::empty());
        assert(Seq::<(Seq<char>, JsonModel)>::empty() + o =~= o);
        let pre = w + elem_head(mode, d);
        let after = inner.skip(pre.len() as int);
        assert(inner =~= pre + after);
        lemma_indent_ws(d);
        assert(forall|i: int| 0 <= i < pre.len() ==> is_ws_char(#[trigger] pre[i]));
        lemma_skip_ws_concat(pre, after);
        assert(after[0] == '"') by {
            assert(render_pair(o[0].0, o[0].1, mode, d)[0] == '"');
            assert(render_members(o, mode, d)[elem_head(mode, d).len() as int] == render_pair(
                o[0].0,
                o[0].1,
                mode,
                d,
            )[0]);
            assert(inner[pre.len() as int] == render_members(o, mode, d)[elem_head(
                mode,
                d,
            ).len() as int]);
        }
        assert(spec_skip_ws(after) == after);
        assert(spec_skip_ws(inner) == after);
        assert(after.len() <= inner.len());
        assert(after[0] != '}');
        assert(spec_parse_object_body(inner) == Some((JsonModel::Object(o), rest)));
        assert(spec_parse_value(t) == spec_parse_object_body(t.skip(1)));
    }
}

/// Parsing a rendered run of elements, after any whitespace and before
/// its closing bracket, appends exactly those elements.
#[verifier::rlimit(100)]
#[verifier::spinoff_prover]
proof fn lemma_parse_elems_render(
    a: Seq<JsonModel>,
    mode: FmtMode,
    d: nat,
    dp: nat,
    w: Seq<char>,
    rest: Seq<char>,
    acc: Seq<JsonModel>,
)
    requires
        a.len() >= 1,
        forall|i: int| 0 <= i < a.len() ==> wf(#[trigger] a[i]),
        forall|i: int| 0 <= i < w.len() ==> is_ws_char(#[trigger] w[i]),
    ensures
        spec_parse_elems(w + render_elems(a, mode, d) + closing(mode, dp, ']') + rest, acc)
            == Some((acc + a, rest)),
    decreases a, 2int,
{
    let close = closing(mode, dp, ']');
    let t = w + render_elems(a, mode, d) + close + rest;
    let head = elem_head(mode, d) + render(a[0], mode, d);
    lemma_indent_ws(d);
    lemma_render_head(a[0], mode, d);
    if a.len() == 1 {
        assert(render_elems(a, mode, d) == head);
        let tail = close + rest;
        assert(t =~= (w + elem_head(mode, d)) + (render(a[0], mode, d) + tail));
        let pre = w + elem_head(mode, d);
        assert(forall|i: int| 0 <= i < pre.len() ==> is_ws_char(#[trigger] pre[i]));
        assert(tail.len() == 0 || !is_number_char(tail[0])) by {
            match mode {
                FmtMode::Dense => {
                    assert(tail[0] == ']');
                },
                FmtMode::Pretty => {
                    assert(tail[0] == '\n');
                },
            }
        }
        lemma_parse_render(a[0], mode, d, tail);
        lemma_parse_value_ws(pre, render(a[0], mode, d) + tail);
        assert(spec_parse_value(t) == Some((a[0], tail)));
        match mode {
            FmtMode::Dense => {
                assert(tail[0] == ']');
                assert(spec_skip_ws(tail) == tail);
                assert(tail.skip(1) =~= rest);
            },
            FmtMode::Pretty => {
                let wsp = seq!['\n'] + indent(dp);
                assert(tail =~= wsp + (seq![']'] + rest));
                assert(forall|i: int| 0 <= i < wsp.len() ==> is_ws_char(#[trigger] wsp[i])) by {
                    lemma_indent_ws(dp);
                    assert forall|i: int| 0 <= i < wsp.len() implies is_ws_char(
                        #[trigger] wsp[i],
                    ) by {
                        if i >= 1 {
                            assert(wsp[i] == indent(dp)[i - 1]);
                        }
                    }
                }
                lemma_skip_ws_concat(wsp, seq![']'] + rest);
                assert(spec_skip_ws(seq![']'] + rest) == seq![']'] + rest);
                assert(spec_skip_ws(tail) == seq![']'] + rest);
                assert((seq![']'] + rest).skip(1) =~= rest);
            },
        }
        assert(acc.push(a[0]) =~= acc + a);
    } else {
        assert(render_elems(a, mode, d) == head + elem_sep(mode) + render_elems(
            a.drop_first(),
            mode,
            d,
        ));
        let seprest = elem_sep(mode) + (render_elems(a.drop_first(), mode, d) + close + rest);
        let pre = w + elem_head(mode, d);
        assert(t =~= pre + (render(a[0], mode, d) + seprest));
        assert(forall|i: int| 0 <= i < pre.len() ==> is_ws_char(#[trigger] pre[i]));
        assert(seprest[0] == ',');
        lemma_parse_render(a[0], mode, d, seprest);
        lemma_parse_value_ws(pre, render(a[0], mode, d) + seprest);
        assert(spec_parse_value(t) == Some((a[0], seprest)));
        assert(spec_skip_ws(seprest) == seprest);
        assert(seprest.len() <= t.len());
        assert(forall|i: int| 0 <= i < a.drop_first().len() ==> wf(#[trigger] a.drop_first()[i]));
        match mode {
            FmtMode::Dense => {
                lemma_parse_elems_render(
                    a.drop_first(),
                    mode,
                    d,
                    dp,
                    Seq::empty(),
                    rest,
                    acc.push(a[0]),
                );
                assert(seprest.skip(1) =~= Seq::<char>::empty() + render_elems(
                    a.drop_first(),
                    mode,
                    d,
                ) + close + rest);
            },
            FmtMode::Pretty => {
                lemma_parse_elems_render(
                    a.drop_first(),
                    mode,
                    d,
                    dp,
                    seq!['\n'],
                    rest,
                    acc.push(a[0]),
                );
                assert(seprest.skip(1) =~= seq!['\n'] + render_elems(a.drop_first(), mode, d)
                    + close + rest);
            },
        }
        assert(acc.push(a[0]) + a.drop_first() =~= acc + a);
    }
}

/// Parsing one rendered member, after any whitespace, gives back its
/// key and value, with the text after the value untouched.
#[verifier::rlimit(100)]
#[verifier::spinoff_prover]
#[verifier::rlimit(100)]
#[verifier::spinoff_prover]
proof fn lemma_parse_member_front(
    key: Seq<char>,
    rv: Seq<char>,
    pre: Seq<char>,
    wsp: Seq<char>,
    tail: Seq<char>,
)
    requires
        forall|i: int| 0 <= i < pre.len() ==> is_ws_char(#[trigger] pre[i]),
        forall|i: int| 0 <= i < wsp.len() ==> is_ws_char(#[trigger] wsp[i]),
    ensures
        ({
            let t = pre + (seq!['"'] + (escape_string(key) + (seq!['"'] + (seq![':'] + (wsp + (rv
                + tail))))));
            spec_parse_member(t) == (match spec_parse_value(rv + tail) {
                Some((vv, r2)) => Some(((key, vv), r2)),
                None => None,
            })
        }),
{
    let after_ws = seq!['"'] + (escape_string(key) + (seq!['"'] + (seq![':'] + (wsp + (rv
        + tail)))));
    let t = pre + after_ws;
    lemma_skip_ws_concat(pre, after_ws);
    assert(after_ws[0] == '"');
    assert(spec_skip_ws(after_ws) == after_ws);
    assert(after_ws.len() <= t.len());
    // the key string
    let r = seq![':'] + (wsp + (rv + tail));
    assert(after_ws.skip(1) =~= escape_string(key) + seq!['"'] + r);
    lemma_parse_escaped(key, r);
    assert(spec_parse_string_body(after_ws.skip(1)) == Some((key, r)));
    // the colon
    assert(r[0] == ':');
    assert(spec_skip_ws(r) == r);
    assert(r.len() <= t.len());
    // the value stands behind the colon and any single space
    assert(r.skip(1) =~= wsp + (rv + tail));
    lemma_parse_value_ws(wsp, rv + tail);
    assert(spec_parse_value(r.skip(1)) == spec_parse_value(rv + tail));
}

/// Parsing one rendered member, after any whitespace, gives back its
/// key and value, with the text after the value untouched.
#[verifier::rlimit(100)]
#[verifier::spinoff_prover]
proof fn lemma_parse_member_render(
    key: Seq<char>,
    val: JsonModel,
    mode: FmtMode,
    d: nat,
    w: Seq<char>,
    tail: Seq<char>,
)
    requires
        wf(val),
        tail.len() == 0 || !is_number_char(tail[0]),
        forall|i: int| 0 <= i < w.len() ==> is_ws_char(#[trigger] w[i]),
    ensures
        spec_parse_member(w + elem_head(mode, d) + render_pair(key, val, mode, d) + tail) == Some(
            ((key, val), tail),
        ),
    decreases val, 3int,
{
    let rv = render(val, mode, d);
    let wsp: Seq<char> = match mode {
        FmtMode::Dense => Seq::empty(),
        FmtMode::Pretty => seq![' '],
    };
    let pre = w + elem_head(mode, d);
    lemma_indent_ws(d);
    assert(forall|i: int| 0 <= i < pre.len() ==> is_ws_char(#[trigger] pre[i]));
    lemma_parse_member_front(key, rv, pre, wsp, tail);
    lemma_parse_render(val, mode, d, tail);
    assert(w + elem_head(mode, d) + render_pair(key, val, mode, d) + tail =~= pre + (seq!['"'] + (
    escape_string(key) + (seq!['"'] + (seq![':'] + (wsp + (rv + tail)))))));
}

/// Parsing a rendered run of members, after any whitespace and before
/// its closing brace, appends exactly those members.
#[verifier::rlimit(100)]
#[verifier::spinoff_prover]
proof fn lemma_parse_members_render(
    o: Seq<(Seq<char>, JsonModel)>,
    mode: FmtMode,
    d: nat,
    dp: nat,
    w: Seq<char>,
    rest: Seq<char>,
    acc: Seq<(Seq<char>, JsonModel)>,
)
    requires
        o.len() >= 1,
        forall|i: int| 0 <= i < o.len() ==> wf(#[trigger] o[i].1),
        forall|i: int| 0 <= i < w.len() ==> is_ws_char(#[trigger] w[i]),
    ensures
        spec_parse_members(w + render_members(o, mode, d) + closing(mode, dp, '}') + rest, acc)
            == Some((acc + o, rest)),
    decreases o, 2int,
{
    let close = closing(mode, dp, '}');
    let t = w + render_members(o, mode, d) + close + rest;
    let key = o[0].0;
    let val = o[0].1;
    let head = elem_head(mode, d) + render_pair(key, val, mode, d);
    let tail: Seq<char> = if o.len() == 1 {
        close + rest
    } else {
        elem_sep(mode) + (render_members(o.drop_first(), mode, d) + close + rest)
    };
    assert(tail.len() == 0 || !is_number_char(tail[0])) by {
        if o.len() == 1 {
            match mode {
                FmtMode::Dense => {
                    assert(tail[0] == '}');
                },
                FmtMode::Pretty => {
                    assert(tail[0] == '\n');
                },
            }
        } else {
            assert(tail[0] == ',');
        }
    }
    if o.len() == 1 {
        assert(render_members(o, mode, d) == head);
    } else {
        assert(render_members(o, mode, d) == head + elem_sep(mode) + render_members(
            o.drop_first(),
            mode,
            d,
        ));
    }
    assert(t =~= w + elem_head(mode, d) + render_pair(key, val, mode, d) + tail);
    lemma_parse_member_render(key, val, mode, d, w, tail);
    assert(spec_parse_member(t) == Some(((key, val), tail)));
    // the separator or the closing brace
    if o.len() == 1 {
        match mode {
            FmtMode::Dense => {
                assert(tail[0] == '}');
                assert(spec_skip_ws(tail) == tail);
                assert(tail.skip(1) =~= rest);
            },
            FmtMode::Pretty => {
                let wsp2 = seq!['\n'] + indent(dp);
                assert(tail =~= wsp2 + (seq!['}'] + rest));
                assert(forall|i: int| 0 <= i < wsp2.len() ==> is_ws_char(#[trigger] wsp2[i])) by {
                    lemma_indent_ws(dp);
                    assert forall|i: int| 0 <= i < wsp2.len() implies is_ws_char(
                        #[trigger] wsp2[i],
                    ) by {
                        if i >= 1 {
                            assert(wsp2[i] == indent(dp)[i - 1]);
                        }
                    }
                }
                lemma_skip_ws_concat(wsp2, seq!['}'] + rest);
                assert(spec_skip_ws(seq!['}'] + rest) == seq!['}'] + rest);
                assert(spec_skip_ws(tail) == seq!['}'] + rest);
                assert((seq!['}'] + rest).skip(1) =~= rest);
            },
        }
        assert(acc.push((key, val)) =~= acc + o);
    } else {
        assert(tail[0] == ',');
        assert(spec_skip_ws(tail) == tail);
        assert(tail.len() <= t.len());
        assert(forall|i: int| 0 <= i < o.drop_first().len() ==> wf(
            #[trigger] o.drop_first()[i].1,
        ));
        match mode {
            FmtMode::Dense => {
                lemma_parse_members_render(
                    o.drop_first(),
                    mode,
                    d,
                    dp,
                    Seq::empty(),
                    rest,
                    acc.push((key, val)),
                );
                assert(tail.skip(1) =~= Seq::<char>::empty() + render_members(
                    o.drop_first(),
                    mode,
                    d,
                ) + close + rest);
            },
            FmtMode::Pretty => {
                lemma_parse_members_render(
                    o.drop_first(),
                    mode,
                    d,
                    dp,
                    seq!['\n'],
                    rest,
                    acc.push((key, val)),
                );
                assert(tail.skip(1) =~= seq!['\n'] + render_members(o.drop_first(), mode, d)
                    + close + rest);
            },
        }
        assert(acc.push((key, val)) + o.drop_first() =~= acc + o);
    }
}

// ---------------------------------------------------------------------
// Parsing yields well-formed trees
// ---------------------------------------------------------------------

/// Whatever the parser accepts is well formed.
proof fn lemma_parse_value_wf(s: Seq<char>)
    ensures
        spec_parse_value(s) matches Some((v, r)) ==> wf(v),
    decreases s.len(), 1int,
{
    if s.len() == 0 {
    } else if is_ws_char(s[0]) {
        lemma_parse_value_wf(s.skip(1));
    } else if s[0] == '{' {
        lemma_parse_object_body_wf(s.skip(1));
    } else if s[0] == '[' {
        lemma_parse_array_body_wf(s.skip(1));
    } else {
    }
}

proof fn lemma_parse_array_body_wf(s: Seq<char>)
    ensures
        spec_parse_array_body(s) matches Some((v, r)) ==> wf(v),
    decreases s.len(), 4int,
{
    let s1 = spec_skip_ws(s);
    if s1.len() > 0 && s1[0] == ']' {
    } else if s1.len() <= s.len() {
        lemma_parse_elems_wf(s, Seq::empty());
    }
}

proof fn lemma_parse_elems_wf(s: Seq<char>, acc: Seq<JsonModel>)
    requires
        forall|i: int| 0 <= i < acc.len() ==> wf(#[trigger] acc[i]),
    ensures
        spec_parse_elems(s, acc) matches Some((a, r)) ==> forall|i: int|
            0 <= i < a.len() ==> wf(#[trigger] a[i]),
    decreases s.len(), 2int,
{
    lemma_parse_value_wf(s);
    if let Some((v, r)) = spec_parse_value(s) {
        let r1 = spec_skip_ws(r);
        if r1.len() > 0 && r1[0] == ',' {
            if r1.len() <= s.len() {
                assert(forall|i: int| 0 <= i < acc.push(v).len() ==> wf(#[trigger] acc.push(v)[i]));
                lemma_parse_elems_wf(r1.skip(1), acc.push(v));
            }
        } else if r1.len() > 0 && r1[0] == ']' {
            assert(forall|i: int| 0 <= i < acc.push(v).len() ==> wf(#[trigger] acc.push(v)[i]));
        }
    }
}

proof fn lemma_parse_object_body_wf(s: Seq<char>)
    ensures
        spec_parse_object_body(s) matches Some((v, r)) ==> wf(v),
    decreases s.len(), 4int,
{
    let s1 = spec_skip_ws(s);
    if s1.len() > 0 && s1[0] == '}' {
    } else if s1.len() <= s.len() {
        lemma_parse_members_wf(s, Seq::empty());
    }
}

proof fn lemma_parse_member_wf(s: Seq<char>)
    ensures
        spec_parse_member(s) matches Some(((k, v), r)) ==> wf(v),
    decreases s.len(), 2int,
{
    let s1 = spec_skip_ws(s);
    if s1.len() > 0 && s1[0] == '"' && s1.len() <= s.len() {
        if let Some((k, r)) = spec_parse_string_body(s1.skip(1)) {
            let r1 = spec_skip_ws(r);
            if r1.len() > 0 && r1[0] == ':' && r1.len() <= s.len() {
                lemma_parse_value_wf(r1.skip(1));
            }
        }
    }
}

proof fn lemma_parse_members_wf(s: Seq<char>, acc: Seq<(Seq<char>, JsonModel)>)
    requires
        forall|i: int| 0 <= i < acc.len() ==> wf(#[trigger] acc[i].1),
    ensures
        spec_parse_members(s, acc) matches Some((o, r)) ==> forall|i: int|
            0 <= i < o.len() ==> wf(#[trigger] o[i].1),
    decreases s.len(), 3int,
{
    lemma_parse_member_wf(s);
    if let Some(((k, v), r2)) = spec_parse_member(s) {
        let r3 = spec_skip_ws(r2);
        if r3.len() > 0 && r3[0] == ',' {
            if r3.len() <= s.len() {
                assert(forall|i: int| 0 <= i < acc.push((k, v)).len() ==> wf(
                    #[trigger] acc.push((k, v))[i].1,
                ));
                lemma_parse_members_wf(r3.skip(1), acc.push((k, v)));
            }
        } else if r3.len() > 0 && r3[0] == '}' {
            assert(forall|i: int| 0 <= i < acc.push((k, v)).len() ==> wf(
                #[trigger] acc.push((k, v))[i].1,
            ));
        }
    }
}

/// Every tree the parser returns for a whole document is well formed.
pub proof fn lemma_parse_json_wf(s: Seq<char>)
    ensures
        spec_parse_json(s) matches Some(v) ==> wf(v),
{
    lemma_parse_value_wf(s);
}

// ---------------------------------------------------------------------
// The laws
// ---------------------------------------------------------------------

/// Rendering a well-formed tree densely and parsing the text back
/// gives exactly that tree.
pub proof fn lemma_dense_round_trip(v: JsonModel)
    requires
        wf(v),
    ensures
        spec_parse_json(render_doc(v, FmtMode::Dense)) == Some(v),
{
    lemma_parse_render(v, FmtMode::Dense, 0, Seq::empty());
    assert(render(v, FmtMode::Dense, 0) + Seq::<char>::empty() =~= render_doc(
        v,
        FmtMode::Dense,
    ));
    assert(spec_parse_value(render_doc(v, FmtMode::Dense)) == Some((v, Seq::<char>::empty())));
}

/// A value parsed from any valid document survives a dense render and
/// re-parse unchanged, order of arrays and objects included.
pub proof fn lemma_dense_round_trip_of_parsed(s: Seq<char>, v: JsonModel)
    requires
        spec_parse_json(s) == Some(v),
    ensures
        spec_parse_json(render_doc(v, FmtMode::Dense)) == Some(v),
{
    lemma_parse_json_wf(s);
    lemma_dense_round_trip(v);
}

/// Rendering a well-formed tree prettily and parsing the text back
/// gives exactly that tree.
pub proof fn lemma_pretty_round_trip(v: JsonModel)
    requires
        wf(v),
    ensures
        spec_parse_json(render_doc(v, FmtMode::Pretty)) == Some(v),
{
    lemma_parse_render(v, FmtMode::Pretty, 0, seq!['\n']);
    assert(render(v, FmtMode::Pretty, 0) + seq!['\n'] =~= render_doc(v, FmtMode::Pretty));
    assert(seq!['\n'].skip(1) =~= Seq::<char>::empty());
    assert(spec_skip_ws(Seq::<char>::empty()) == Seq::<char>::empty());
    assert(spec_skip_ws(seq!['\n']) == spec_skip_ws(Seq::<char>::empty()));
}

/// Pretty-rendering, re-parsing, and pretty-rendering again gives the
/// same text as the first pretty rendering.
pub proof fn lemma_pretty_idempotence(s: Seq<char>, v: JsonModel, w: JsonModel)
    requires
        spec_parse_json(s) == Some(v),
        spec_parse_json(render_doc(v, FmtMode::Pretty)) == Some(w),
    ensures
        w == v,
        render_doc(w, FmtMode::Pretty) == render_doc(v, FmtMode::Pretty),
{
    lemma_parse_json_wf(s);
    lemma_pretty_round_trip(v);
}

/// Resolution is a pure function of the tree and the path: two
/// resolutions of an unmodified tree give the same answer.
pub proof fn lemma_resolve_deterministic(
    v: JsonModel,
    path: Seq<char>,
    r1: Result<JsonModel, PathErrModel>,
    r2: Result<JsonModel, PathErrModel>,
)
    requires
        r1 == spec_resolve(v, path),
        r2 == spec_resolve(v, path),
    ensures
        r1 == r2,
{
}

/// Key lookup takes the first matching pair in document order, also
/// when a later pair carries the same key.
pub proof fn lemma_first_match_wins(o: Seq<(Seq<char>, JsonModel)>, k: Seq<char>, i: int)
    requires
        0 <= i < o.len(),
        o[i].0 == k,
        forall|j: int| 0 <= j < i ==> o[j].0 != k,
    ensures
        spec_step(JsonModel::Object(o), StepModel::Key(k)) == Ok::<JsonModel, PathErrModel>(
            o[i].1,
        ),
{
    lemma_first_key_index_spec(o, k);
    let f = first_key_index(o, k);
    if f < i {
        assert(o[f].0 == k);
    }
    if f > i {
        assert(o[i].0 != k);
    }
}

/// Replacing below one array index leaves the length and every other
/// element exactly as they were.
pub proof fn lemma_set_isolates_array(
    a: Seq<JsonModel>,
    i: int,
    steps: Seq<StepModel>,
    nv: JsonModel,
)
    requires
        steps.len() >= 1,
        steps[0] == StepModel::Index(i),
        0 <= i < a.len(),
    ensures
        spec_set(JsonModel::Array(a), steps, nv) == JsonModel::Array(
            a.update(i, spec_set(a[i], steps.drop_first(), nv)),
        ),
        a.update(i, spec_set(a[i], steps.drop_first(), nv)).len() == a.len(),
        forall|j: int| 0 <= j < a.len() && j != i ==> a.update(
            i,
            spec_set(a[i], steps.drop_first(), nv),
        )[j] == a[j],
{
}

/// Replacing below one object key leaves every other pair, and the
/// matched pair's key, exactly as they were.
pub proof fn lemma_set_isolates_object(
    o: Seq<(Seq<char>, JsonModel)>,
    k: Seq<char>,
    steps: Seq<StepModel>,
    nv: JsonModel,
)
    requires
        steps.len() >= 1,
        steps[0] == StepModel::Key(k),
        first_key_index(o, k) < o.len(),
    ensures
        ({
            let f = first_key_index(o, k);
            let b = o.update(f, (o[f].0, spec_set(o[f].1, steps.drop_first(), nv)));
            spec_set(JsonModel::Object(o), steps, nv) == JsonModel::Object(b) && b.len()
                == o.len() && (forall|j: int| 0 <= j < o.len() && j != f ==> b[j] == o[j]) && b[f].0
                == o[f].0
        }),
{
    lemma_first_key_index_spec(o, k);
}

} // verus!
