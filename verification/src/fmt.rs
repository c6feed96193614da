//! The two renderers: dense (no whitespace at all) and pretty (newline
//! and two-space indentation per nesting level, one trailing newline at
//! the top). Both are proved to emit exactly what the rendering spec
//! functions of [`crate::model`] say.

use vstd::prelude::*;
use vstd::string::StrSliceExecFns;
use crate::model::{
    escape_char, escape_string, hex_digit_char, indent, render, render_doc, render_elems,
    render_members, render_pair, elem_head, elem_sep, FmtMode, JsonModel,
};
use crate::text::chars_to_string;
use crate::value::{elems_view, pairs_view, JsonValue};

verus! {

/// The hexadecimal digit for `n < 16`, lower case.
fn hex_digit(n: u32) -> (r: char)
    requires
        n < 16,
    ensures
        r == hex_digit_char(n as nat),
{
    match n {
        0 => '0',
        1 => '1',
        2 => '2',
        3 => '3',
        4 => '4',
        5 => '5',
        6 => '6',
        7 => '7',
        8 => '8',
        9 => '9',
        10 => 'a',
        11 => 'b',
        12 => 'c',
        13 => 'd',
        14 => 'e',
        _ => 'f',
    }
}

/// Writes one character of string content, escaped as the output
/// grammar asks.
fn push_escaped_char(out: &mut Vec<char>, c: char)
    ensures
        final(out)@ == old(out)@ + escape_char(c),
{
    if c == '"' {
        out.push('\\');
        out.push('"');
    } else if c == '\\' {
        out.push('\\');
        out.push('\\');
    } else if c == '\n' {
        out.push('\\');
        out.push('n');
    } else if c == '\r' {
        out.push('\\');
        out.push('r');
    } else if c == '\t' {
        out.push('\\');
        out.push('t');
    } else if c == '\u{8}' {
        out.push('\\');
        out.push('b');
    } else if c == '\u{c}' {
        out.push('\\');
        out.push('f');
    } else if (c as u32) < 0x20 {
        let x = c as u32;
        out.push('\\');
        out.push('u');
        out.push('0');
        out.push('0');
        out.push(hex_digit(x / 16));
        out.push(hex_digit(x % 16));
        proof {
            assert(out@ =~= old(out)@ + escape_char(c));
        }
        return ;
    } else {
        out.push(c);
        proof {
            assert(out@ =~= old(out)@ + escape_char(c));
        }
        return ;
    }
    proof {
        assert(out@ =~= old(out)@ + escape_char(c));
    }
}

/// Writes the content characters of `s` from position `i` on, escaped.
fn push_escaped_from(out: &mut Vec<char>, s: &str, i: usize)
    requires
        i <= s@.len(),
    ensures
        final(out)@ == old(out)@ + escape_string(s@.skip(i as int)),
    decreases s@.len() - i,
{
    let n = s.unicode_len();
    if i < n {
        push_escaped_char(out, s.get_char(i));
        push_escaped_from(out, s, i + 1);
        proof {
            assert(s@.skip(i as int).skip(1) =~= s@.skip(i + 1));
            assert(old(out)@ + escape_char(s@[i as int]) + escape_string(s@.skip(i + 1)) =~= old(
                out,
            )@ + escape_string(s@.skip(i as int)));
        }
    } else {
        proof {
            assert(s@.skip(i as int) =~= Seq::<char>::empty());
            assert(out@ =~= old(out)@ + escape_string(s@.skip(i as int)));
        }
    }
}

/// Writes `s` as one string literal: quoted and escaped.
fn push_quoted(out: &mut Vec<char>, s: &str)
    ensures
        final(out)@ == old(out)@ + seq!['"'] + escape_string(s@) + seq!['"'],
{
    out.push('"');
    push_escaped_from(out, s, 0);
    out.push('"');
    proof {
        assert(s@.skip(0) =~= s@);
        assert(out@ =~= old(out)@ + seq!['"'] + escape_string(s@) + seq!['"']);
    }
}

/// Writes the characters of `s` as they stand.
fn push_str_chars(out: &mut Vec<char>, s: &str)
    ensures
        final(out)@ == old(out)@ + s@,
{
    let n = s.unicode_len();
    let mut i: usize = 0;
    while i < n
        invariant
            n == s@.len(),
            i <= n,
            out@ == old(out)@ + s@.take(i as int),
        decreases n - i,
    {
        out.push(s.get_char(i));
        proof {
            assert(old(out)@ + s@.take(i + 1) =~= (old(out)@ + s@.take(i as int)).push(
                s@[i as int],
            ));
        }
        i = i + 1;
    }
    proof {
        assert(s@.take(n as int) =~= s@);
    }
}

/// Writes a copy of `src` (the current indentation) into `out`.
fn push_copy(out: &mut Vec<char>, src: &Vec<char>)
    ensures
        final(out)@ == old(out)@ + src@,
{
    let n = src.len();
    let mut i: usize = 0;
    while i < n
        invariant
            n == src@.len(),
            i <= n,
            out@ == old(out)@ + src@.take(i as int),
        decreases n - i,
    {
        out.push(src[i]);
        proof {
            assert(old(out)@ + src@.take(i + 1) =~= (old(out)@ + src@.take(i as int)).push(
                src@[i as int],
            ));
        }
        i = i + 1;
    }
    proof {
        assert(src@.take(n as int) =~= src@);
    }
}

/// Writes one value. `ind` is the indentation of the current depth and
/// is given back unchanged.
fn fmt_value(v: &JsonValue, mode: FmtMode, ind: &mut Vec<char>, Ghost(depth): Ghost<nat>, out:
    &mut Vec<char>)
    requires
        old(ind)@ == indent(depth),
    ensures
        final(out)@ == old(out)@ + render(v@, mode, depth),
        final(ind)@ == old(ind)@,
    decreases v, 1int,
{
    match v {
        JsonValue::String(s) => {
            push_quoted(out, s.as_str());
        },
        JsonValue::Number(s) => {
            push_str_chars(out, s.as_str());
        },
        JsonValue::Bool(b) => {
            if *b {
                push_str_chars(out, "true");
                proof {
                    reveal_strlit("true");
                    assert("true"@ =~= seq!['t', 'r', 'u', 'e']);
                }
            } else {
                push_str_chars(out, "false");
                proof {
                    reveal_strlit("false");
                    assert("false"@ =~= seq!['f', 'a', 'l', 's', 'e']);
                }
            }
        },
        JsonValue::Null => {
            push_str_chars(out, "null");
            proof {
                reveal_strlit("null");
                assert("null"@ =~= seq!['n', 'u', 'l', 'l']);
            }
        },
        JsonValue::Array(a) => {
            out.push('[');
            if a.len() == 0 {
                out.push(']');
                proof {
                    assert(out@ =~= old(out)@ + seq!['[', ']']);
                }
            } else {
                match mode {
                    FmtMode::Dense => {
                        fmt_elems(a, 0, mode, ind, Ghost(depth), out);
                        out.push(']');
                        proof {
                            assert(elems_view(a@).skip(0) =~= elems_view(a@));
                            assert(out@ =~= old(out)@ + (seq!['['] + render_elems(
                                elems_view(a@),
                                mode,
                                depth,
                            ) + seq![']']));
                        }
                    },
                    FmtMode::Pretty => {
                        out.push('\n');
                        ind.push(' ');
                        ind.push(' ');
                        proof {
                            assert(ind@ =~= indent(depth + 1));
                        }
                        fmt_elems(a, 0, mode, ind, Ghost(depth + 1), out);
                        ind.pop();
                        ind.pop();
                        proof {
                            assert(ind@ =~= indent(depth));
                        }
                        out.push('\n');
                        push_copy(out, ind);
                        out.push(']');
                        proof {
                            assert(elems_view(a@).skip(0) =~= elems_view(a@));
                            assert(out@ =~= old(out)@ + (seq!['[', '\n'] + render_elems(
                                elems_view(a@),
                                mode,
                                depth + 1,
                            ) + seq!['\n'] + indent(depth) + seq![']']));
                        }
                    },
                }
            }
        },
        JsonValue::Object(o) => {
            out.push('{');
            if o.len() == 0 {
                out.push('}');
                proof {
                    assert(out@ =~= old(out)@ + seq!['{', '}']);
                }
            } else {
                match mode {
                    FmtMode::Dense => {
                        fmt_members(o, 0, mode, ind, Ghost(depth), out);
                        out.push('}');
                        proof {
                            assert(pairs_view(o@).skip(0) =~= pairs_view(o@));
                            assert(out@ =~= old(out)@ + (seq!['{'] + render_members(
                                pairs_view(o@),
                                mode,
                                depth,
                            ) + seq!['}']));
                        }
                    },
                    FmtMode::Pretty => {
                        out.push('\n');
                        ind.push(' ');
                        ind.push(' ');
                        proof {
                            assert(ind@ =~= indent(depth + 1));
                        }
                        fmt_members(o, 0, mode, ind, Ghost(depth + 1), out);
                        ind.pop();
                        ind.pop();
                        proof {
                            assert(ind@ =~= indent(depth));
                        }
                        out.push('\n');
                        push_copy(out, ind);
                        out.push('}');
                        proof {
                            assert(pairs_view(o@).skip(0) =~= pairs_view(o@));
                            assert(out@ =~= old(out)@ + (seq!['{', '\n'] + render_members(
                                pairs_view(o@),
                                mode,
                                depth + 1,
                            ) + seq!['\n'] + indent(depth) + seq!['}']));
                        }
                    },
                }
            }
        },
    }
}

/// Writes the array elements from position `i` on, separated as the
/// mode asks.
fn fmt_elems(a: &Vec<JsonValue>, i: usize, mode: FmtMode, ind: &mut Vec<char>, Ghost(depth):
    Ghost<nat>, out: &mut Vec<char>)
    requires
        i < a@.len(),
        old(ind)@ == indent(depth),
    ensures
        final(out)@ == old(out)@ + render_elems(elems_view(a@).skip(i as int), mode, depth),
        final(ind)@ == old(ind)@,
    decreases a, a@.len() - i,
{
    let ghost es = elems_view(a@).skip(i as int);
    if let FmtMode::Pretty = mode {
        push_copy(out, ind);
    }
    fmt_value(&a[i], mode, ind, Ghost(depth), out);
    if a.len() - i > 1 {
        match mode {
            FmtMode::Dense => {
                out.push(',');
            },
            FmtMode::Pretty => {
                out.push(',');
                out.push('\n');
            },
        }
        fmt_elems(a, i + 1, mode, ind, Ghost(depth), out);
        proof {
            assert(es.drop_first() =~= elems_view(a@).skip(i + 1));
            assert(out@ =~= old(out)@ + (elem_head(mode, depth) + render(
                a@[i as int]@,
                mode,
                depth,
            ) + elem_sep(mode) + render_elems(es.drop_first(), mode, depth)));
        }
    } else {
        proof {
            assert(es.len() == 1);
            assert(out@ =~= old(out)@ + (elem_head(mode, depth) + render(
                a@[i as int]@,
                mode,
                depth,
            )));
        }
    }
}

/// Writes the object members from position `i` on.
fn fmt_members(o: &Vec<(String, JsonValue)>, i: usize, mode: FmtMode, ind: &mut Vec<char>, Ghost(
    depth,
): Ghost<nat>, out: &mut Vec<char>)
    requires
        i < o@.len(),
        old(ind)@ == indent(depth),
    ensures
        final(out)@ == old(out)@ + render_members(pairs_view(o@).skip(i as int), mode, depth),
        final(ind)@ == old(ind)@,
    decreases o, o@.len() - i,
{
    let ghost ms = pairs_view(o@).skip(i as int);
    if let FmtMode::Pretty = mode {
        push_copy(out, ind);
    }
    push_quoted(out, o[i].0.as_str());
    out.push(':');
    if let FmtMode::Pretty = mode {
        out.push(' ');
    }
    fmt_value(&o[i].1, mode, ind, Ghost(depth), out);
    if o.len() - i > 1 {
        match mode {
            FmtMode::Dense => {
                out.push(',');
            },
            FmtMode::Pretty => {
                out.push(',');
                out.push('\n');
            },
        }
        fmt_members(o, i + 1, mode, ind, Ghost(depth), out);
        proof {
            assert(ms.drop_first() =~= pairs_view(o@).skip(i + 1));
            assert(out@ =~= old(out)@ + (elem_head(mode, depth) + render_pair(
                o@[i as int].0@,
                o@[i as int].1@,
                mode,
                depth,
            ) + elem_sep(mode) + render_members(ms.drop_first(), mode, depth)));
        }
    } else {
        proof {
            assert(ms.len() == 1);
            assert(out@ =~= old(out)@ + (elem_head(mode, depth) + render_pair(
                o@[i as int].0@,
                o@[i as int].1@,
                mode,
                depth,
            )));
        }
    }
}

impl JsonValue {
    /// This tree in the dense layout: no whitespace anywhere.
    pub fn fmt_dense(&self) -> (r: String)
        ensures
            r@ == render_doc(self@, FmtMode::Dense),
    {
        let mut out: Vec<char> = Vec::new();
        let mut ind: Vec<char> = Vec::new();
        proof {
            assert(ind@ =~= indent(0));
        }
        fmt_value(self, FmtMode::Dense, &mut ind, Ghost(0nat), &mut out);
        chars_to_string(&out)
    }

    /// This tree in the pretty layout: each child on its own line, two
    /// spaces of indentation per level, one trailing newline.
    pub fn fmt_pretty(&self) -> (r: String)
        ensures
            r@ == render_doc(self@, FmtMode::Pretty),
    {
        let mut out: Vec<char> = Vec::new();
        let mut ind: Vec<char> = Vec::new();
        proof {
            assert(ind@ =~= indent(0));
        }
        fmt_value(self, FmtMode::Pretty, &mut ind, Ghost(0nat), &mut out);
        out.push('\n');
        chars_to_string(&out)
    }
}

} // verus!
