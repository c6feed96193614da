//! The executable parser: strict recursive descent over the characters
//! of the document, proved to return exactly what the spec-level
//! parser of [`crate::spec_parse`] says, value and rest alike.

use vstd::prelude::*;
use crate::model::{
    is_digit_char, is_hex_char, is_number_char, is_number_lit, is_ws_char, hex_val, num_run,
    num_step, JsonModel, NumState,
};
use crate::spec_parse::{
    esc_simple, has_prefix, hex4_val, is_hex4, num_chunk_len, spec_parse_array_body,
    spec_parse_elems, spec_parse_json, spec_parse_member, spec_parse_members,
    spec_parse_object_body, spec_parse_string_body, spec_parse_value, spec_skip_ws,
};
use crate::text::{char_from_u32, chars_to_string, str_to_chars};
use crate::value::{elems_view, pairs_view, JsonValue, ParseError};

verus! {

fn is_ws(c: char) -> (b: bool)
    ensures
        b == is_ws_char(c),
{
    c == ' ' || c == '\t' || c == '\n' || c == '\r'
}

fn is_digit(c: char) -> (b: bool)
    ensures
        b == is_digit_char(c),
{
    '0' <= c && c <= '9'
}

fn is_num_char(c: char) -> (b: bool)
    ensures
        b == is_number_char(c),
{
    is_digit(c) || c == '.' || c == 'e' || c == 'E' || c == '+' || c == '-'
}

fn is_hex(c: char) -> (b: bool)
    ensures
        b == is_hex_char(c),
{
    is_digit(c) || ('a' <= c && c <= 'f') || ('A' <= c && c <= 'F')
}

fn hex_val_of(c: char) -> (r: u32)
    requires
        is_hex_char(c),
    ensures
        r == hex_val(c),
        r < 16,
{
    if '0' <= c && c <= '9' {
        (c as u32) - ('0' as u32)
    } else if 'a' <= c && c <= 'f' {
        (c as u32) - ('a' as u32) + 10
    } else {
        (c as u32) - ('A' as u32) + 10
    }
}

/// The position after the whitespace that starts at `pos`.
fn skip_ws_pos(v: &Vec<char>, pos: usize) -> (r: usize)
    requires
        pos <= v@.len(),
    ensures
        pos <= r <= v@.len(),
        spec_skip_ws(v@.skip(pos as int)) == v@.skip(r as int),
        r < v@.len() ==> !is_ws_char(v@[r as int]),
    decreases v@.len() - pos,
{
    if pos < v.len() && is_ws(v[pos]) {
        let r = skip_ws_pos(v, pos + 1);
        proof {
            assert(v@.skip(pos as int).skip(1) =~= v@.skip(pos + 1));
        }
        r
    } else {
        proof {
            if pos < v@.len() {
            } else {
                assert(v@.skip(pos as int).len() == 0);
            }
        }
        pos
    }
}

/// The length of the run of number characters starting at `pos`.
fn num_chunk_end(v: &Vec<char>, pos: usize) -> (r: usize)
    requires
        pos <= v@.len(),
    ensures
        pos <= r <= v@.len(),
        num_chunk_len(v@.skip(pos as int)) == r - pos,
    decreases v@.len() - pos,
{
    if pos < v.len() && is_num_char(v[pos]) {
        let r = num_chunk_end(v, pos + 1);
        proof {
            assert(v@.skip(pos as int).skip(1) =~= v@.skip(pos + 1));
        }
        r
    } else {
        pos
    }
}

/// Runs the number automaton over `v[from..to]` and says whether that
/// slice is one complete number literal.
fn check_number(v: &Vec<char>, from: usize, to: usize) -> (r: bool)
    requires
        from <= to <= v@.len(),
    ensures
        r == is_number_lit(v@.subrange(from as int, to as int)),
{
    let ghost chunk = v@.subrange(from as int, to as int);
    proof {
        assert(chunk.skip(0) =~= chunk);
    }
    let mut st = NumState::Start;
    let mut i: usize = from;
    while i < to
        invariant
            from <= i <= to <= v@.len(),
            chunk == v@.subrange(from as int, to as int),
            num_run(NumState::Start, chunk) == num_run(st, chunk.skip(i - from)),
        decreases to - i,
    {
        let c = v[i];
        proof {
            assert(chunk.skip(i - from)[0] == c);
            assert(chunk.skip(i - from).skip(1) =~= chunk.skip(i + 1 - from));
        }
        let next = match st {
            NumState::Start => {
                if c == '-' {
                    Some(NumState::Minus)
                } else if c == '0' {
                    Some(NumState::IntZero)
                } else if is_digit(c) {
                    Some(NumState::IntDigits)
                } else {
                    None
                }
            },
            NumState::Minus => {
                if c == '0' {
                    Some(NumState::IntZero)
                } else if is_digit(c) {
                    Some(NumState::IntDigits)
                } else {
                    None
                }
            },
            NumState::IntZero => {
                if c == '.' {
                    Some(NumState::Dot)
                } else if c == 'e' || c == 'E' {
                    Some(NumState::Exp)
                } else {
                    None
                }
            },
            NumState::IntDigits => {
                if is_digit(c) {
                    Some(NumState::IntDigits)
                } else if c == '.' {
                    Some(NumState::Dot)
                } else if c == 'e' || c == 'E' {
                    Some(NumState::Exp)
                } else {
                    None
                }
            },
            NumState::Dot => {
                if is_digit(c) {
                    Some(NumState::Frac)
                } else {
                    None
                }
            },
            NumState::Frac => {
                if is_digit(c) {
                    Some(NumState::Frac)
                } else if c == 'e' || c == 'E' {
                    Some(NumState::Exp)
                } else {
                    None
                }
            },
            NumState::Exp => {
                if c == '+' || c == '-' {
                    Some(NumState::ExpSign)
                } else if is_digit(c) {
                    Some(NumState::ExpDigits)
                } else {
                    None
                }
            },
            NumState::ExpSign => {
                if is_digit(c) {
                    Some(NumState::ExpDigits)
                } else {
                    None
                }
            },
            NumState::ExpDigits => {
                if is_digit(c) {
                    Some(NumState::ExpDigits)
                } else {
                    None
                }
            },
        };
        proof {
            assert(next == num_step(st, c));
        }
        match next {
            Some(st2) => {
                st = st2;
            },
            None => {
                return false;
            },
        }
        i = i + 1;
    }
    proof {
        assert(chunk.skip(to - from).len() == 0);
    }
    match st {
        NumState::IntZero => true,
        NumState::IntDigits => true,
        NumState::Frac => true,
        NumState::ExpDigits => true,
        _ => false,
    }
}

/// The interior of a string literal, entered just after the opening
/// quote: the decoded content and the position after the closing
/// quote.
fn parse_string_body(v: &Vec<char>, pos: usize) -> (r: Result<(Vec<char>, usize), ParseError>)
    requires
        pos <= v@.len(),
    ensures
        r matches Ok((t, p)) ==> pos <= p <= v@.len() && spec_parse_string_body(
            v@.skip(pos as int),
        ) == Some((t@, v@.skip(p as int))),
        r is Err ==> spec_parse_string_body(v@.skip(pos as int)) is None,
    decreases v@.len() - pos, 1int,
{
    if pos >= v.len() {
        return Err(ParseError { pos });
    }
    let c = v[pos];
    proof {
        assert(v@.skip(pos as int)[0] == c);
    }
    if c == '"' {
        let t: Vec<char> = Vec::new();
        proof {
            assert(t@ =~= Seq::<char>::empty());
        }
        return Ok((t, pos + 1));
    }
    if c == '\\' {
        if pos + 1 >= v.len() {
            proof {
                assert(v@.skip(pos as int).len() < 2);
            }
            return Err(ParseError { pos });
        }
        let e = v[pos + 1];
        proof {
            assert(v@.skip(pos as int)[1] == e);
        }
        if e == 'u' {
            return parse_unicode_escape(v, pos);
        }
        let dec = if e == '"' {
            Some('"')
        } else if e == '\\' {
            Some('\\')
        } else if e == '/' {
            Some('/')
        } else if e == 'n' {
            Some('\n')
        } else if e == 'r' {
            Some('\r')
        } else if e == 't' {
            Some('\t')
        } else if e == 'b' {
            Some('\u{8}')
        } else if e == 'f' {
            Some('\u{c}')
        } else {
            None
        };
        proof {
            assert(dec == esc_simple(e));
        }
        match dec {
            Some(d) => {
                proof {
                    assert(v@.skip(pos as int).skip(2) =~= v@.skip(pos + 2));
                }
                match parse_string_body(v, pos + 2) {
                    Ok((t, p)) => {
                        let mut t2: Vec<char> = Vec::new();
                        t2.push(d);
                        let mut rest = t;
                        t2.append(&mut rest);
                        proof {
                            assert(t2@ =~= seq![d] + t@);
                        }
                        Ok((t2, p))
                    },
                    Err(e2) => Err(e2),
                }
            },
            None => Err(ParseError { pos }),
        }
    } else if (c as u32) < 0x20 {
        Err(ParseError { pos })
    } else {
        proof {
            assert(v@.skip(pos as int).skip(1) =~= v@.skip(pos + 1));
        }
        match parse_string_body(v, pos + 1) {
            Ok((t, p)) => {
                let mut t2: Vec<char> = Vec::new();
                t2.push(c);
                let mut rest = t;
                t2.append(&mut rest);
                proof {
                    assert(t2@ =~= seq![c] + t@);
                }
                Ok((t2, p))
            },
            Err(e2) => Err(e2),
        }
    }
}

/// Reads the four hexadecimal digits at `pos`, if they stand there.
fn read_hex4(v: &Vec<char>, pos: usize) -> (r: Option<u32>)
    requires
        pos <= v@.len(),
    ensures
        r matches Some(x) ==> pos + 4 <= v@.len() && is_hex4(v@.skip(pos as int)) && x == hex4_val(
            v@.skip(pos as int),
        ) && x < 0x10000,
        r is None ==> !is_hex4(v@.skip(pos as int)),
{
    let n = v.len();
    if n - pos < 4 {
        proof {
            assert(v@.skip(pos as int).len() < 4);
        }
        return None;
    }
    let c0 = v[pos];
    let c1 = v[pos + 1];
    let c2 = v[pos + 2];
    let c3 = v[pos + 3];
    proof {
        assert(v@.skip(pos as int)[0] == c0);
        assert(v@.skip(pos as int)[1] == c1);
        assert(v@.skip(pos as int)[2] == c2);
        assert(v@.skip(pos as int)[3] == c3);
    }
    if is_hex(c0) && is_hex(c1) && is_hex(c2) && is_hex(c3) {
        Some(
            hex_val_of(c0) * 0x1000 + hex_val_of(c1) * 0x100 + hex_val_of(c2) * 0x10 + hex_val_of(
                c3,
            ),
        )
    } else {
        None
    }
}

/// A `\uXXXX` escape at `pos` (standing on the backslash), with a
/// following low-surrogate escape where the first names a high
/// surrogate; then the rest of the string after it.
fn parse_unicode_escape(v: &Vec<char>, pos: usize) -> (r: Result<(Vec<char>, usize), ParseError>)
    requires
        pos + 1 < v@.len(),
        v@[pos as int] == '\\',
        v@[pos as int + 1] == 'u',
    ensures
        r matches Ok((t, p)) ==> pos <= p <= v@.len() && spec_parse_string_body(
            v@.skip(pos as int),
        ) == Some((t@, v@.skip(p as int))),
        r is Err ==> spec_parse_string_body(v@.skip(pos as int)) is None,
    decreases v@.len() - pos, 0int,
{
    let ghost s = v@.skip(pos as int);
    let n = v.len();
    proof {
        assert(s[0] == '\\' && s[1] == 'u');
        assert(s.skip(2) =~= v@.skip(pos + 2));
    }
    let code = match read_hex4(v, pos + 2) {
        Some(x) => x,
        None => {
            return Err(ParseError { pos });
        },
    };
    if 0xD800 <= code && code < 0xDC00 {
        // a high surrogate: only valid before a low-surrogate escape
        if n - pos > 7 && v[pos + 6] == '\\' && v[pos + 7] == 'u' {
            proof {
                assert(s.len() >= 8);
                assert(s[6] == '\\' && s[7] == 'u');
                assert(s.skip(8) =~= v@.skip(pos + 8));
            }
            let lo = match read_hex4(v, pos + 8) {
                Some(x) => x,
                None => {
                    return Err(ParseError { pos });
                },
            };
            if 0xDC00 <= lo && lo < 0xE000 {
                let cp = 0x10000 + (code - 0xD800) * 0x400 + (lo - 0xDC00);
                let ch = match char_from_u32(cp) {
                    Some(ch) => ch,
                    None => {
                        return vstd::pervasive::unreached();
                    },
                };
                proof {
                    assert(s.skip(12) =~= v@.skip(pos + 12));
                }
                match parse_string_body(v, pos + 12) {
                    Ok((t, p)) => {
                        let mut t2: Vec<char> = Vec::new();
                        t2.push(ch);
                        let mut rest = t;
                        t2.append(&mut rest);
                        proof {
                            assert(t2@ =~= seq![ch] + t@);
                        }
                        Ok((t2, p))
                    },
                    Err(e2) => Err(e2),
                }
            } else {
                Err(ParseError { pos })
            }
        } else {
            proof {
                if s.len() >= 12 && s[6] == '\\' && s[7] == 'u' {
                    assert(v@[pos + 6] == s[6] && v@[pos + 7] == s[7]);
                }
            }
            Err(ParseError { pos })
        }
    } else if 0xDC00 <= code && code < 0xE000 {
        Err(ParseError { pos })
    } else {
        let ch = match char_from_u32(code) {
            Some(ch) => ch,
            None => {
                return vstd::pervasive::unreached();
            },
        };
        proof {
            assert(s.skip(6) =~= v@.skip(pos + 6));
        }
        match parse_string_body(v, pos + 6) {
            Ok((t, p)) => {
                let mut t2: Vec<char> = Vec::new();
                t2.push(ch);
                let mut rest = t;
                t2.append(&mut rest);
                proof {
                    assert(t2@ =~= seq![ch] + t@);
                }
                Ok((t2, p))
            },
            Err(e2) => Err(e2),
        }
    }
}

/// One value starting at `pos` (leading whitespace allowed): the value
/// and the position directly after it.
#[verifier::rlimit(100)]
#[verifier::spinoff_prover]
fn parse_value_at(v: &Vec<char>, pos: usize) -> (r: Result<(JsonValue, usize), ParseError>)
    requires
        pos <= v@.len(),
    ensures
        r matches Ok((val, p)) ==> pos < p <= v@.len() && spec_parse_value(v@.skip(pos as int))
            == Some((val@, v@.skip(p as int))),
        r is Err ==> spec_parse_value(v@.skip(pos as int)) is None,
    decreases v@.len() - pos, 1int,
{
    let ghost s = v@.skip(pos as int);
    if pos >= v.len() {
        return Err(ParseError { pos });
    }
    let c = v[pos];
    proof {
        assert(s[0] == c);
    }
    if is_ws(c) {
        proof {
            assert(s.skip(1) =~= v@.skip(pos + 1));
        }
        return parse_value_at(v, pos + 1);
    }
    if c == '{' {
        proof {
            assert(s.skip(1) =~= v@.skip(pos + 1));
        }
        return parse_object_body(v, pos + 1);
    }
    if c == '[' {
        proof {
            assert(s.skip(1) =~= v@.skip(pos + 1));
        }
        return parse_array_body(v, pos + 1);
    }
    if c == '"' {
        proof {
            assert(s.skip(1) =~= v@.skip(pos + 1));
        }
        return match parse_string_body(v, pos + 1) {
            Ok((t, p)) => Ok((JsonValue::String(chars_to_string(&t)), p)),
            Err(e) => Err(e),
        };
    }
    if c == 't' || c == 'f' || c == 'n' {
        return parse_literal_at(v, pos);
    }
    if c == '-' || is_digit(c) {
        return parse_number_at(v, pos);
    }
    Err(ParseError { pos })
}

/// One of the literals `true`, `false` and `null`, starting exactly at
/// `pos` on its first character.
fn parse_literal_at(v: &Vec<char>, pos: usize) -> (r: Result<(JsonValue, usize), ParseError>)
    requires
        pos < v@.len(),
        v@[pos as int] == 't' || v@[pos as int] == 'f' || v@[pos as int] == 'n',
    ensures
        r matches Ok((val, p)) ==> pos < p <= v@.len() && spec_parse_value(v@.skip(pos as int))
            == Some((val@, v@.skip(p as int))),
        r is Err ==> spec_parse_value(v@.skip(pos as int)) is None,
{
    let ghost s = v@.skip(pos as int);
    proof {
        assert(s[0] == v@[pos as int]);
    }
    let c = v[pos];
    let n = v.len();
    if c == 't' {
        if n - pos > 3 && v[pos + 1] == 'r' && v[pos + 2] == 'u' && v[pos + 3] == 'e' {
            proof {
                assert(has_prefix(s, seq!['t', 'r', 'u', 'e']));
                assert(s.skip(4) =~= v@.skip(pos + 4));
            }
            Ok((JsonValue::Bool(true), pos + 4))
        } else {
            proof {
                if has_prefix(s, seq!['t', 'r', 'u', 'e']) {
                    assert(s[1] == 'r' && s[2] == 'u' && s[3] == 'e');
                }
            }
            Err(ParseError { pos })
        }
    } else if c == 'f' {
        if n - pos > 4 && v[pos + 1] == 'a' && v[pos + 2] == 'l' && v[pos + 3] == 's' && v[pos + 4]
            == 'e' {
            proof {
                assert(has_prefix(s, seq!['f', 'a', 'l', 's', 'e']));
                assert(s.skip(5) =~= v@.skip(pos + 5));
            }
            Ok((JsonValue::Bool(false), pos + 5))
        } else {
            proof {
                if has_prefix(s, seq!['f', 'a', 'l', 's', 'e']) {
                    assert(s[1] == 'a' && s[2] == 'l' && s[3] == 's' && s[4] == 'e');
                }
            }
            Err(ParseError { pos })
        }
    } else {
        if n - pos > 3 && v[pos + 1] == 'u' && v[pos + 2] == 'l' && v[pos + 3] == 'l' {
            proof {
                assert(has_prefix(s, seq!['n', 'u', 'l', 'l']));
                assert(s.skip(4) =~= v@.skip(pos + 4));
            }
            Ok((JsonValue::Null, pos + 4))
        } else {
            proof {
                if has_prefix(s, seq!['n', 'u', 'l', 'l']) {
                    assert(s[1] == 'u' && s[2] == 'l' && s[3] == 'l');
                }
            }
            Err(ParseError { pos })
        }
    }
}

/// A number literal starting exactly at `pos`: the maximal run of
/// number characters is read and held to the number grammar.
fn parse_number_at(v: &Vec<char>, pos: usize) -> (r: Result<(JsonValue, usize), ParseError>)
    requires
        pos < v@.len(),
        v@[pos as int] == '-' || is_digit_char(v@[pos as int]),
    ensures
        r matches Ok((val, p)) ==> pos < p <= v@.len() && spec_parse_value(v@.skip(pos as int))
            == Some((val@, v@.skip(p as int))),
        r is Err ==> spec_parse_value(v@.skip(pos as int)) is None,
{
    let ghost s = v@.skip(pos as int);
    proof {
        assert(s[0] == v@[pos as int]);
    }
    let end = num_chunk_end(v, pos);
    proof {
        assert(end > pos) by {
            assert(is_number_char(s[0]));
        }
        assert(s.take(end - pos) =~= v@.subrange(pos as int, end as int));
    }
    if check_number(v, pos, end) {
        let mut chunk: Vec<char> = Vec::new();
        let mut i: usize = pos;
        while i < end
            invariant
                pos <= i <= end <= v@.len(),
                chunk@ == v@.subrange(pos as int, i as int),
            decreases end - i,
        {
            chunk.push(v[i]);
            proof {
                assert(v@.subrange(pos as int, i + 1) =~= v@.subrange(pos as int, i as int).push(
                    v@[i as int],
                ));
            }
            i = i + 1;
        }
        proof {
            assert(s.skip(end - pos) =~= v@.skip(end as int));
        }
        Ok((JsonValue::Number(chars_to_string(&chunk)), end))
    } else {
        Err(ParseError { pos })
    }
}

/// The inside of an array, entered just after `[`.
fn parse_array_body(v: &Vec<char>, pos: usize) -> (r: Result<(JsonValue, usize), ParseError>)
    requires
        pos <= v@.len(),
    ensures
        r matches Ok((val, p)) ==> pos <= p <= v@.len() && spec_parse_array_body(
            v@.skip(pos as int),
        ) == Some((val@, v@.skip(p as int))),
        r is Err ==> spec_parse_array_body(v@.skip(pos as int)) is None,
    decreases v@.len() - pos, 3int,
{
    let ghost s0 = v@.skip(pos as int);
    let q = skip_ws_pos(v, pos);
    if q < v.len() && v[q] == ']' {
        proof {
            assert(spec_skip_ws(s0)[0] == ']');
            assert(spec_skip_ws(s0).skip(1) =~= v@.skip(q + 1));
            assert(elems_view(Seq::<JsonValue>::empty()) =~= Seq::<JsonModel>::empty());
        }
        let a: Vec<JsonValue> = Vec::new();
        return Ok((JsonValue::Array(a), q + 1));
    }
    proof {
        if spec_skip_ws(s0).len() > 0 && spec_skip_ws(s0)[0] == ']' {
            assert(v@[q as int] == ']');
        }
    }
    let mut acc: Vec<JsonValue> = Vec::new();
    let mut p = pos;
    proof {
        assert(elems_view(acc@) =~= Seq::<JsonModel>::empty());
    }
    loop
        invariant
            pos <= p <= v@.len(),
            spec_parse_elems(s0, Seq::<JsonModel>::empty()) == spec_parse_elems(
                v@.skip(p as int),
                elems_view(acc@),
            ),
            s0 == v@.skip(pos as int),
            spec_skip_ws(s0).len() <= s0.len(),
            !(spec_skip_ws(s0).len() > 0 && spec_skip_ws(s0)[0] == ']'),
        decreases v@.len() - p,
    {
        let ghost sp = v@.skip(p as int);
        let ghost accm = elems_view(acc@);
        match parse_value_at(v, p) {
            Ok((val, p2)) => {
                let q2 = skip_ws_pos(v, p2);
                if q2 < v.len() && v[q2] == ',' {
                    acc.push(val);
                    proof {
                        assert(spec_skip_ws(v@.skip(p2 as int))[0] == ',');
                        assert(spec_skip_ws(v@.skip(p2 as int)).skip(1) =~= v@.skip(q2 + 1));
                        assert(elems_view(acc@) =~= accm.push(val@));
                    }
                    p = q2 + 1;
                } else if q2 < v.len() && v[q2] == ']' {
                    acc.push(val);
                    proof {
                        assert(spec_skip_ws(v@.skip(p2 as int))[0] == ']');
                        assert(spec_skip_ws(v@.skip(p2 as int)).skip(1) =~= v@.skip(q2 + 1));
                        assert(elems_view(acc@) =~= accm.push(val@));
                    }
                    return Ok((JsonValue::Array(acc), q2 + 1));
                } else {
                    proof {
                        let r1 = spec_skip_ws(v@.skip(p2 as int));
                        if r1.len() > 0 {
                            assert(r1[0] == v@[q2 as int]);
                        }
                    }
                    return Err(ParseError { pos: q2 });
                }
            },
            Err(e) => {
                return Err(e);
            },
        }
    }
}

/// The inside of an object, entered just after `{`.
#[verifier::rlimit(100)]
#[verifier::spinoff_prover]
fn parse_object_body(v: &Vec<char>, pos: usize) -> (r: Result<(JsonValue, usize), ParseError>)
    requires
        pos <= v@.len(),
    ensures
        r matches Ok((val, p)) ==> pos <= p <= v@.len() && spec_parse_object_body(
            v@.skip(pos as int),
        ) == Some((val@, v@.skip(p as int))),
        r is Err ==> spec_parse_object_body(v@.skip(pos as int)) is None,
    decreases v@.len() - pos, 3int,
{
    let ghost s0 = v@.skip(pos as int);
    let q = skip_ws_pos(v, pos);
    if q < v.len() && v[q] == '}' {
        proof {
            assert(spec_skip_ws(s0)[0] == '}');
            assert(spec_skip_ws(s0).skip(1) =~= v@.skip(q + 1));
            assert(pairs_view(Seq::<(String, JsonValue)>::empty()) =~= Seq::<
                (Seq<char>, JsonModel),
            >::empty());
        }
        let o: Vec<(String, JsonValue)> = Vec::new();
        return Ok((JsonValue::Object(o), q + 1));
    }
    proof {
        if spec_skip_ws(s0).len() > 0 && spec_skip_ws(s0)[0] == '}' {
            assert(v@[q as int] == '}');
        }
    }
    let mut acc: Vec<(String, JsonValue)> = Vec::new();
    let mut p = pos;
    proof {
        assert(pairs_view(acc@) =~= Seq::<(Seq<char>, JsonModel)>::empty());
    }
    loop
        invariant
            pos <= p <= v@.len(),
            spec_parse_members(s0, Seq::<(Seq<char>, JsonModel)>::empty()) == spec_parse_members(
                v@.skip(p as int),
                pairs_view(acc@),
            ),
            s0 == v@.skip(pos as int),
            spec_skip_ws(s0).len() <= s0.len(),
            !(spec_skip_ws(s0).len() > 0 && spec_skip_ws(s0)[0] == '}'),
        decreases v@.len() - p,
    {
        let ghost accm = pairs_view(acc@);
        match parse_member_at(v, p) {
            Ok(((kchars, val), p3)) => {
                let q3 = skip_ws_pos(v, p3);
                if q3 < v.len() && v[q3] == ',' {
                    acc.push((chars_to_string(&kchars), val));
                    proof {
                        assert(spec_skip_ws(v@.skip(p3 as int))[0] == ',');
                        assert(spec_skip_ws(v@.skip(p3 as int)).skip(1) =~= v@.skip(q3 + 1));
                        assert(pairs_view(acc@) =~= accm.push((kchars@, val@)));
                    }
                    p = q3 + 1;
                } else if q3 < v.len() && v[q3] == '}' {
                    acc.push((chars_to_string(&kchars), val));
                    proof {
                        assert(spec_skip_ws(v@.skip(p3 as int))[0] == '}');
                        assert(spec_skip_ws(v@.skip(p3 as int)).skip(1) =~= v@.skip(q3 + 1));
                        assert(pairs_view(acc@) =~= accm.push((kchars@, val@)));
                    }
                    return Ok((JsonValue::Object(acc), q3 + 1));
                } else {
                    proof {
                        let r3 = spec_skip_ws(v@.skip(p3 as int));
                        if r3.len() > 0 {
                            assert(r3[0] == v@[q3 as int]);
                        }
                    }
                    return Err(ParseError { pos: q3 });
                }
            },
            Err(e) => {
                return Err(e);
            },
        }
    }
}

/// One `"key": value` member starting at `pos` (leading whitespace
/// allowed): the decoded key, the value, and the position directly
/// after the value.
fn parse_member_at(v: &Vec<char>, pos: usize) -> (r: Result<
    ((Vec<char>, JsonValue), usize),
    ParseError,
>)
    requires
        pos <= v@.len(),
    ensures
        r matches Ok(((k, val), p)) ==> pos < p <= v@.len() && spec_parse_member(
            v@.skip(pos as int),
        ) == Some(((k@, val@), v@.skip(p as int))),
        r is Err ==> spec_parse_member(v@.skip(pos as int)) is None,
    decreases v@.len() - pos, 2int,
{
    let ghost sp = v@.skip(pos as int);
    let q1 = skip_ws_pos(v, pos);
    if !(q1 < v.len() && v[q1] == '"') {
        proof {
            let s1 = spec_skip_ws(sp);
            if s1.len() > 0 {
                assert(s1[0] == v@[q1 as int]);
            }
        }
        return Err(ParseError { pos: q1 });
    }
    proof {
        assert(spec_skip_ws(sp)[0] == '"');
        assert(spec_skip_ws(sp).skip(1) =~= v@.skip(q1 + 1));
    }
    let key = match parse_string_body(v, q1 + 1) {
        Ok((t, p2)) => (t, p2),
        Err(e) => {
            return Err(e);
        },
    };
    let (kchars, p2) = key;
    let q2 = skip_ws_pos(v, p2);
    if !(q2 < v.len() && v[q2] == ':') {
        proof {
            let r1 = spec_skip_ws(v@.skip(p2 as int));
            if r1.len() > 0 {
                assert(r1[0] == v@[q2 as int]);
            }
        }
        return Err(ParseError { pos: q2 });
    }
    proof {
        assert(spec_skip_ws(v@.skip(p2 as int))[0] == ':');
        assert(spec_skip_ws(v@.skip(p2 as int)).skip(1) =~= v@.skip(q2 + 1));
    }
    match parse_value_at(v, q2 + 1) {
        Ok((val, p3)) => Ok(((kchars, val), p3)),
        Err(e) => Err(e),
    }
}

/// Parses one complete JSON document: the whole text must be one value
/// with nothing but whitespace around it.
pub fn parse_json(json: &str) -> (r: Result<JsonValue, ParseError>)
    ensures
        r matches Ok(val) ==> spec_parse_json(json@) == Some(val@),
        r is Err ==> spec_parse_json(json@) is None,
{
    let chars = str_to_chars(json);
    proof {
        assert(chars@.skip(0) =~= json@);
    }
    match parse_value_at(&chars, 0) {
        Ok((val, p)) => {
            let q = skip_ws_pos(&chars, p);
            if q == chars.len() {
                Ok(val)
            } else {
                Err(ParseError { pos: q })
            }
        },
        Err(e) => Err(e),
    }
}

} // verus!
