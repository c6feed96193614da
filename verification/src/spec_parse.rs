//! The grammar of a JSON document as one deterministic spec-level
//! parser over character sequences. The executable parser is proved to
//! return exactly what these functions say.

use vstd::prelude::*;
use crate::model::{
    is_ws_char, is_digit_char, is_hex_char, is_number_char, hex_val, is_number_lit, JsonModel,
};

verus! {

/// Drop leading whitespace.
pub open spec fn spec_skip_ws(s: Seq<char>) -> Seq<char>
    decreases s.len(),
{
    if s.len() > 0 && is_ws_char(s[0]) {
        spec_skip_ws(s.skip(1))
    } else {
        s
    }
}

/// `p` stands at the front of `s`.
pub open spec fn has_prefix(s: Seq<char>, p: Seq<char>) -> bool {
    p.len() <= s.len() && forall|i: int| 0 <= i < p.len() ==> s[i] == p[i]
}

/// The length of the maximal run of number characters at the front.
pub open spec fn num_chunk_len(s: Seq<char>) -> nat
    decreases s.len(),
{
    if s.len() > 0 && is_number_char(s[0]) {
        1 + num_chunk_len(s.skip(1))
    } else {
        0
    }
}

/// Four hexadecimal digits stand at the front of `s`.
pub open spec fn is_hex4(s: Seq<char>) -> bool {
    s.len() >= 4 && is_hex_char(s[0]) && is_hex_char(s[1]) && is_hex_char(s[2]) && is_hex_char(
        s[3],
    )
}

/// The value of the four hexadecimal digits at the front of `s`.
pub open spec fn hex4_val(s: Seq<char>) -> nat {
    hex_val(s[0]) * 0x1000 + hex_val(s[1]) * 0x100 + hex_val(s[2]) * 0x10 + hex_val(s[3])
}

/// The single-character escapes: what `\c` decodes to.
pub open spec fn esc_simple(c: char) -> Option<char> {
    if c == '"' {
        Some('"')
    } else if c == '\\' {
        Some('\\')
    } else if c == '/' {
        Some('/')
    } else if c == 'n' {
        Some('\n')
    } else if c == 'r' {
        Some('\r')
    } else if c == 't' {
        Some('\t')
    } else if c == 'b' {
        Some('\u{8}')
    } else if c == 'f' {
        Some('\u{c}')
    } else {
        None
    }
}

/// The interior of a string literal, entered just after the opening
/// quote: the decoded content and the rest after the closing quote.
/// Escape sequences are decoded; a `\uXXXX` high surrogate must be
/// followed by a low surrogate escape and the pair makes one character;
/// raw control characters are refused.
pub open spec fn spec_parse_string_body(s: Seq<char>) -> Option<(Seq<char>, Seq<char>)>
    decreases s.len(),
{
    if s.len() == 0 {
        None
    } else if s[0] == '"' {
        Some((Seq::empty(), s.skip(1)))
    } else if s[0] == '\\' {
        if s.len() < 2 {
            None
        } else if s[1] == 'u' {
            if s.len() >= 6 && is_hex4(s.skip(2)) {
                let code = hex4_val(s.skip(2));
                if 0xD800 <= code && code < 0xDC00 {
                    if s.len() >= 12 && s[6] == '\\' && s[7] == 'u' && is_hex4(s.skip(8)) {
                        let lo = hex4_val(s.skip(8));
                        if 0xDC00 <= lo && lo < 0xE000 {
                            let cp = 0x10000 + (code - 0xD800) * 0x400 + (lo - 0xDC00);
                            match spec_parse_string_body(s.skip(12)) {
                                Some((t, r)) => Some((seq![(cp as u32) as char] + t, r)),
                                None => None,
                            }
                        } else {
                            None
                        }
                    } else {
                        None
                    }
                } else if 0xDC00 <= code && code < 0xE000 {
                    None
                } else {
                    match spec_parse_string_body(s.skip(6)) {
                        Some((t, r)) => Some((seq![(code as u32) as char] + t, r)),
                        None => None,
                    }
                }
            } else {
                None
            }
        } else {
            match esc_simple(s[1]) {
                Some(c) => match spec_parse_string_body(s.skip(2)) {
                    Some((t, r)) => Some((seq![c] + t, r)),
                    None => None,
                },
                None => None,
            }
        }
    } else if (s[0] as u32) < 0x20 {
        None
    } else {
        match spec_parse_string_body(s.skip(1)) {
            Some((t, r)) => Some((seq![s[0]] + t, r)),
            None => None,
        }
    }
}

/// One JSON value at the front of `s`, leading whitespace allowed:
/// the value and the rest directly after it.
pub open spec fn spec_parse_value(s: Seq<char>) -> Option<(JsonModel, Seq<char>)>
    decreases s.len(), 1int,
{
    if s.len() == 0 {
        None
    } else if is_ws_char(s[0]) {
        spec_parse_value(s.skip(1))
    } else if s[0] == '{' {
        spec_parse_object_body(s.skip(1))
    } else if s[0] == '[' {
        spec_parse_array_body(s.skip(1))
    } else if s[0] == '"' {
        match spec_parse_string_body(s.skip(1)) {
            Some((t, r)) => Some((JsonModel::String(t), r)),
            None => None,
        }
    } else if s[0] == 't' {
        if has_prefix(s, seq!['t', 'r', 'u', 'e']) {
            Some((JsonModel::Bool(true), s.skip(4)))
        } else {
            None
        }
    } else if s[0] == 'f' {
        if has_prefix(s, seq!['f', 'a', 'l', 's', 'e']) {
            Some((JsonModel::Bool(false), s.skip(5)))
        } else {
            None
        }
    } else if s[0] == 'n' {
        if has_prefix(s, seq!['n', 'u', 'l', 'l']) {
            Some((JsonModel::Null, s.skip(4)))
        } else {
            None
        }
    } else if s[0] == '-' || is_digit_char(s[0]) {
        let n = num_chunk_len(s) as int;
        if is_number_lit(s.take(n)) {
            Some((JsonModel::Number(s.take(n)), s.skip(n)))
        } else {
            None
        }
    } else {
        None
    }
}

/// The inside of an array, entered just after `[`.
pub open spec fn spec_parse_array_body(s: Seq<char>) -> Option<(JsonModel, Seq<char>)>
    decreases s.len(), 4int,
{
    let s1 = spec_skip_ws(s);
    if s1.len() > 0 && s1[0] == ']' {
        Some((JsonModel::Array(Seq::empty()), s1.skip(1)))
    } else if s1.len() <= s.len() {
        match spec_parse_elems(s, Seq::empty()) {
            Some((a, r)) => Some((JsonModel::Array(a), r)),
            None => None,
        }
    } else {
        None
    }
}

/// One or more comma-separated elements followed by `]`; `acc` holds
/// the elements already read.
pub open spec fn spec_parse_elems(s: Seq<char>, acc: Seq<JsonModel>) -> Option<
    (Seq<JsonModel>, Seq<char>),
>
    decreases s.len(), 2int,
{
    match spec_parse_value(s) {
        Some((v, r)) => {
            let r1 = spec_skip_ws(r);
            if r1.len() > 0 && r1[0] == ',' {
                if r1.len() <= s.len() {
                    spec_parse_elems(r1.skip(1), acc.push(v))
                } else {
                    None
                }
            } else if r1.len() > 0 && r1[0] == ']' {
                Some((acc.push(v), r1.skip(1)))
            } else {
                None
            }
        },
        None => None,
    }
}

/// The inside of an object, entered just after `{`.
pub open spec fn spec_parse_object_body(s: Seq<char>) -> Option<(JsonModel, Seq<char>)>
    decreases s.len(), 4int,
{
    let s1 = spec_skip_ws(s);
    if s1.len() > 0 && s1[0] == '}' {
        Some((JsonModel::Object(Seq::empty()), s1.skip(1)))
    } else if s1.len() <= s.len() {
        match spec_parse_members(s, Seq::empty()) {
            Some((o, r)) => Some((JsonModel::Object(o), r)),
            None => None,
        }
    } else {
        None
    }
}

/// One `"key": value` member at the front of `s`, leading whitespace
/// allowed: the pair and the rest directly after the value.
pub open spec fn spec_parse_member(s: Seq<char>) -> Option<((Seq<char>, JsonModel), Seq<char>)>
    decreases s.len(), 2int,
{
    let s1 = spec_skip_ws(s);
    if s1.len() > 0 && s1[0] == '"' && s1.len() <= s.len() {
        match spec_parse_string_body(s1.skip(1)) {
            Some((k, r)) => {
                let r1 = spec_skip_ws(r);
                if r1.len() > 0 && r1[0] == ':' && r1.len() <= s.len() {
                    match spec_parse_value(r1.skip(1)) {
                        Some((v, r2)) => Some(((k, v), r2)),
                        None => None,
                    }
                } else {
                    None
                }
            },
            None => None,
        }
    } else {
        None
    }
}

/// One or more `"key": value` members followed by `}`; `acc` holds the
/// members already read, in document order.
pub open spec fn spec_parse_members(s: Seq<char>, acc: Seq<(Seq<char>, JsonModel)>) -> Option<
    (Seq<(Seq<char>, JsonModel)>, Seq<char>),
>
    decreases s.len(), 3int,
{
    match spec_parse_member(s) {
        Some(((k, v), r2)) => {
            let r3 = spec_skip_ws(r2);
            if r3.len() > 0 && r3[0] == ',' {
                if r3.len() <= s.len() {
                    spec_parse_members(r3.skip(1), acc.push((k, v)))
                } else {
                    None
                }
            } else if r3.len() > 0 && r3[0] == '}' {
                Some((acc.push((k, v)), r3.skip(1)))
            } else {
                None
            }
        },
        None => None,
    }
}

/// A whole document: one value and nothing but whitespace after it.
/// The document is accepted atomically or rejected atomically.
pub open spec fn spec_parse_json(s: Seq<char>) -> Option<JsonModel> {
    match spec_parse_value(s) {
        Some((v, r)) => {
            if spec_skip_ws(r).len() == 0 {
                Some(v)
            } else {
                None
            }
        },
        None => None,
    }
}

} // verus!
