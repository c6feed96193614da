//! The mathematical model of a JSON tree, the character classes of the
//! grammar, and the two renderings (dense and pretty) as spec functions.

use vstd::prelude::*;

verus! {

/// The model of one JSON value: sequences of characters and of child
/// values in place of the executable containers. Arrays and objects are
/// ordered; an object may hold the same key twice. A number is kept as
/// its literal text, checked against the JSON number grammar.
#[verifier::ext_equal]
pub enum JsonModel {
    String(Seq<char>),
    Number(Seq<char>),
    Array(Seq<JsonModel>),
    Object(Seq<(Seq<char>, JsonModel)>),
    Bool(bool),
    Null,
}

// ---------------------------------------------------------------------
// Character classes
// ---------------------------------------------------------------------

/// The whitespace the grammar skips between tokens.
pub open spec fn is_ws_char(c: char) -> bool {
    c == ' ' || c == '\t' || c == '\n' || c == '\r'
}

pub open spec fn is_digit_char(c: char) -> bool {
    '0' <= c && c <= '9'
}

pub open spec fn digit_val(c: char) -> nat {
    ((c as u32) - ('0' as u32)) as nat
}

pub open spec fn is_hex_char(c: char) -> bool {
    is_digit_char(c) || ('a' <= c && c <= 'f') || ('A' <= c && c <= 'F')
}

pub open spec fn hex_val(c: char) -> nat {
    if is_digit_char(c) {
        digit_val(c)
    } else if 'a' <= c && c <= 'f' {
        ((c as u32) - ('a' as u32) + 10) as nat
    } else {
        ((c as u32) - ('A' as u32) + 10) as nat
    }
}

/// The characters a number literal may be built from; a maximal run of
/// these is scanned first and then checked against the number grammar.
pub open spec fn is_number_char(c: char) -> bool {
    is_digit_char(c) || c == '.' || c == 'e' || c == 'E' || c == '+' || c == '-'
}

// ---------------------------------------------------------------------
// The JSON number grammar, as a deterministic automaton
// ---------------------------------------------------------------------

/// States of the automaton for `-?(0|[1-9][0-9]*)(.[0-9]+)?([eE][+-]?[0-9]+)?`.
#[derive(Clone, Copy, PartialEq, Eq, Structural, Debug)]
pub enum NumState {
    Start,
    Minus,
    IntZero,
    IntDigits,
    Dot,
    Frac,
    Exp,
    ExpSign,
    ExpDigits,
}

pub open spec fn num_step(st: NumState, c: char) -> Option<NumState> {
    match st {
        NumState::Start => {
            if c == '-' {
                Some(NumState::Minus)
            } else if c == '0' {
                Some(NumState::IntZero)
            } else if is_digit_char(c) {
                Some(NumState::IntDigits)
            } else {
                None
            }
        },
        NumState::Minus => {
            if c == '0' {
                Some(NumState::IntZero)
            } else if is_digit_char(c) {
                Some(NumState::IntDigits)
            } else {
                None
            }
        },
        NumState::IntZero => {
            if c == '.' {
                Some(NumState::Dot)
            } else if c == 'e' || c == 'E' {
                Some(NumState::Exp)
            } else {
                None
            }
        },
        NumState::IntDigits => {
            if is_digit_char(c) {
                Some(NumState::IntDigits)
            } else if c == '.' {
                Some(NumState::Dot)
            } else if c == 'e' || c == 'E' {
                Some(NumState::Exp)
            } else {
                None
            }
        },
        NumState::Dot => {
            if is_digit_char(c) {
                Some(NumState::Frac)
            } else {
                None
            }
        },
        NumState::Frac => {
            if is_digit_char(c) {
                Some(NumState::Frac)
            } else if c == 'e' || c == 'E' {
                Some(NumState::Exp)
            } else {
                None
            }
        },
        NumState::Exp => {
            if c == '+' || c == '-' {
                Some(NumState::ExpSign)
            } else if is_digit_char(c) {
                Some(NumState::ExpDigits)
            } else {
                None
            }
        },
        NumState::ExpSign => {
            if is_digit_char(c) {
                Some(NumState::ExpDigits)
            } else {
                None
            }
        },
        NumState::ExpDigits => {
            if is_digit_char(c) {
                Some(NumState::ExpDigits)
            } else {
                None
            }
        },
    }
}

pub open spec fn num_run(st: NumState, s: Seq<char>) -> Option<NumState>
    decreases s.len(),
{
    if s.len() == 0 {
        Some(st)
    } else {
        match num_step(st, s[0]) {
            Some(st2) => num_run(st2, s.skip(1)),
            None => None,
        }
    }
}

pub open spec fn num_accepting(st: NumState) -> bool {
    st is IntZero || st is IntDigits || st is Frac || st is ExpDigits
}

/// The whole JSON number grammar: `s` is one complete number literal.
pub open spec fn is_number_lit(s: Seq<char>) -> bool {
    match num_run(NumState::Start, s) {
        Some(st) => num_accepting(st),
        None => false,
    }
}

// ---------------------------------------------------------------------
// Well-formedness
// ---------------------------------------------------------------------

/// A tree the engine will produce or render: every number's text obeys
/// the number grammar. Strings and keys may hold any characters.
pub open spec fn wf(v: JsonModel) -> bool
    decreases v,
{
    match v {
        JsonModel::Number(s) => is_number_lit(s),
        JsonModel::Array(a) => forall|i: int| 0 <= i < a.len() ==> wf(#[trigger] a[i]),
        JsonModel::Object(o) => forall|i: int| 0 <= i < o.len() ==> wf(#[trigger] o[i].1),
        _ => true,
    }
}

// ---------------------------------------------------------------------
// String escaping on output
// ---------------------------------------------------------------------

/// The hexadecimal digit for `n < 16`, lower case.
pub open spec fn hex_digit_char(n: nat) -> char {
    if n == 0 {
        '0'
    } else if n == 1 {
        '1'
    } else if n == 2 {
        '2'
    } else if n == 3 {
        '3'
    } else if n == 4 {
        '4'
    } else if n == 5 {
        '5'
    } else if n == 6 {
        '6'
    } else if n == 7 {
        '7'
    } else if n == 8 {
        '8'
    } else if n == 9 {
        '9'
    } else if n == 10 {
        'a'
    } else if n == 11 {
        'b'
    } else if n == 12 {
        'c'
    } else if n == 13 {
        'd'
    } else if n == 14 {
        'e'
    } else {
        'f'
    }
}

/// How one character of a string is written out: quote and backslash
/// get a backslash, the named control characters their short escape,
/// any other control character a `\u00XX` escape, all else verbatim.
pub open spec fn escape_char(c: char) -> Seq<char> {
    if c == '"' {
        seq!['\\', '"']
    } else if c == '\\' {
        seq!['\\', '\\']
    } else if c == '\n' {
        seq!['\\', 'n']
    } else if c == '\r' {
        seq!['\\', 'r']
    } else if c == '\t' {
        seq!['\\', 't']
    } else if c == '\u{8}' {
        seq!['\\', 'b']
    } else if c == '\u{c}' {
        seq!['\\', 'f']
    } else if (c as u32) < 0x20 {
        seq!['\\', 'u', '0', '0', hex_digit_char(((c as u32) / 16) as nat), hex_digit_char(
            ((c as u32) % 16) as nat,
        )]
    } else {
        seq![c]
    }
}

pub open spec fn escape_string(s: Seq<char>) -> Seq<char>
    decreases s.len(),
{
    if s.len() == 0 {
        Seq::empty()
    } else {
        escape_char(s[0]) + escape_string(s.skip(1))
    }
}

// ---------------------------------------------------------------------
// Rendering
// ---------------------------------------------------------------------

/// The two layouts a tree can be written in.
#[derive(Clone, Copy, PartialEq, Eq, Structural, Debug)]
pub enum FmtMode {
    Dense,
    Pretty,
}

/// Two spaces for each level of nesting in the pretty layout.
pub open spec fn indent(depth: nat) -> Seq<char>
    decreases depth,
{
    if depth == 0 {
        Seq::empty()
    } else {
        indent((depth - 1) as nat) + seq![' ', ' ']
    }
}

pub open spec fn elem_sep(mode: FmtMode) -> Seq<char> {
    match mode {
        FmtMode::Dense => seq![','],
        FmtMode::Pretty => seq![',', '\n'],
    }
}

pub open spec fn elem_head(mode: FmtMode, depth: nat) -> Seq<char> {
    match mode {
        FmtMode::Dense => Seq::empty(),
        FmtMode::Pretty => indent(depth),
    }
}

/// One value, rendered. In the pretty layout `depth` is the nesting
/// depth of the value itself; its children stand one level deeper, each
/// on a line of its own.
pub open spec fn render(v: JsonModel, mode: FmtMode, depth: nat) -> Seq<char>
    decreases v, 1int,
{
    match v {
        JsonModel::String(s) => seq!['"'] + escape_string(s) + seq!['"'],
        JsonModel::Number(s) => s,
        JsonModel::Bool(b) => if b {
            seq!['t', 'r', 'u', 'e']
        } else {
            seq!['f', 'a', 'l', 's', 'e']
        },
        JsonModel::Null => seq!['n', 'u', 'l', 'l'],
        JsonModel::Array(a) => {
            if a.len() == 0 {
                seq!['[', ']']
            } else {
                match mode {
                    FmtMode::Dense => seq!['['] + render_elems(a, mode, depth) + seq![']'],
                    FmtMode::Pretty => seq!['[', '\n'] + render_elems(a, mode, (depth + 1) as nat)
                        + seq!['\n'] + indent(depth) + seq![']'],
                }
            }
        },
        JsonModel::Object(o) => {
            if o.len() == 0 {
                seq!['{', '}']
            } else {
                match mode {
                    FmtMode::Dense => seq!['{'] + render_members(o, mode, depth) + seq!['}'],
                    FmtMode::Pretty => seq!['{', '\n'] + render_members(o, mode, (depth + 1) as nat)
                        + seq!['\n'] + indent(depth) + seq!['}'],
                }
            }
        },
    }
}

/// A non-empty run of array elements, separated by commas (dense) or by
/// comma, newline and indentation (pretty).
pub open spec fn render_elems(a: Seq<JsonModel>, mode: FmtMode, depth: nat) -> Seq<char>
    decreases a, 0int,
{
    if a.len() == 0 {
        Seq::empty()
    } else {
        let head = elem_head(mode, depth) + render(a[0], mode, depth);
        if a.len() == 1 {
            head
        } else {
            head + elem_sep(mode) + render_elems(a.drop_first(), mode, depth)
        }
    }
}

/// One `"key": value` pair; the colon is bare in the dense layout and
/// followed by one space in the pretty layout.
pub open spec fn render_pair(key: Seq<char>, v: JsonModel, mode: FmtMode, depth: nat) -> Seq<char>
    decreases v, 2int,
{
    let colon = match mode {
        FmtMode::Dense => seq![':'],
        FmtMode::Pretty => seq![':', ' '],
    };
    seq!['"'] + escape_string(key) + seq!['"'] + colon + render(v, mode, depth)
}

/// A non-empty run of object members.
pub open spec fn render_members(o: Seq<(Seq<char>, JsonModel)>, mode: FmtMode, depth: nat) -> Seq<
    char,
>
    decreases o, 0int,
{
    if o.len() == 0 {
        Seq::empty()
    } else {
        let head = elem_head(mode, depth) + render_pair(o[0].0, o[0].1, mode, depth);
        if o.len() == 1 {
            head
        } else {
            head + elem_sep(mode) + render_members(o.drop_first(), mode, depth)
        }
    }
}

/// A whole document: the dense layout is the value alone, the pretty
/// layout ends in one newline.
pub open spec fn render_doc(v: JsonModel, mode: FmtMode) -> Seq<char> {
    match mode {
        FmtMode::Dense => render(v, FmtMode::Dense, 0),
        FmtMode::Pretty => render(v, FmtMode::Pretty, 0) + seq!['\n'],
    }
}

} // verus!
