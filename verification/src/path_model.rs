//! The path micro-language and its semantics over the model: parsing a
//! path into steps, walking a tree step by step, and replacing the
//! addressed sub-value.

use vstd::prelude::*;
use crate::model::{is_digit_char, digit_val, JsonModel};

verus! {

/// One step of a path: a key lookup in an object or an index lookup in
/// an array.
pub enum StepModel {
    Key(Seq<char>),
    Index(int),
}

/// The six cases a value can be, named for error reports.
#[derive(Clone, Copy, PartialEq, Eq, Structural, Debug)]
pub enum JsonKind {
    String,
    Number,
    Array,
    Object,
    Bool,
    Null,
}

pub open spec fn kind_of(v: JsonModel) -> JsonKind {
    match v {
        JsonModel::String(_) => JsonKind::String,
        JsonModel::Number(_) => JsonKind::Number,
        JsonModel::Array(_) => JsonKind::Array,
        JsonModel::Object(_) => JsonKind::Object,
        JsonModel::Bool(_) => JsonKind::Bool,
        JsonModel::Null => JsonKind::Null,
    }
}

/// Why a path failed against a tree.
pub enum PathErrModel {
    /// The path text itself does not obey the path grammar.
    Syntax(Seq<char>),
    /// The named key is not in the object.
    KeyNotFound(Seq<char>),
    /// The index and the length of the array it missed.
    IndexOutOfBounds(int, int),
    /// The kind the step needed and the kind it found.
    TypeMismatch(JsonKind, JsonKind),
}

// ---------------------------------------------------------------------
// Path grammar
// ---------------------------------------------------------------------

/// The characters a key segment may hold: anything but the three
/// structural characters of the path language.
pub open spec fn is_key_char(c: char) -> bool {
    c != '.' && c != '[' && c != ']'
}

/// The length of the maximal run of key characters at the front.
pub open spec fn key_chunk_len(s: Seq<char>) -> nat
    decreases s.len(),
{
    if s.len() > 0 && is_key_char(s[0]) {
        1 + key_chunk_len(s.skip(1))
    } else {
        0
    }
}

/// The length of the maximal run of decimal digits at the front.
pub open spec fn digits_chunk_len(s: Seq<char>) -> nat
    decreases s.len(),
{
    if s.len() > 0 && is_digit_char(s[0]) {
        1 + digits_chunk_len(s.skip(1))
    } else {
        0
    }
}

/// Every character inside the digit run is a digit.
pub proof fn lemma_digits_chunk_chars(s: Seq<char>)
    ensures
        digits_chunk_len(s) <= s.len(),
        forall|j: int| 0 <= j < digits_chunk_len(s) ==> is_digit_char(#[trigger] s[j]),
    decreases s.len(),
{
    if s.len() > 0 && is_digit_char(s[0]) {
        lemma_digits_chunk_chars(s.skip(1));
        assert forall|j: int| 0 <= j < digits_chunk_len(s) implies is_digit_char(#[trigger] s[j])
        by {
            if j >= 1 {
                assert(s.skip(1)[j - 1] == s[j]);
            }
        }
    }
}

/// The value of a run of decimal digits.
pub open spec fn digits_val(s: Seq<char>) -> nat
    decreases s.len(),
{
    if s.len() == 0 {
        0
    } else {
        digits_val(s.take(s.len() - 1)) * 10 + digit_val(s[s.len() - 1])
    }
}

/// The steps after the first: each is `.key` or `[index]`. An index
/// must fit the machine's word for the walk to be able to use it.
pub open spec fn spec_parse_steps(s: Seq<char>, acc: Seq<StepModel>) -> Option<Seq<StepModel>>
    decreases s.len(),
{
    if s.len() == 0 {
        Some(acc)
    } else if s[0] == '[' {
        let d = digits_chunk_len(s.skip(1)) as int;
        if d > 0 && 1 + d < s.len() && s[1 + d] == ']' && digits_val(s.skip(1).take(d))
            <= usize::MAX {
            spec_parse_steps(s.skip(d + 2), acc.push(StepModel::Index(digits_val(
                s.skip(1).take(d),
            ) as int)))
        } else {
            None
        }
    } else if s[0] == '.' {
        let k = key_chunk_len(s.skip(1)) as int;
        if k > 0 && k + 1 <= s.len() {
            spec_parse_steps(s.skip(k + 1), acc.push(StepModel::Key(s.skip(1).take(k))))
        } else {
            None
        }
    } else {
        None
    }
}

/// A whole path. The empty path and the lone `.` name the root; any
/// other path starts with a bare key or `[index]` and goes on with
/// `.key` and `[index]` steps.
pub open spec fn spec_parse_path(s: Seq<char>) -> Option<Seq<StepModel>> {
    if s.len() == 0 || (s.len() == 1 && s[0] == '.') {
        Some(Seq::empty())
    } else if s[0] == '[' {
        spec_parse_steps(s, Seq::empty())
    } else {
        let k = key_chunk_len(s) as int;
        if k > 0 {
            spec_parse_steps(s.skip(k), seq![StepModel::Key(s.take(k))])
        } else {
            None
        }
    }
}

// ---------------------------------------------------------------------
// Walking and replacing
// ---------------------------------------------------------------------

/// The least index whose key is `k`, or the length if no key matches.
pub open spec fn first_key_index(o: Seq<(Seq<char>, JsonModel)>, k: Seq<char>) -> int
    decreases o.len(),
{
    if o.len() == 0 {
        0
    } else if o[0].0 == k {
        0
    } else {
        1 + first_key_index(o.drop_first(), k)
    }
}

/// What [`first_key_index`] finds: the first match if any key
/// matches, the length otherwise.
pub proof fn lemma_first_key_index_spec(o: Seq<(Seq<char>, JsonModel)>, k: Seq<char>)
    ensures
        0 <= first_key_index(o, k) <= o.len(),
        first_key_index(o, k) < o.len() ==> o[first_key_index(o, k)].0 == k,
        forall|j: int| 0 <= j < first_key_index(o, k) ==> o[j].0 != k,
    decreases o.len(),
{
    if o.len() == 0 {
    } else if o[0].0 == k {
    } else {
        lemma_first_key_index_spec(o.drop_first(), k);
        assert forall|j: int| 0 <= j < first_key_index(o, k) implies o[j].0 != k by {
            if j >= 1 {
                assert(o.drop_first()[j - 1] == o[j]);
            }
        }
    }
}

/// One step against one value: the child it addresses, or exactly the
/// error the step earns.
pub open spec fn spec_step(v: JsonModel, st: StepModel) -> Result<JsonModel, PathErrModel> {
    match st {
        StepModel::Key(k) => match v {
            JsonModel::Object(o) => {
                let i = first_key_index(o, k);
                if i < o.len() {
                    Ok(o[i].1)
                } else {
                    Err(PathErrModel::KeyNotFound(k))
                }
            },
            _ => Err(PathErrModel::TypeMismatch(JsonKind::Object, kind_of(v))),
        },
        StepModel::Index(i) => match v {
            JsonModel::Array(a) => {
                if 0 <= i < a.len() {
                    Ok(a[i])
                } else {
                    Err(PathErrModel::IndexOutOfBounds(i, a.len() as int))
                }
            },
            _ => Err(PathErrModel::TypeMismatch(JsonKind::Array, kind_of(v))),
        },
    }
}

/// All steps, left to right; the first failing step aborts the walk
/// and its error is the walk's error.
pub open spec fn spec_walk(v: JsonModel, steps: Seq<StepModel>) -> Result<JsonModel, PathErrModel>
    decreases steps.len(),
{
    if steps.len() == 0 {
        Ok(v)
    } else {
        match spec_step(v, steps[0]) {
            Ok(c) => spec_walk(c, steps.drop_first()),
            Err(e) => Err(e),
        }
    }
}

/// Resolving a path against a tree: a malformed path fails before any
/// step is tried; otherwise the walk decides.
pub open spec fn spec_resolve(v: JsonModel, path: Seq<char>) -> Result<JsonModel, PathErrModel> {
    match spec_parse_path(path) {
        Some(steps) => spec_walk(v, steps),
        None => Err(PathErrModel::Syntax(path)),
    }
}

/// The tree with the sub-value the steps address replaced by `nv`.
/// Only meaningful where `spec_walk(v, steps)` succeeds; every node off
/// the path is kept as it was.
pub open spec fn spec_set(v: JsonModel, steps: Seq<StepModel>, nv: JsonModel) -> JsonModel
    decreases steps.len(),
{
    if steps.len() == 0 {
        nv
    } else {
        match steps[0] {
            StepModel::Key(k) => match v {
                JsonModel::Object(o) => {
                    let i = first_key_index(o, k);
                    if i < o.len() {
                        JsonModel::Object(
                            o.update(i, (o[i].0, spec_set(o[i].1, steps.drop_first(), nv))),
                        )
                    } else {
                        v
                    }
                },
                _ => v,
            },
            StepModel::Index(i) => match v {
                JsonModel::Array(a) => {
                    if 0 <= i < a.len() {
                        JsonModel::Array(a.update(i, spec_set(a[i], steps.drop_first(), nv)))
                    } else {
                        v
                    }
                },
                _ => v,
            },
        }
    }
}

} // verus!
