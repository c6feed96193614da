//! The executable JSON tree and direct navigation on it: key lookup in
//! objects and index lookup in arrays, read-only or replacing.

use vstd::prelude::*;
use crate::model::JsonModel;
use crate::path_model::{
    kind_of, spec_set, spec_step, JsonKind, PathErrModel, StepModel, first_key_index,
    lemma_first_key_index_spec,
};
use crate::text::str_eq_chars;

verus! {

/// One JSON value: a tagged tree with ordered arrays and ordered
/// (key, value) objects. Key uniqueness is not enforced; lookup takes
/// the first match. A number holds its literal text.
#[derive(Debug, PartialEq)]
pub enum JsonValue {
    String(String),
    Number(String),
    Array(Vec<JsonValue>),
    Object(Vec<(String, JsonValue)>),
    Bool(bool),
    Null,
}

/// The models of the elements of an array.
pub open spec fn elems_view(a: Seq<JsonValue>) -> Seq<JsonModel>
    decreases a, 0int,
{
    Seq::new(
        a.len(),
        |i: int|
            if 0 <= i < a.len() {
                a[i]@
            } else {
                JsonModel::Null
            },
    )
}

/// The models of the members of an object.
pub open spec fn pairs_view(o: Seq<(String, JsonValue)>) -> Seq<(Seq<char>, JsonModel)>
    decreases o, 0int,
{
    Seq::new(
        o.len(),
        |i: int|
            if 0 <= i < o.len() {
                (o[i].0@, o[i].1@)
            } else {
                (Seq::<char>::empty(), JsonModel::Null)
            },
    )
}

impl JsonValue {
    /// What this tree is as a mathematical value.
    pub open spec fn view(&self) -> JsonModel
        decreases self, 1int,
    {
        match self {
            JsonValue::String(s) => JsonModel::String(s@),
            JsonValue::Number(s) => JsonModel::Number(s@),
            JsonValue::Bool(b) => JsonModel::Bool(*b),
            JsonValue::Null => JsonModel::Null,
            JsonValue::Array(a) => JsonModel::Array(elems_view(a@)),
            JsonValue::Object(o) => JsonModel::Object(pairs_view(o@)),
        }
    }
}

/// A rejected document; `pos` is the character position the parser
/// stopped at.
#[derive(Debug, PartialEq)]
pub struct ParseError {
    pub pos: usize,
}

/// A failed path operation, mirroring [`PathErrModel`].
#[derive(Debug, PartialEq)]
pub enum PathError {
    Syntax { path: String },
    KeyNotFound { key: String },
    IndexOutOfBounds { index: usize, length: usize },
    TypeMismatch { expected: JsonKind, actual: JsonKind },
}

impl PathError {
    pub open spec fn view(&self) -> PathErrModel {
        match self {
            PathError::Syntax { path } => PathErrModel::Syntax(path@),
            PathError::KeyNotFound { key } => PathErrModel::KeyNotFound(key@),
            PathError::IndexOutOfBounds { index, length } => PathErrModel::IndexOutOfBounds(
                *index as int,
                *length as int,
            ),
            PathError::TypeMismatch { expected, actual } => PathErrModel::TypeMismatch(
                *expected,
                *actual,
            ),
        }
    }
}

/// The least position whose key is `key`, if any pair matches.
pub(crate) fn find_key(o: &Vec<(String, JsonValue)>, key: &str) -> (r: Option<usize>)
    ensures
        match r {
            Some(i) => i < o@.len() && first_key_index(pairs_view(o@), key@) == i as int,
            None => first_key_index(pairs_view(o@), key@) == o@.len() as int,
        },
{
    let ghost om = pairs_view(o@);
    proof {
        lemma_first_key_index_spec(om, key@);
    }
    let n = o.len();
    let mut i: usize = 0;
    while i < n
        invariant
            n == o@.len(),
            i <= n,
            om == pairs_view(o@),
            forall|j: int| 0 <= j < i ==> om[j].0 != key@,
            0 <= first_key_index(om, key@) <= om.len(),
            first_key_index(om, key@) < om.len() ==> om[first_key_index(om, key@)].0 == key@,
            forall|j: int| 0 <= j < first_key_index(om, key@) ==> om[j].0 != key@,
        decreases n - i,
    {
        if str_eq_chars(o[i].0.as_str(), key) {
            proof {
                assert(om[i as int].0 == key@);
                if first_key_index(om, key@) < i {
                    assert(om[first_key_index(om, key@)].0 == key@);
                }
            }
            return Some(i);
        }
        i = i + 1;
    }
    proof {
        if first_key_index(om, key@) < om.len() {
            assert(om[first_key_index(om, key@)].0 == key@);
        }
    }
    None
}

impl JsonValue {
    /// Which of the six cases this value is.
    pub fn kind(&self) -> (k: JsonKind)
        ensures
            k == kind_of(self@),
    {
        match self {
            JsonValue::String(_) => JsonKind::String,
            JsonValue::Number(_) => JsonKind::Number,
            JsonValue::Array(_) => JsonKind::Array,
            JsonValue::Object(_) => JsonKind::Object,
            JsonValue::Bool(_) => JsonKind::Bool,
            JsonValue::Null => JsonKind::Null,
        }
    }

    /// The value under the first pair whose key is `key`. Fails with
    /// `KeyNotFound` when no pair matches, and with `TypeMismatch`
    /// when this value is not an object.
    pub fn get_object_key<'a>(&'a self, key: &str) -> (r: Result<&'a JsonValue, PathError>)
        ensures
            spec_step(self@, StepModel::Key(key@)) matches Ok(c) ==> (r matches Ok(rv) && rv@
                == c),
            spec_step(self@, StepModel::Key(key@)) matches Err(se) ==> (r matches Err(e) && e@
                == se),
    {
        match self {
            JsonValue::Object(o) => {
                match find_key(o, key) {
                    Some(i) => Ok(&o[i].1),
                    None => Err(PathError::KeyNotFound { key: key.to_owned() }),
                }
            },
            _ => Err(PathError::TypeMismatch { expected: JsonKind::Object, actual: self.kind() }),
        }
    }

    /// The element at `index`. Fails with `IndexOutOfBounds` when the
    /// array is shorter, and with `TypeMismatch` when this value is
    /// not an array.
    pub fn get_array_index<'a>(&'a self, index: usize) -> (r: Result<&'a JsonValue, PathError>)
        ensures
            spec_step(self@, StepModel::Index(index as int)) matches Ok(c) ==> (r matches Ok(rv)
                && rv@ == c),
            spec_step(self@, StepModel::Index(index as int)) matches Err(se) ==> (r matches Err(e)
                && e@ == se),
    {
        match self {
            JsonValue::Array(a) => {
                if index < a.len() {
                    Ok(&a[index])
                } else {
                    Err(PathError::IndexOutOfBounds { index, length: a.len() })
                }
            },
            _ => Err(PathError::TypeMismatch { expected: JsonKind::Array, actual: self.kind() }),
        }
    }

    /// Replaces the value under the first pair whose key is `key` by
    /// `new_value`, leaving every other pair as it was. The failures
    /// are those of [`Self::get_object_key`], and a failure leaves the
    /// tree untouched.
    pub fn get_object_key_mut(&mut self, key: &str, new_value: JsonValue) -> (r: Result<
        (),
        PathError,
    >)
        ensures
            spec_step(old(self)@, StepModel::Key(key@)) is Ok ==> (r is Ok && final(self)@
                == spec_set(old(self)@, seq![StepModel::Key(key@)], new_value@)),
            spec_step(old(self)@, StepModel::Key(key@)) matches Err(se) ==> (final(self)@
                == old(self)@ && (r matches Err(e) && e@ == se)),
    {
        let ghost nvm = new_value@;
        let mut tmp = JsonValue::Null;
        core::mem::swap(self, &mut tmp);
        match tmp {
            JsonValue::Object(mut o) => {
                let ghost om = pairs_view(o@);
                match find_key(&o, key) {
                    Some(i) => {
                        let pair = o.remove(i);
                        o.insert(i, (pair.0, new_value));
                        proof {
                            assert(old(self)@ == JsonModel::Object(om));
                            assert(first_key_index(om, key@) == i as int);
                            assert(pairs_view(o@) =~= om.update(i as int, (om[i as int].0, nvm)));
                            assert(seq![StepModel::Key(key@)].drop_first() =~= Seq::<
                                StepModel,
                            >::empty());
                            assert(spec_set(
                                om[i as int].1,
                                seq![StepModel::Key(key@)].drop_first(),
                                nvm,
                            ) == nvm);
                            assert(spec_set(old(self)@, seq![StepModel::Key(key@)], nvm)
                                == JsonModel::Object(om.update(i as int, (om[i as int].0, nvm))));
                        }
                        *self = JsonValue::Object(o);
                        Ok(())
                    },
                    None => {
                        *self = JsonValue::Object(o);
                        Err(PathError::KeyNotFound { key: key.to_owned() })
                    },
                }
            },
            other => {
                let actual = other.kind();
                *self = other;
                Err(PathError::TypeMismatch { expected: JsonKind::Object, actual })
            },
        }
    }

    /// Replaces the element at `index` by `new_value`, leaving every
    /// other element as it was. The failures are those of
    /// [`Self::get_array_index`], and a failure leaves the tree
    /// untouched.
    pub fn get_array_index_mut(&mut self, index: usize, new_value: JsonValue) -> (r: Result<
        (),
        PathError,
    >)
        ensures
            spec_step(old(self)@, StepModel::Index(index as int)) is Ok ==> (r is Ok
                && final(self)@ == spec_set(
                old(self)@,
                seq![StepModel::Index(index as int)],
                new_value@,
            )),
            spec_step(old(self)@, StepModel::Index(index as int)) matches Err(se) ==> (final(self)@
                == old(self)@ && (r matches Err(e) && e@ == se)),
    {
        let ghost nvm = new_value@;
        let mut tmp = JsonValue::Null;
        core::mem::swap(self, &mut tmp);
        match tmp {
            JsonValue::Array(mut a) => {
                let ghost am = elems_view(a@);
                if index < a.len() {
                    let _old = a.remove(index);
                    a.insert(index, new_value);
                    proof {
                        assert(old(self)@ == JsonModel::Array(am));
                        assert(elems_view(a@) =~= am.update(index as int, nvm));
                        assert(seq![StepModel::Index(index as int)].drop_first() =~= Seq::<
                            StepModel,
                        >::empty());
                        assert(spec_set(
                            am[index as int],
                            seq![StepModel::Index(index as int)].drop_first(),
                            nvm,
                        ) == nvm);
                        assert(spec_set(
                            old(self)@,
                            seq![StepModel::Index(index as int)],
                            nvm,
                        ) == JsonModel::Array(am.update(index as int, nvm)));
                    }
                    *self = JsonValue::Array(a);
                    Ok(())
                } else {
                    let length = a.len();
                    *self = JsonValue::Array(a);
                    Err(PathError::IndexOutOfBounds { index, length })
                }
            },
            other => {
                let actual = other.kind();
                *self = other;
                Err(PathError::TypeMismatch { expected: JsonKind::Array, actual })
            },
        }
    }
}

} // verus!
