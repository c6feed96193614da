//! The executable path engine: parsing a path expression into steps,
//! resolving it against a tree, and replacing the addressed sub-value
//! in place.

use vstd::prelude::*;
use crate::model::{digit_val, is_digit_char, JsonModel};
use crate::path_model::{
    digits_chunk_len, digits_val, first_key_index, key_chunk_len, spec_parse_path,
    spec_parse_steps, spec_resolve, spec_set, spec_step, spec_walk, PathErrModel, StepModel,
};
use crate::text::{chars_to_string, str_to_chars};
use crate::value::{elems_view, find_key, pairs_view, JsonValue, PathError};

verus! {

/// One parsed step of a path expression.
#[derive(Debug, PartialEq)]
pub enum PathStep {
    Key(String),
    Index(usize),
}

impl PathStep {
    pub open spec fn view(&self) -> StepModel {
        match self {
            PathStep::Key(k) => StepModel::Key(k@),
            PathStep::Index(i) => StepModel::Index(*i as int),
        }
    }
}

/// The models of a run of steps.
pub open spec fn steps_view(s: Seq<PathStep>) -> Seq<StepModel> {
    Seq::new(s.len(), |i: int| s[i]@)
}

fn is_key_char_exec(c: char) -> (b: bool)
    ensures
        b == crate::path_model::is_key_char(c),
{
    c != '.' && c != '[' && c != ']'
}

/// The position after the run of key characters starting at `pos`.
fn key_chunk_end(v: &Vec<char>, pos: usize) -> (r: usize)
    requires
        pos <= v@.len(),
    ensures
        pos <= r <= v@.len(),
        key_chunk_len(v@.skip(pos as int)) == r - pos,
    decreases v@.len() - pos,
{
    if pos < v.len() && is_key_char_exec(v[pos]) {
        let r = key_chunk_end(v, pos + 1);
        proof {
            assert(v@.skip(pos as int).skip(1) =~= v@.skip(pos + 1));
        }
        r
    } else {
        pos
    }
}

/// The position after the run of decimal digits starting at `pos`.
fn digits_chunk_end(v: &Vec<char>, pos: usize) -> (r: usize)
    requires
        pos <= v@.len(),
    ensures
        pos <= r <= v@.len(),
        digits_chunk_len(v@.skip(pos as int)) == r - pos,
    decreases v@.len() - pos,
{
    if pos < v.len() && '0' <= v[pos] && v[pos] <= '9' {
        let r = digits_chunk_end(v, pos + 1);
        proof {
            assert(v@.skip(pos as int).skip(1) =~= v@.skip(pos + 1));
        }
        r
    } else {
        pos
    }
}

/// The value of a digit prefix never shrinks as the prefix grows.
proof fn lemma_digits_val_prefix(s: Seq<char>, k: int)
    requires
        0 <= k <= s.len(),
    ensures
        digits_val(s.take(k)) <= digits_val(s),
    decreases s.len() - k,
{
    if k == s.len() {
        assert(s.take(k) =~= s);
    } else {
        lemma_digits_val_prefix(s, k + 1);
        assert(s.take(k + 1).take(k) =~= s.take(k));
        assert(digits_val(s.take(k + 1)) == digits_val(s.take(k)) * 10 + digit_val(
            s.take(k + 1)[k],
        ));
        assert(digits_val(s.take(k)) * 10 >= digits_val(s.take(k)));
    }
}

/// The number the digits `v[from..to]` write, where it fits the
/// machine word.
fn digits_value(v: &Vec<char>, from: usize, to: usize) -> (r: Option<usize>)
    requires
        from <= to <= v@.len(),
        forall|j: int| from <= j < to ==> is_digit_char(#[trigger] v@[j]),
    ensures
        r matches Some(x) ==> x == digits_val(v@.subrange(from as int, to as int))
            && digits_val(v@.subrange(from as int, to as int)) <= usize::MAX,
        r is None ==> digits_val(v@.subrange(from as int, to as int)) > usize::MAX,
{
    let ghost chunk = v@.subrange(from as int, to as int);
    let mut x: usize = 0;
    let mut i: usize = from;
    proof {
        assert(chunk.take(0) =~= Seq::<char>::empty());
    }
    while i < to
        invariant
            from <= i <= to <= v@.len(),
            chunk == v@.subrange(from as int, to as int),
            x == digits_val(chunk.take(i - from)),
            forall|j: int| from <= j < to ==> is_digit_char(#[trigger] v@[j]),
        decreases to - i,
    {
        proof {
            assert(is_digit_char(v@[i as int]));
        }
        let c = v[i];
        let d = ((c as u32) - 48) as usize;
        proof {
            assert(d == digit_val(c));
            assert(chunk.take(i + 1 - from).take(i - from) =~= chunk.take(i - from));
            assert(chunk.take(i + 1 - from)[i - from] == v@[i as int]);
        }
        let y = match x.checked_mul(10) {
            Some(y) => y,
            None => {
                proof {
                    lemma_digits_val_prefix(chunk, i + 1 - from);
                    assert(digits_val(chunk.take(i + 1 - from)) > usize::MAX);
                }
                return None;
            },
        };
        let z = match y.checked_add(d) {
            Some(z) => z,
            None => {
                proof {
                    lemma_digits_val_prefix(chunk, i + 1 - from);
                    assert(digits_val(chunk.take(i + 1 - from)) > usize::MAX);
                }
                return None;
            },
        };
        x = z;
        i = i + 1;
    }
    proof {
        assert(chunk.take(to - from) =~= chunk);
    }
    Some(x)
}

/// Parses a whole path expression over its characters.
fn parse_path_chars(v: &Vec<char>) -> (r: Option<Vec<PathStep>>)
    ensures
        r matches Some(steps) ==> spec_parse_path(v@) == Some(steps_view(steps@)),
        r is None ==> spec_parse_path(v@) is None,
{
    let n = v.len();
    if n == 0 || (n == 1 && v[0] == '.') {
        let steps: Vec<PathStep> = Vec::new();
        proof {
            assert(steps_view(steps@) =~= Seq::<StepModel>::empty());
        }
        return Some(steps);
    }
    let mut steps: Vec<PathStep> = Vec::new();
    let mut p: usize;
    if v[0] == '[' {
        p = 0;
        proof {
            assert(steps_view(steps@) =~= Seq::<StepModel>::empty());
            assert(v@.skip(0) =~= v@);
        }
    } else {
        let k = key_chunk_end(v, 0);
        if k == 0 {
            proof {
                assert(v@.skip(0) =~= v@);
            }
            return None;
        }
        let mut kchars: Vec<char> = Vec::new();
        let mut i: usize = 0;
        while i < k
            invariant
                i <= k <= v@.len(),
                kchars@ == v@.subrange(0, i as int),
            decreases k - i,
        {
            kchars.push(v[i]);
            proof {
                assert(v@.subrange(0, i + 1) =~= v@.subrange(0, i as int).push(v@[i as int]));
            }
            i = i + 1;
        }
        steps.push(PathStep::Key(chars_to_string(&kchars)));
        p = k;
        proof {
            assert(v@.skip(0) =~= v@);
            assert(v@.take(k as int) =~= kchars@);
            assert(steps_view(steps@) =~= seq![StepModel::Key(v@.take(k as int))]);
        }
    }
    loop
        invariant
            p <= v@.len(),
            spec_parse_path(v@) == spec_parse_steps(v@.skip(p as int), steps_view(steps@)),
        decreases v@.len() - p,
    {
        let ghost sp = v@.skip(p as int);
        let ghost accm = steps_view(steps@);
        if p == v.len() {
            proof {
                assert(sp.len() == 0);
            }
            return Some(steps);
        }
        let c = v[p];
        proof {
            assert(sp[0] == c);
            assert(sp.skip(1) =~= v@.skip(p + 1));
        }
        if c == '[' {
            let dend = digits_chunk_end(v, p + 1);
            let d = dend - (p + 1);
            if d > 0 && dend < v.len() && v[dend] == ']' {
                proof {
                    assert(sp[1 + d] == v@[dend as int]);
                    assert(sp.skip(1).take(d as int) =~= v@.subrange(p + 1, dend as int));
                    crate::path_model::lemma_digits_chunk_chars(v@.skip(p + 1));
                    assert forall|j: int| p + 1 <= j < dend implies is_digit_char(
                        #[trigger] v@[j],
                    ) by {
                        assert(v@.skip(p + 1)[j - (p + 1)] == v@[j]);
                    }
                }
                match digits_value(v, p + 1, dend) {
                    Some(x) => {
                        steps.push(PathStep::Index(x));
                        proof {
                            assert(steps_view(steps@) =~= accm.push(StepModel::Index(x as int)));
                            assert(sp.skip(d + 2) =~= v@.skip(p + d + 2));
                        }
                        p = dend + 1;
                    },
                    None => {
                        return None;
                    },
                }
            } else {
                proof {
                    if 1 + d < sp.len() && sp[1 + d] == ']' {
                        assert(v@[dend as int] == ']');
                    }
                }
                return None;
            }
        } else if c == '.' {
            let kend = key_chunk_end(v, p + 1);
            let k = kend - (p + 1);
            if k > 0 {
                let mut kchars: Vec<char> = Vec::new();
                let mut i: usize = p + 1;
                while i < kend
                    invariant
                        p + 1 <= i <= kend <= v@.len(),
                        kchars@ == v@.subrange(p + 1, i as int),
                    decreases kend - i,
                {
                    kchars.push(v[i]);
                    proof {
                        assert(v@.subrange(p + 1, i + 1) =~= v@.subrange(p + 1, i as int).push(
                            v@[i as int],
                        ));
                    }
                    i = i + 1;
                }
                steps.push(PathStep::Key(chars_to_string(&kchars)));
                proof {
                    assert(sp.skip(1).take(k as int) =~= v@.subrange(p + 1, kend as int));
                    assert(steps_view(steps@) =~= accm.push(StepModel::Key(kchars@)));
                    assert(sp.skip(k + 1) =~= v@.skip(p + k + 1));
                }
                p = kend;
            } else {
                return None;
            }
        } else {
            return None;
        }
    }
}

/// Walks the steps against `v`, reporting the first failure.
fn walk_check(v: &JsonValue, steps: &Vec<PathStep>) -> (r: Result<(), PathError>)
    ensures
        spec_walk(v@, steps_view(steps@)) is Ok ==> r is Ok,
        spec_walk(v@, steps_view(steps@)) matches Err(se) ==> (r matches Err(e) && e@ == se),
{
    let ghost sm = steps_view(steps@);
    let mut cur: &JsonValue = v;
    let mut i: usize = 0;
    proof {
        assert(sm.skip(0) =~= sm);
    }
    while i < steps.len()
        invariant
            i <= steps@.len(),
            sm == steps_view(steps@),
            spec_walk(v@, sm) == spec_walk(cur@, sm.skip(i as int)),
        decreases steps@.len() - i,
    {
        proof {
            assert(sm.skip(i as int)[0] == steps@[i as int]@);
            assert(sm.skip(i as int).drop_first() =~= sm.skip(i + 1));
        }
        let sr = match &steps[i] {
            PathStep::Key(k) => cur.get_object_key(k.as_str()),
            PathStep::Index(ix) => cur.get_array_index(*ix),
        };
        match sr {
            Ok(c) => {
                cur = c;
                i = i + 1;
            },
            Err(e) => {
                return Err(e);
            },
        }
    }
    proof {
        assert(sm.skip(steps@.len() as int).len() == 0);
    }
    Ok(())
}

/// Rebuilds `v` with the sub-value under `steps[i..]` replaced by
/// `nv`; every node off that path is kept as it was.
fn set_at(v: JsonValue, steps: &Vec<PathStep>, i: usize, nv: JsonValue) -> (out: JsonValue)
    requires
        i <= steps@.len(),
        spec_walk(v@, steps_view(steps@).skip(i as int)) is Ok,
    ensures
        out@ == spec_set(v@, steps_view(steps@).skip(i as int), nv@),
    decreases steps@.len() - i,
{
    let ghost sm = steps_view(steps@);
    if i == steps.len() {
        proof {
            assert(sm.skip(i as int).len() == 0);
        }
        return nv;
    }
    proof {
        assert(sm.skip(i as int)[0] == steps@[i as int]@);
        assert(sm.skip(i as int).drop_first() =~= sm.skip(i + 1));
    }
    let ghost nvm = nv@;
    match &steps[i] {
        PathStep::Key(k) => {
            match v {
                JsonValue::Object(mut o) => {
                    let ghost om = pairs_view(o@);
                    match find_key(&o, k.as_str()) {
                        Some(j) => {
                            let pair = o.remove(j);
                            let child = set_at(pair.1, steps, i + 1, nv);
                            o.insert(j, (pair.0, child));
                            proof {
                                assert(pairs_view(o@) =~= om.update(
                                    j as int,
                                    (om[j as int].0, spec_set(om[j as int].1, sm.skip(i + 1), nvm)),
                                ));
                            }
                            JsonValue::Object(o)
                        },
                        None => vstd::pervasive::unreached(),
                    }
                },
                _ => vstd::pervasive::unreached(),
            }
        },
        PathStep::Index(ix) => {
            match v {
                JsonValue::Array(mut a) => {
                    let ghost am = crate::value::elems_view(a@);
                    if *ix < a.len() {
                        let old_child = a.remove(*ix);
                        let child = set_at(old_child, steps, i + 1, nv);
                        a.insert(*ix, child);
                        proof {
                            assert(crate::value::elems_view(a@) =~= am.update(
                                *ix as int,
                                spec_set(am[*ix as int], sm.skip(i + 1), nvm),
                            ));
                        }
                        JsonValue::Array(a)
                    } else {
                        vstd::pervasive::unreached()
                    }
                },
                _ => vstd::pervasive::unreached(),
            }
        },
    }
}

impl JsonValue {
    /// The sub-value the path addresses, walking key and index steps
    /// left to right from this value. A malformed path fails with
    /// `Syntax` before any step is tried; otherwise the first failing
    /// step decides the error.
    pub fn get_path<'a>(&'a self, path: &str) -> (r: Result<&'a JsonValue, PathError>)
        ensures
            spec_resolve(self@, path@) matches Ok(c) ==> (r matches Ok(rv) && rv@ == c),
            spec_resolve(self@, path@) matches Err(se) ==> (r matches Err(e) && e@ == se),
    {
        let chars = str_to_chars(path);
        let steps = match parse_path_chars(&chars) {
            Some(s) => s,
            None => {
                return Err(PathError::Syntax { path: path.to_owned() });
            },
        };
        let ghost sm = steps_view(steps@);
        let mut cur: &JsonValue = self;
        let mut i: usize = 0;
        proof {
            assert(sm.skip(0) =~= sm);
        }
        while i < steps.len()
            invariant
                i <= steps@.len(),
                sm == steps_view(steps@),
                spec_resolve(self@, path@) == spec_walk(self@, sm),
                spec_walk(self@, sm) == spec_walk(cur@, sm.skip(i as int)),
            decreases steps@.len() - i,
        {
            proof {
                assert(sm.skip(i as int)[0] == steps@[i as int]@);
                assert(sm.skip(i as int).drop_first() =~= sm.skip(i + 1));
            }
            let sr = match &steps[i] {
                PathStep::Key(k) => cur.get_object_key(k.as_str()),
                PathStep::Index(ix) => cur.get_array_index(*ix),
            };
            match sr {
                Ok(c) => {
                    cur = c;
                    i = i + 1;
                },
                Err(e) => {
                    return Err(e);
                },
            }
        }
        proof {
            assert(sm.skip(steps@.len() as int).len() == 0);
        }
        Ok(cur)
    }

    /// Resolves the path as [`Self::get_path`] does and replaces the
    /// addressed sub-value by `new_value`, leaving every node off the
    /// path as it was. A failure leaves the tree untouched.
    pub fn get_path_mut(&mut self, path: &str, new_value: JsonValue) -> (r: Result<(), PathError>)
        ensures
            spec_parse_path(path@) is None ==> (final(self)@ == old(self)@ && (r matches Err(e)
                && e@ == PathErrModel::Syntax(path@))),
            spec_parse_path(path@) matches Some(steps) ==> (spec_walk(old(self)@, steps) is Ok
                ==> (r is Ok && final(self)@ == spec_set(old(self)@, steps, new_value@))),
            spec_parse_path(path@) matches Some(steps) ==> (spec_walk(old(self)@, steps)
                matches Err(se) ==> (final(self)@ == old(self)@ && (r matches Err(e) && e@
                == se))),
    {
        let chars = str_to_chars(path);
        let steps = match parse_path_chars(&chars) {
            Some(s) => s,
            None => {
                return Err(PathError::Syntax { path: path.to_owned() });
            },
        };
        match walk_check(self, &steps) {
            Ok(()) => {
                let mut tmp = JsonValue::Null;
                core::mem::swap(self, &mut tmp);
                proof {
                    assert(steps_view(steps@).skip(0) =~= steps_view(steps@));
                }
                let out = set_at(tmp, &steps, 0, new_value);
                *self = out;
                Ok(())
            },
            Err(e) => Err(e),
        }
    }
}

} // verus!
