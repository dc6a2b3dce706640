//! The value model: a closed set of variants for semi-structured trace data,
//! node paths addressing positions inside a value tree, and trace snapshots.

use vstd::prelude::*;

verus! {

/// One node of a parsed trace value. Collections hold their elements in a
/// fixed order; for `Mapping` the order fixes the positional indices that the
/// diff and the renderer agree on, for `SetOf` the order is display-only.
pub enum Value {
    Bool(bool),
    Number(i64),
    /// An arbitrary-precision integer, kept as its decimal digit string;
    /// see `canonical_int_text` for the expected form.
    BigInt(String),
    Text(String),
    /// Ordered field-name / value pairs; insertion order is significant.
    Record(Vec<(String, Value)>),
    /// Ordered key / value pairs, keyed by value equality.
    Mapping(Vec<(Value, Value)>),
    SetOf(Vec<Value>),
    List(Vec<Value>),
    Tuple(Vec<Value>),
    /// Opaque fallback for data the loader could not interpret.
    Unserializable(String),
}

/// Deep structural equality on values.
pub open spec fn value_eq(a: Value, b: Value) -> bool
    decreases a,
{
    match (a, b) {
        (Value::Bool(x), Value::Bool(y)) => x == y,
        (Value::Number(x), Value::Number(y)) => x == y,
        (Value::BigInt(x), Value::BigInt(y)) => x@ == y@,
        (Value::Text(x), Value::Text(y)) => x@ == y@,
        (Value::Record(x), Value::Record(y)) => {
            &&& x@.len() == y@.len()
            &&& forall|i: int|
                0 <= i < x@.len() ==> x@[i].0@ == y@[i].0@ && value_eq(x@[i].1, y@[i].1)
        },
        (Value::Mapping(x), Value::Mapping(y)) => {
            &&& x@.len() == y@.len()
            &&& forall|i: int|
                0 <= i < x@.len() ==> value_eq(x@[i].0, y@[i].0) && value_eq(x@[i].1, y@[i].1)
        },
        (Value::SetOf(x), Value::SetOf(y)) => {
            &&& x@.len() == y@.len()
            &&& forall|i: int| 0 <= i < x@.len() ==> value_eq(x@[i], y@[i])
        },
        (Value::List(x), Value::List(y)) => {
            &&& x@.len() == y@.len()
            &&& forall|i: int| 0 <= i < x@.len() ==> value_eq(x@[i], y@[i])
        },
        (Value::Tuple(x), Value::Tuple(y)) => {
            &&& x@.len() == y@.len()
            &&& forall|i: int| 0 <= i < x@.len() ==> value_eq(x@[i], y@[i])
        },
        (Value::Unserializable(x), Value::Unserializable(y)) => x@ == y@,
        _ => false,
    }
}

/// Deep equality is reflexive.
pub proof fn lemma_value_eq_refl(a: Value)
    ensures
        value_eq(a, a),
    decreases a,
{
    match a {
        Value::Record(x) => {
            assert forall|i: int| 0 <= i < x@.len() implies x@[i].0@ == x@[i].0@ && value_eq(
                x@[i].1,
                x@[i].1,
            ) by {
                lemma_value_eq_refl(x@[i].1);
            }
        },
        Value::Mapping(x) => {
            assert forall|i: int| 0 <= i < x@.len() implies value_eq(x@[i].0, x@[i].0) && value_eq(
                x@[i].1,
                x@[i].1,
            ) by {
                lemma_value_eq_refl(x@[i].0);
                lemma_value_eq_refl(x@[i].1);
            }
        },
        Value::SetOf(x) => {
            assert forall|i: int| 0 <= i < x@.len() implies value_eq(x@[i], x@[i]) by {
                lemma_value_eq_refl(x@[i]);
            }
        },
        Value::List(x) => {
            assert forall|i: int| 0 <= i < x@.len() implies value_eq(x@[i], x@[i]) by {
                lemma_value_eq_refl(x@[i]);
            }
        },
        Value::Tuple(x) => {
            assert forall|i: int| 0 <= i < x@.len() implies value_eq(x@[i], x@[i]) by {
                lemma_value_eq_refl(x@[i]);
            }
        },
        _ => {},
    }
}

/// Decides deep structural equality of two values.
#[verifier::loop_isolation(false)]
pub fn values_equal(a: &Value, b: &Value) -> (r: bool)
    ensures
        r == value_eq(*a, *b),
    decreases *a,
{
    match a {
        Value::Bool(x) => match b {
            Value::Bool(y) => *x == *y,
            _ => false,
        },
        Value::Number(x) => match b {
            Value::Number(y) => *x == *y,
            _ => false,
        },
        Value::BigInt(x) => match b {
            Value::BigInt(y) => *x == *y,
            _ => false,
        },
        Value::Text(x) => match b {
            Value::Text(y) => *x == *y,
            _ => false,
        },
        Value::Record(x) => match b {
            Value::Record(y) => {
                if x.len() != y.len() {
                    return false;
                }
                let n = x.len();
                let mut i: usize = 0;
                while i < n
                    invariant
                        n == x@.len() == y@.len(),
                        i <= n,
                        forall|k: int|
                            0 <= k < i ==> x@[k].0@ == y@[k].0@ && value_eq(x@[k].1, y@[k].1),
                    decreases n - i,
                {
                    if !(x[i].0 == y[i].0) {
                        proof {
                            assert(!(x@[i as int].0@ == y@[i as int].0@ && value_eq(
                                x@[i as int].1,
                                y@[i as int].1,
                            )));
                        }
                        return false;
                    }
                    proof {
                        assert(decreases_to!(x@ => x@[i as int]));
                        assert(decreases_to!(x@[i as int] => x@[i as int].1));
                    }
                    if !values_equal(&x[i].1, &y[i].1) {
                        proof {
                            assert(!(x@[i as int].0@ == y@[i as int].0@ && value_eq(
                                x@[i as int].1,
                                y@[i as int].1,
                            )));
                        }
                        return false;
                    }
                    i += 1;
                }
                proof {
                    assert(forall|k: int|
                        0 <= k < x@.len() ==> x@[k].0@ == y@[k].0@ && value_eq(
                            x@[k].1,
                            y@[k].1,
                        ));
                }
                true
            },
            _ => false,
        },
        Value::Mapping(x) => match b {
            Value::Mapping(y) => {
                if x.len() != y.len() {
                    return false;
                }
                let n = x.len();
                let mut i: usize = 0;
                while i < n
                    invariant
                        n == x@.len() == y@.len(),
                        i <= n,
                        forall|k: int|
                            0 <= k < i ==> value_eq(x@[k].0, y@[k].0) && value_eq(
                                x@[k].1,
                                y@[k].1,
                            ),
                    decreases n - i,
                {
                    proof {
                        assert(decreases_to!(x@ => x@[i as int]));
                        assert(decreases_to!(x@[i as int] => x@[i as int].0));
                        assert(decreases_to!(x@[i as int] => x@[i as int].1));
                    }
                    if !values_equal(&x[i].0, &y[i].0) {
                        proof {
                            assert(!(value_eq(x@[i as int].0, y@[i as int].0) && value_eq(
                                x@[i as int].1,
                                y@[i as int].1,
                            )));
                        }
                        return false;
                    }
                    if !values_equal(&x[i].1, &y[i].1) {
                        proof {
                            assert(!(value_eq(x@[i as int].0, y@[i as int].0) && value_eq(
                                x@[i as int].1,
                                y@[i as int].1,
                            )));
                        }
                        return false;
                    }
                    i += 1;
                }
                proof {
                    assert(forall|k: int|
                        0 <= k < x@.len() ==> value_eq(x@[k].0, y@[k].0) && value_eq(
                            x@[k].1,
                            y@[k].1,
                        ));
                }
                true
            },
            _ => false,
        },
        Value::SetOf(x) => match b {
            Value::SetOf(y) => vec_values_equal(x, y),
            _ => false,
        },
        Value::List(x) => match b {
            Value::List(y) => vec_values_equal(x, y),
            _ => false,
        },
        Value::Tuple(x) => match b {
            Value::Tuple(y) => vec_values_equal(x, y),
            _ => false,
        },
        Value::Unserializable(x) => match b {
            Value::Unserializable(y) => *x == *y,
            _ => false,
        },
    }
}

/// Decides element-wise deep equality of two value sequences.
fn vec_values_equal(x: &Vec<Value>, y: &Vec<Value>) -> (r: bool)
    ensures
        r == (x@.len() == y@.len() && forall|i: int|
            0 <= i < x@.len() ==> value_eq(x@[i], y@[i])),
    decreases x@,
{
    if x.len() != y.len() {
        return false;
    }
    let n = x.len();
    let mut i: usize = 0;
    while i < n
        invariant
            n == x@.len() == y@.len(),
            i <= n,
            forall|k: int| 0 <= k < i ==> value_eq(x@[k], y@[k]),
        decreases n - i,
    {
        if !values_equal(&x[i], &y[i]) {
            return false;
        }
        i += 1;
    }
    true
}

/// Address of a node in a value tree: the top-level variable name followed by
/// field names, positional index strings, or synthetic segments.
pub type NodePath = Vec<String>;

/// Clones a path and appends one segment.
pub fn path_push(path: &NodePath, seg: &String) -> (r: NodePath)
    ensures
        r.deep_view() == path.deep_view().push(seg@),
{
    let mut r = clone_path(path);
    r.push(clone_string(seg));
    proof {
        assert(r.deep_view() =~= path.deep_view().push(seg@));
    }
    r
}

/// Clones a path; the copy addresses the same node.
pub fn clone_path(path: &NodePath) -> (r: NodePath)
    ensures
        r.deep_view() == path.deep_view(),
{
    let r = path.clone();
    proof {
        assert forall|i: int| 0 <= i < r@.len() implies r@[i]@ == path@[i]@ by {
            assert(cloned::<String>(path@[i], r@[i]));
        }
        assert(r.deep_view() =~= path.deep_view());
    }
    r
}

/// Clones one string segment.
pub fn clone_string(s: &String) -> (r: String)
    ensures
        r@ == s@,
{
    s.clone()
}

/// The first `n` segments of a path.
pub fn path_prefix(path: &NodePath, n: usize) -> (r: NodePath)
    requires
        n <= path@.len(),
    ensures
        r.deep_view() == path.deep_view().take(n as int),
{
    let mut r: NodePath = Vec::new();
    let mut i: usize = 0;
    while i < n
        invariant
            i <= n <= path@.len(),
            r@.len() == i,
            forall|k: int| 0 <= k < i ==> r@[k]@ == path@[k]@,
        decreases n - i,
    {
        r.push(clone_string(&path[i]));
        i += 1;
    }
    proof {
        assert(r.deep_view() =~= path.deep_view().take(n as int));
    }
    r
}

/// Decides whether two paths address the same node.
pub fn path_eq(a: &NodePath, b: &NodePath) -> (r: bool)
    ensures
        r == (a.deep_view() == b.deep_view()),
{
    if a.len() != b.len() {
        assert(a.deep_view().len() != b.deep_view().len());
        return false;
    }
    let n = a.len();
    let mut i: usize = 0;
    while i < n
        invariant
            n == a@.len() == b@.len(),
            i <= n,
            forall|k: int| 0 <= k < i ==> a@[k]@ == b@[k]@,
        decreases n - i,
    {
        if !(a[i] == b[i]) {
            assert(a.deep_view()[i as int] != b.deep_view()[i as int]);
            return false;
        }
        i += 1;
    }
    proof {
        assert(a.deep_view() =~= b.deep_view());
    }
    true
}

/// A canonical decimal integer string: an optional leading minus followed
/// by at least one digit, with no leading zero except on zero itself and no
/// minus on zero. `BigInt` payloads are expected in this form; the loader
/// obtains them from an arbitrary-precision integer's decimal printing, and
/// the renderer prints them as they stand.
pub open spec fn canonical_int_text(s: Seq<char>) -> bool {
    if s.len() > 0 && s[0] == '-' {
        let ds = s.drop_first();
        &&& ds.len() > 0
        &&& forall|i: int| 0 <= i < ds.len() ==> '0' <= #[trigger] ds[i] <= '9'
        &&& ds[0] != '0'
    } else {
        &&& s.len() > 0
        &&& forall|i: int| 0 <= i < s.len() ==> '0' <= #[trigger] s[i] <= '9'
        &&& (s.len() == 1 || s[0] != '0')
    }
}

/// One trace snapshot: named variables and their values, in display order.
pub struct State {
    pub values: Vec<(String, Value)>,
}

/// Variable names within one state are distinct.
pub open spec fn distinct_names(s: Seq<(String, Value)>) -> bool {
    forall|i: int, j: int| 0 <= i < j < s.len() ==> s[i].0@ != s[j].0@
}

/// An ordered run of snapshots over a fixed set of variable names.
pub struct Trace {
    pub vars: Vec<String>,
    pub states: Vec<State>,
}

} // verus!
