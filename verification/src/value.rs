//! The dynamic value type carried across every extension call.
//!
//! Extensions receive and produce union-typed values: null, booleans,
//! numbers, strings, arrays and objects.  An object is an association list
//! in insertion order; a lookup takes the latest binding of a key, as in a
//! map into which the pairs were inserted one after the other.  The
//! mathematical model of a value is [`Jv`], reached through [`DeepView`].

use vstd::prelude::*;

verus! {

/// Mathematical model of a [`Value`]: the same tree over `Seq` and `int`.
#[verifier::ext_equal]
pub enum Jv {
    Null,
    Bool(bool),
    Number(i64),
    String(Seq<char>),
    Array(Seq<Jv>),
    Object(Seq<(Seq<char>, Jv)>),
}

/// A dynamic template-engine value.
///
/// Numbers are 64-bit signed integers.  An object keeps its bindings in
/// insertion order; duplicate keys are allowed by the representation and a
/// lookup returns the latest binding, so a later pair supersedes an
/// earlier one of the same key.
pub enum Value {
    Null,
    Bool(bool),
    Number(i64),
    String(String),
    Array(Vec<Value>),
    Object(Vec<(String, Value)>),
}

/// The model of a value: the same tree with strings and vectors replaced by
/// their views.
pub open spec fn jv_of(v: Value) -> Jv
    decreases v,
        via jv_of_decreases
{
    match v {
        Value::Null => Jv::Null,
        Value::Bool(b) => Jv::Bool(b),
        Value::Number(n) => Jv::Number(n),
        Value::String(s) => Jv::String(s@),
        Value::Array(a) => Jv::Array(
            Seq::new(
                a@.len(),
                |i: int| if 0 <= i < a@.len() { jv_of(a@[i]) } else { Jv::Null },
            ),
        ),
        Value::Object(m) => Jv::Object(
            Seq::new(
                m@.len(),
                |i: int|
                    if 0 <= i < m@.len() {
                        (m@[i].0@, jv_of(m@[i].1))
                    } else {
                        (Seq::empty(), Jv::Null)
                    },
            ),
        ),
    }
}

#[via_fn]
proof fn jv_of_decreases(v: Value) {
    broadcast use vstd::std_specs::vec::axiom_vec_index_decreases;

    match v {
        Value::Array(a) => {
            assert forall|i: int| 0 <= i < a@.len() implies decreases_to!(v => a@[i]) by {
                assert(decreases_to!(a => a[i]));
            }
        },
        Value::Object(m) => {
            assert forall|i: int| 0 <= i < m@.len() implies decreases_to!(v => m@[i].1) by {
                assert(decreases_to!(m => m[i]));
                assert(decreases_to!(m[i] => m[i].1));
            }
        },
        _ => {},
    }
}

impl DeepView for Value {
    type V = Jv;

    open spec fn deep_view(&self) -> Jv {
        jv_of(*self)
    }
}

/// The model of an array is the array of the element models.
pub proof fn lemma_jv_of_array(a: Vec<Value>)
    ensures
        jv_of(Value::Array(a)) == Jv::Array(a.deep_view()),
{
    assert(jv_of(Value::Array(a))->Array_0 =~= a.deep_view());
}

/// The model of an object is the list of the member models.
pub proof fn lemma_jv_of_object(m: Vec<(String, Value)>)
    ensures
        jv_of(Value::Object(m)) == Jv::Object(m.deep_view()),
{
    assert(jv_of(Value::Object(m))->Object_0 =~= m.deep_view());
}

/// Copy a value structurally.
pub fn clone_value(v: &Value) -> (r: Value)
    ensures
        r.deep_view() == v.deep_view(),
    decreases v,
{
    match v {
        Value::Null => Value::Null,
        Value::Bool(b) => Value::Bool(*b),
        Value::Number(n) => Value::Number(*n),
        Value::String(s) => Value::String(s.clone()),
        Value::Array(a) => {
            let mut out: Vec<Value> = Vec::new();
            let n = a.len();
            proof {
                assert(out.deep_view() =~= a.deep_view().take(0));
            }
            for i in 0..n
                invariant
                    n == a@.len(),
                    v == Value::Array(*a),
                    out.deep_view() == a.deep_view().take(i as int),
                    out@.len() == i,
            {
                proof {
                    broadcast use vstd::std_specs::vec::axiom_vec_index_decreases;

                    assert(decreases_to!(*v => v->Array_0));
                    assert(v->Array_0 == *a);
                    assert(decreases_to!(*a => a@[i as int]));
                    assert(decreases_to!(*v => a@[i as int]));
                }
                let c = clone_value(&a[i]);
                let ghost snap = out.deep_view();
                out.push(c);
                proof {
                    assert(a.deep_view()[i as int] == a@[i as int].deep_view());
                    assert(out.deep_view() =~= snap.push(a@[i as int].deep_view()));
                    assert(a.deep_view().take(i + 1) =~= a.deep_view().take(i as int).push(
                        a.deep_view()[i as int],
                    ));
                }
            }
            proof {
                assert(a.deep_view().take(n as int) =~= a.deep_view());
                lemma_jv_of_array(out);
                lemma_jv_of_array(*a);
            }
            Value::Array(out)
        },
        Value::Object(m) => {
            let mut out: Vec<(String, Value)> = Vec::new();
            let n = m.len();
            proof {
                assert(out.deep_view() =~= m.deep_view().take(0));
            }
            for i in 0..n
                invariant
                    n == m@.len(),
                    v == Value::Object(*m),
                    out.deep_view() == m.deep_view().take(i as int),
                    out@.len() == i,
            {
                proof {
                    broadcast use vstd::std_specs::vec::axiom_vec_index_decreases;

                    assert(decreases_to!(*v => v->Object_0));
                    assert(v->Object_0 == *m);
                    assert(decreases_to!(*m => m@[i as int]));
                    assert(decreases_to!(m@[i as int] => m@[i as int].1));
                    assert(decreases_to!(*v => m@[i as int].1));
                }
                let c = clone_value(&m[i].1);
                let k = m[i].0.clone();
                let ghost snap = out.deep_view();
                out.push((k, c));
                proof {
                    assert(m.deep_view()[i as int] == m@[i as int].deep_view());
                    assert(out.deep_view() =~= snap.push(m@[i as int].deep_view()));
                    assert(m.deep_view().take(i + 1) =~= m.deep_view().take(i as int).push(
                        m.deep_view()[i as int],
                    ));
                }
            }
            proof {
                assert(m.deep_view().take(n as int) =~= m.deep_view());
                lemma_jv_of_object(out);
                lemma_jv_of_object(*m);
            }
            Value::Object(out)
        },
    }
}

/// The latest binding of `key` among `pairs`, if any.
pub open spec fn spec_lookup(pairs: Seq<(Seq<char>, Jv)>, key: Seq<char>) -> Option<Jv>
    decreases pairs.len(),
{
    if pairs.len() == 0 {
        None
    } else if pairs.last().0 == key {
        Some(pairs.last().1)
    } else {
        spec_lookup(pairs.drop_last(), key)
    }
}

/// Whether some binding of `key` exists among `pairs`.
pub open spec fn spec_has_key(pairs: Seq<(Seq<char>, Jv)>, key: Seq<char>) -> bool {
    spec_lookup(pairs, key) is Some
}

impl Value {
    /// The latest binding of `key` in this object's pairs.
    ///
    /// Returns `None` when the value is not an object or the key is absent.
    pub fn get<'a>(&'a self, key: &str) -> (r: Option<&'a Value>)
        ensures
            match self.deep_view() {
                Jv::Object(pairs) => match spec_lookup(pairs, key@) {
                    Some(jv) => r is Some && r->0.deep_view() == jv,
                    None => r is None,
                },
                _ => r is None,
            },
    {
        match self {
            Value::Object(pairs) => {
                let k = String::from_str(key);
                let ghost gpairs = self.deep_view()->Object_0;
                let n = pairs.len();
                proof {
                    assert(gpairs.take(n as int) =~= gpairs);
                }
                let mut i = n;
                while i > 0
                    invariant
                        i <= n,
                        n == pairs.len(),
                        self == Value::Object(*pairs),
                        gpairs == self.deep_view()->Object_0,
                        gpairs.len() == pairs.len(),
                        forall|j: int| 0 <= j < gpairs.len()
                            ==> #[trigger] gpairs[j] == (pairs@[j].0@, pairs@[j].1.deep_view()),
                        k@ == key@,
                        spec_lookup(gpairs, key@) == spec_lookup(gpairs.take(i as int), key@),
                    decreases i,
                {
                    i = i - 1;
                    proof {
                        assert(gpairs.take(i + 1).drop_last() =~= gpairs.take(i as int));
                        assert(gpairs.take(i + 1).last() == gpairs[i as int]);
                    }
                    if pairs[i].0 == k {
                        return Some(&pairs[i].1);
                    }
                }
                proof {
                    assert(gpairs.take(0) =~= Seq::<(Seq<char>, Jv)>::empty());
                }
                None
            },
            _ => None,
        }
    }
}

} // verus!
