//! The JSON-like value that evaluation environments and bound arguments hold.

use vstd::prelude::*;

verus! {

/// A JSON-like value: the environment a caller hands to evaluation, the
/// values bound to placeholders, and everything a node reads or writes.
/// Objects keep their fields in insertion order.
#[derive(Debug, PartialEq)]
pub enum Value {
    Null,
    Bool(bool),
    Int(i64),
    Str(String),
    Arr(Vec<Value>),
    Obj(Vec<(String, Value)>),
}

/// The mathematical shape of a `Value`: strings as character sequences,
/// arrays and objects as sequences.
pub enum Val {
    Null,
    Bool(bool),
    Int(int),
    Str(Seq<char>),
    Arr(Seq<Val>),
    Obj(Seq<(Seq<char>, Val)>),
}

/// Models of a sequence of values, element by element.
pub open spec fn vals_model(s: Seq<Value>) -> Seq<Val>
    decreases s,
{
    Seq::new(
        s.len(),
        |i: int|
            if 0 <= i < s.len() {
                val_model(s[i])
            } else {
                Val::Null
            },
    )
}

/// Models of an ordered field list, element by element.
pub open spec fn fields_model(s: Seq<(String, Value)>) -> Seq<(Seq<char>, Val)>
    decreases s,
{
    Seq::new(
        s.len(),
        |i: int|
            if 0 <= i < s.len() {
                (s[i].0@, val_model(s[i].1))
            } else {
                (Seq::empty(), Val::Null)
            },
    )
}

pub open spec fn val_model(v: Value) -> Val
    decreases v,
{
    match v {
        Value::Null => Val::Null,
        Value::Bool(b) => Val::Bool(b),
        Value::Int(i) => Val::Int(i as int),
        Value::Str(s) => Val::Str(s@),
        Value::Arr(items) => Val::Arr(vals_model(items@)),
        Value::Obj(fields) => Val::Obj(fields_model(fields@)),
    }
}

impl View for Value {
    type V = Val;

    open spec fn view(&self) -> Val {
        val_model(*self)
    }
}

/// Position of the first field bound to `key`, if any.
pub open spec fn spec_find_key(fields: Seq<(Seq<char>, Val)>, key: Seq<char>) -> Option<int>
    decreases fields.len(),
{
    if fields.len() == 0 {
        None
    } else if fields[0].0 == key {
        Some(0)
    } else {
        match spec_find_key(fields.drop_first(), key) {
            None => None,
            Some(i) => Some(i + 1),
        }
    }
}

pub proof fn lemma_find_key(fields: Seq<(Seq<char>, Val)>, key: Seq<char>)
    ensures
        match spec_find_key(fields, key) {
            None => forall|j: int| 0 <= j < fields.len() ==> fields[j].0 != key,
            Some(i) => 0 <= i < fields.len() && fields[i].0 == key && (forall|j: int|
                0 <= j < i ==> fields[j].0 != key),
        },
    decreases fields.len(),
{
    if fields.len() > 0 && fields[0].0 != key {
        lemma_find_key(fields.drop_first(), key);
        assert(forall|j: int|
            1 <= j < fields.len() ==> fields[j] == fields.drop_first()[j - 1]);
    }
}

/// Value of the first field bound to `key` in an ordered field list.
pub open spec fn spec_fields_get(fields: Seq<(Seq<char>, Val)>, key: Seq<char>) -> Option<Val> {
    match spec_find_key(fields, key) {
        None => None,
        Some(i) => Some(fields[i].1),
    }
}

/// Environment lookup: a field of an object environment, nothing otherwise.
pub open spec fn spec_env_get(env: Val, key: Seq<char>) -> Option<Val> {
    match env {
        Val::Obj(fields) => spec_fields_get(fields, key),
        _ => None,
    }
}

/// Field list after binding `key` to `v`: the first existing binding is
/// replaced in place; a missing key is appended at the end.
pub open spec fn spec_fields_set(fields: Seq<(Seq<char>, Val)>, key: Seq<char>, v: Val) -> Seq<
    (Seq<char>, Val),
> {
    match spec_find_key(fields, key) {
        None => fields.push((key, v)),
        Some(i) => fields.update(i, (key, v)),
    }
}

/// Environment after binding `key` to `v`; `None` when the environment is
/// not an object.
pub open spec fn spec_env_set(env: Val, key: Seq<char>, v: Val) -> Option<Val> {
    match env {
        Val::Obj(fields) => Some(Val::Obj(spec_fields_set(fields, key, v))),
        _ => None,
    }
}

/// Field list with the first binding of `key` taken out.
pub open spec fn spec_fields_remove(fields: Seq<(Seq<char>, Val)>, key: Seq<char>) -> Seq<
    (Seq<char>, Val),
> {
    match spec_find_key(fields, key) {
        None => fields,
        Some(i) => fields.remove(i),
    }
}

/// Environment with the first binding of `key` taken out; other shapes are
/// left as they are.
pub open spec fn spec_env_remove(env: Val, key: Seq<char>) -> Val {
    match env {
        Val::Obj(fields) => Val::Obj(spec_fields_remove(fields, key)),
        _ => env,
    }
}

/// How a value decides a conditional test: `true`, a non-zero integer, a
/// non-empty string, array or object count as truthy.
pub open spec fn spec_truthy(v: Val) -> bool {
    match v {
        Val::Null => false,
        Val::Bool(b) => b,
        Val::Int(i) => i != 0,
        Val::Str(s) => s.len() > 0,
        Val::Arr(items) => items.len() > 0,
        Val::Obj(fields) => fields.len() > 0,
    }
}

/// Character-wise string equality.
pub fn str_eq(a: &str, b: &str) -> (r: bool)
    ensures
        r == (a@ == b@),
{
    let alen = a.unicode_len();
    let blen = b.unicode_len();
    if alen != blen {
        proof {
            assert(a@ != b@);
        }
        return false;
    }
    let mut i: usize = 0;
    while i < alen
        invariant
            alen == a@.len(),
            blen == b@.len(),
            alen == blen,
            i <= alen,
            forall|j: int| 0 <= j < i ==> a@[j] == b@[j],
        decreases alen - i,
    {
        if a.get_char(i) != b.get_char(i) {
            return false;
        }
        i = i + 1;
    }
    proof {
        assert(a@ =~= b@);
    }
    true
}

impl Value {
    /// Deep copy whose model equals the original's.
    #[verifier::loop_isolation(false)]
    pub fn duplicate(&self) -> (r: Value)
        ensures
            r@ == self@,
        decreases self,
    {
        match self {
            Value::Null => Value::Null,
            Value::Bool(b) => Value::Bool(*b),
            Value::Int(i) => Value::Int(*i),
            Value::Str(s) => Value::Str(s.clone()),
            Value::Arr(items) => {
                let mut out: Vec<Value> = Vec::new();
                let mut i: usize = 0;
                while i < items.len()
                    invariant
                        i <= items.len(),
                        out@.len() == i,
                        forall|j: int| 0 <= j < i ==> out@[j]@ == items@[j]@,
                    decreases items.len() - i,
                {
                    out.push(items[i].duplicate());
                    i = i + 1;
                }
                proof {
                    assert(vals_model(out@) =~= vals_model(items@));
                }
                Value::Arr(out)
            },
            Value::Obj(fields) => {
                let mut out: Vec<(String, Value)> = Vec::new();
                let mut i: usize = 0;
                while i < fields.len()
                    invariant
                        i <= fields.len(),
                        out@.len() == i,
                        forall|j: int|
                            0 <= j < i ==> out@[j].0@ == fields@[j].0@ && out@[j].1@
                                == fields@[j].1@,
                    decreases fields.len() - i,
                {
                    let k = fields[i].0.clone();
                    let v = fields[i].1.duplicate();
                    out.push((k, v));
                    i = i + 1;
                }
                proof {
                    assert(fields_model(out@) =~= fields_model(fields@));
                }
                Value::Obj(out)
            },
        }
    }

    /// Truthiness used by conditional and choice tests.
    pub fn truthy(&self) -> (r: bool)
        ensures
            r == spec_truthy(self@),
    {
        match self {
            Value::Null => false,
            Value::Bool(b) => *b,
            Value::Int(i) => *i != 0,
            Value::Str(s) => s.as_str().unicode_len() > 0,
            Value::Arr(items) => items.len() > 0,
            Value::Obj(fields) => fields.len() > 0,
        }
    }
}

/// A copy of the value bound to `key` in an object environment; `None` when
/// the environment is not an object or has no such field.
pub fn env_get(env: &Value, key: &str) -> (r: Option<Value>)
    ensures
        match r {
            Some(v) => spec_env_get(env@, key@) == Some(v@),
            None => spec_env_get(env@, key@) is None,
        },
{
    match env {
        Value::Obj(fields) => {
            let ghost mf = fields_model(fields@);
            proof {
                lemma_find_key(mf, key@);
            }
            let mut i: usize = 0;
            while i < fields.len()
                invariant
                    i <= fields.len(),
                    mf == fields_model(fields@),
                    mf.len() == fields@.len(),
                    env@ == Val::Obj(mf),
                    forall|j: int| 0 <= j < i ==> mf[j].0 != key@,
                    match spec_find_key(mf, key@) {
                        None => forall|j: int| 0 <= j < mf.len() ==> mf[j].0 != key@,
                        Some(n) => 0 <= n < mf.len() && mf[n].0 == key@ && (forall|j: int|
                            0 <= j < n ==> mf[j].0 != key@),
                    },
                decreases fields.len() - i,
            {
                if str_eq(fields[i].0.as_str(), key) {
                    proof {
                        assert(mf[i as int] == (fields@[i as int].0@, val_model(
                            fields@[i as int].1,
                        )));
                        assert(spec_find_key(mf, key@) == Some(i as int));
                    }
                    return Some(fields[i].1.duplicate());
                }
                i = i + 1;
            }
            None
        },
        _ => None,
    }
}

/// Binds `key` to `v` in an object environment (replacing the first existing
/// binding, else appending); returns `false`, changing nothing, when the
/// environment is not an object.
pub fn env_set(env: &mut Value, key: &str, v: Value) -> (ok: bool)
    ensures
        match spec_env_set(old(env)@, key@, v@) {
            Some(e2) => ok && final(env)@ == e2,
            None => !ok && *final(env) == *old(env),
        },
{
    let mut cur = Value::Null;
    core::mem::swap(env, &mut cur);
    match cur {
        Value::Obj(mut fields) => {
            let ghost mf = fields_model(fields@);
            proof {
                assert(old(env)@ == Val::Obj(mf));
                lemma_find_key(mf, key@);
            }
            let mut i: usize = 0;
            while i < fields.len()
                invariant
                    i <= fields.len(),
                    old(env)@ == Val::Obj(mf),
                    mf == fields_model(fields@),
                    mf.len() == fields@.len(),
                    forall|j: int| 0 <= j < i ==> mf[j].0 != key@,
                    match spec_find_key(mf, key@) {
                        None => forall|j: int| 0 <= j < mf.len() ==> mf[j].0 != key@,
                        Some(n) => 0 <= n < mf.len() && mf[n].0 == key@ && (forall|j: int|
                            0 <= j < n ==> mf[j].0 != key@),
                    },
                decreases fields.len() - i,
            {
                if str_eq(fields[i].0.as_str(), key) {
                    proof {
                        assert(mf[i as int] == (fields@[i as int].0@, val_model(
                            fields@[i as int].1,
                        )));
                        assert(spec_find_key(mf, key@) == Some(i as int));
                    }
                    fields.insert(i, (key.to_owned(), v));
                    fields.remove(i + 1);
                    proof {
                        assert(fields_model(fields@) =~= mf.update(i as int, (key@, v@)));
                    }
                    *env = Value::Obj(fields);
                    return true;
                }
                i = i + 1;
            }
            fields.push((key.to_owned(), v));
            proof {
                assert(fields_model(fields@) =~= mf.push((key@, v@)));
            }
            *env = Value::Obj(fields);
            true
        },
        other => {
            *env = other;
            false
        },
    }
}

/// Takes the first binding of `key` out of an object environment; any other
/// environment is left unchanged.
pub fn env_remove(env: &mut Value, key: &str)
    ensures
        final(env)@ == spec_env_remove(old(env)@, key@),
{
    let mut cur = Value::Null;
    core::mem::swap(env, &mut cur);
    match cur {
        Value::Obj(mut fields) => {
            let ghost mf = fields_model(fields@);
            proof {
                assert(old(env)@ == Val::Obj(mf));
                lemma_find_key(mf, key@);
            }
            let mut i: usize = 0;
            while i < fields.len()
                invariant
                    i <= fields.len(),
                    old(env)@ == Val::Obj(mf),
                    mf == fields_model(fields@),
                    mf.len() == fields@.len(),
                    forall|j: int| 0 <= j < i ==> mf[j].0 != key@,
                    match spec_find_key(mf, key@) {
                        None => forall|j: int| 0 <= j < mf.len() ==> mf[j].0 != key@,
                        Some(n) => 0 <= n < mf.len() && mf[n].0 == key@ && (forall|j: int|
                            0 <= j < n ==> mf[j].0 != key@),
                    },
                decreases fields.len() - i,
            {
                if str_eq(fields[i].0.as_str(), key) {
                    proof {
                        assert(mf[i as int] == (fields@[i as int].0@, val_model(
                            fields@[i as int].1,
                        )));
                        assert(spec_find_key(mf, key@) == Some(i as int));
                    }
                    fields.remove(i);
                    proof {
                        assert(fields_model(fields@) =~= mf.remove(i as int));
                    }
                    *env = Value::Obj(fields);
                    return ;
                }
                i = i + 1;
            }
            *env = Value::Obj(fields);
        },
        other => {
            *env = other;
        },
    }
}

} // verus!
