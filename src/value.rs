//! Tri-state values and string-keyed association maps.
use vstd::prelude::*;

verus! {

/// A configuration value: known, not yet known, or explicitly unset.
#[derive(Debug, Clone, PartialEq, Eq)]
pub enum Value<T> {
    Value(T),
    Null,
    Unknown,
}

/// A string-keyed map kept as a list of entries; a later entry for a key
/// hides an earlier one.
pub type ValueMap<V> = Vec<(String, V)>;

/// What a list of entries maps `k` to: the last entry with that key.
pub open spec fn lookup<V>(m: Seq<(String, V)>, k: Seq<char>) -> Option<V>
    decreases m.len(),
{
    if m.len() == 0 {
        None
    } else if m.last().0@ == k {
        Some(m.last().1)
    } else {
        lookup(m.drop_last(), k)
    }
}

/// Two string values are the same known string, or both unset, or both unknown.
pub open spec fn same_string(a: Value<String>, b: Value<String>) -> bool {
    match (a, b) {
        (Value::Value(x), Value::Value(y)) => x@ == y@,
        (Value::Null, Value::Null) => true,
        (Value::Unknown, Value::Unknown) => true,
        _ => false,
    }
}

/// Two map lookups agree: both missing, or both present with the same value.
pub open spec fn same_entry(a: Option<Value<String>>, b: Option<Value<String>>) -> bool {
    match (a, b) {
        (None, None) => true,
        (Some(x), Some(y)) => same_string(x, y),
        _ => false,
    }
}

impl<T> Value<T> {
    pub fn is_value(&self) -> (r: bool)
        ensures
            r == (self is Value),
    {
        match self {
            Value::Value(_) => true,
            _ => false,
        }
    }

    pub fn is_null(&self) -> (r: bool)
        ensures
            r == (self is Null),
    {
        match self {
            Value::Null => true,
            _ => false,
        }
    }

    pub fn is_unknown(&self) -> (r: bool)
        ensures
            r == (self is Unknown),
    {
        match self {
            Value::Unknown => true,
            _ => false,
        }
    }
}

/// Compares two string values as `same_string` does.
pub fn string_value_eq(a: &Value<String>, b: &Value<String>) -> (r: bool)
    ensures
        r == same_string(*a, *b),
{
    match (a, b) {
        (Value::Value(x), Value::Value(y)) => x.eq(y),
        (Value::Null, Value::Null) => true,
        (Value::Unknown, Value::Unknown) => true,
        _ => false,
    }
}

/// Looks `k` up in `m`; the last entry with that key wins.
pub fn get<'a, V>(m: &'a ValueMap<V>, k: &String) -> (r: Option<&'a V>)
    ensures
        match lookup(m@, k@) {
            None => r is None,
            Some(v) => r == Some(&v),
        },
{
    let mut r: Option<&V> = None;
    let mut i: usize = 0;
    while i < m.len()
        invariant
            i <= m.len(),
            match lookup(m@.subrange(0, i as int), k@) {
                None => r is None,
                Some(v) => r == Some(&v),
            },
        decreases m.len() - i,
    {
        assert(m@.subrange(0, i + 1).drop_last() =~= m@.subrange(0, i as int));
        if m[i].0.eq(k) {
            r = Some(&m[i].1);
        }
        i = i + 1;
    }
    assert(m@.subrange(0, m.len() as int) =~= m@);
    r
}

/// A copy of a string value.
pub fn copy_string_value(v: &Value<String>) -> (r: Value<String>)
    ensures
        r == *v,
{
    match v {
        Value::Value(s) => Value::Value(s.clone()),
        Value::Null => Value::Null,
        Value::Unknown => Value::Unknown,
    }
}

/// Sets `k` to `v` in `m`, leaving every other key's entry as it was.
pub fn insert(m: &mut ValueMap<Value<String>>, k: String, v: Value<String>)
    ensures
        lookup(final(m)@, k@) == Some(v),
        forall|j: Seq<char>| j != k@ ==> #[trigger] lookup(final(m)@, j) == lookup(old(m)@, j),
{
    let mut out: ValueMap<Value<String>> = Vec::new();
    let ghost src = old(m)@;
    let mut i: usize = 0;
    while i < m.len()
        invariant
            m@ == src,
            i <= m.len(),
            lookup(out@, k@) is None,
            forall|j: Seq<char>| j != k@ ==> #[trigger] lookup(out@, j) == lookup(src.subrange(0, i as int), j),
        decreases m.len() - i,
    {
        assert(src.subrange(0, i + 1).drop_last() =~= src.subrange(0, i as int));
        let ghost prev = out@;
        if !m[i].0.eq(&k) {
            let e = (m[i].0.clone(), copy_string_value(&m[i].1));
            out.push(e);
            assert(out@.drop_last() =~= prev);
            assert(out@.last() == src[i as int]);
        }
        assert forall|j: Seq<char>| j != k@ implies #[trigger] lookup(out@, j) == lookup(
            src.subrange(0, i + 1),
            j,
        ) by {
            assert(lookup(src.subrange(0, i + 1), j) == if src[i as int].0@ == j {
                Some(src[i as int].1)
            } else {
                lookup(src.subrange(0, i as int), j)
            });
            if src[i as int].0@ != k@ {
                assert(lookup(out@, j) == if src[i as int].0@ == j {
                    Some(src[i as int].1)
                } else {
                    lookup(prev, j)
                });
            } else {
                assert(out@ == prev);
            }
        }
        i = i + 1;
    }
    assert(src.subrange(0, i as int) =~= src);
    let ghost before = out@;
    out.push((k, v));
    assert(out@.drop_last() =~= before);
    assert forall|j: Seq<char>| j != k@ implies #[trigger] lookup(out@, j) == lookup(src, j) by {
        assert(lookup(out@, j) == lookup(before, j));
    }
    *m = out;
}

} // verus!
