//! Structured values: the payload and the metadata of an event.

use vstd::prelude::*;

verus! {

/// A structured value tree.
#[derive(Debug, PartialEq, Eq)]
pub enum Value {
    Null,
    Bool(bool),
    Int(i64),
    /// An integer above the range of `Int`.
    Uint(u64),
    Str(String),
    Array(Vec<Value>),
    /// Named fields. In a well-formed object no name occurs twice.
    Object(Vec<(String, Value)>),
}

/// One of `fields` is named `key`.
pub open spec fn has_name(fields: Seq<(String, Value)>, key: Seq<char>) -> bool {
    exists|i: int| 0 <= i < fields.len() && (#[trigger] fields[i]).0@ == key
}

/// No two of `fields` have the same name.
pub open spec fn distinct_names(fields: Seq<(String, Value)>) -> bool {
    forall|i: int, j: int|
        0 <= i < j < fields.len() ==> (#[trigger] fields[i]).0@ != (#[trigger] fields[j]).0@
}

/// The value of the first field named `key` among `fields`.
pub open spec fn lookup(fields: Seq<(String, Value)>, key: Seq<char>) -> Option<Value>
    decreases fields.len(),
{
    if fields.len() == 0 {
        None
    } else if fields[0].0@ == key {
        Some(fields[0].1)
    } else {
        lookup(fields.skip(1), key)
    }
}

impl Value {
    /// No object in this value, at any depth, has two fields of one name.
    pub open spec fn wf(self) -> bool
        decreases self,
    {
        match self {
            Value::Array(items) => forall|i: int|
                0 <= i < items@.len() ==> (#[trigger] items@[i]).wf(),
            Value::Object(fields) => distinct_names(fields@) && forall|i: int|
                0 <= i < fields@.len() ==> (#[trigger] fields@[i]).1.wf(),
            _ => true,
        }
    }

    /// The field named `key`, where this is an object that has one.
    pub open spec fn spec_get(self, key: Seq<char>) -> Option<Value> {
        match self {
            Value::Object(fields) => lookup(fields@, key),
            _ => None,
        }
    }

    /// The text, where this is a string.
    pub open spec fn spec_str(self) -> Option<Seq<char>> {
        match self {
            Value::Str(s) => Some(s@),
            _ => None,
        }
    }

    /// The items, where this is an array.
    pub open spec fn spec_array(self) -> Option<Seq<Value>> {
        match self {
            Value::Array(items) => Some(items@),
            _ => None,
        }
    }

    /// The field named `key`, where this is an object that has one.
    pub fn get(&self, key: &str) -> (r: Option<&Value>)
        ensures
            match r {
                Some(v) => self.spec_get(key@) == Some(*v),
                None => self.spec_get(key@) is None,
            },
    {
        match self {
            Value::Object(fields) => {
                let wanted = key.to_owned();
                let mut i: usize = 0;
                assert(fields@.skip(0) =~= fields@);
                while i < fields.len()
                    invariant
                        i <= fields.len(),
                        wanted@ == key@,
                        self.spec_get(key@) == lookup(fields@, key@),
                        lookup(fields@, key@) == lookup(fields@.skip(i as int), key@),
                    decreases fields.len() - i,
                {
                    let ghost rest = fields@.skip(i as int);
                    assert(rest[0] == fields@[i as int]);
                    assert(rest.skip(1) =~= fields@.skip(i + 1));
                    let entry = &fields[i];
                    if entry.0 == wanted {
                        assert(lookup(rest, key@) == Some(rest[0].1));
                        return Some(&entry.1);
                    }
                    assert(lookup(rest, key@) == lookup(rest.skip(1), key@));
                    i += 1;
                }
                None
            },
            _ => None,
        }
    }

    /// The text, where this is a string.
    pub fn as_str(&self) -> (r: Option<&String>)
        ensures
            match r {
                Some(s) => self.spec_str() == Some(s@),
                None => self.spec_str() is None,
            },
    {
        match self {
            Value::Str(s) => Some(s),
            _ => None,
        }
    }

    /// The items, where this is an array.
    pub fn as_array(&self) -> (r: Option<&Vec<Value>>)
        ensures
            match r {
                Some(items) => self.spec_array() == Some(items@),
                None => self.spec_array() is None,
            },
    {
        match self {
            Value::Array(items) => Some(items),
            _ => None,
        }
    }

    /// Whether this is a string.
    pub fn is_str(&self) -> (r: bool)
        ensures
            r == (self.spec_str() is Some),
    {
        match self {
            Value::Str(_) => true,
            _ => false,
        }
    }
}

/// Whether one of the first `upto` of `fields` is named `name`.
pub fn has_field(fields: &Vec<(String, Value)>, upto: usize, name: &String) -> (r: bool)
    requires
        upto <= fields@.len(),
    ensures
        r == has_name(fields@.take(upto as int), name@),
{
    let mut i: usize = 0;
    while i < upto
        invariant
            i <= upto <= fields@.len(),
            forall|k: int| 0 <= k < i ==> (#[trigger] fields@[k]).0@ != name@,
        decreases upto - i,
    {
        if fields[i].0 == *name {
            assert(fields@.take(upto as int)[i as int].0@ == name@);
            return true;
        }
        i += 1;
    }
    assert forall|k: int| 0 <= k < fields@.take(upto as int).len() implies (
    #[trigger] fields@.take(upto as int)[k]).0@ != name@ by {
        assert(fields@.take(upto as int)[k] == fields@[k]);
    }
    false
}

/// A lookup finds a field exactly where one of that name is there.
pub proof fn lemma_lookup_has_name(fields: Seq<(String, Value)>, key: Seq<char>)
    ensures
        lookup(fields, key) is Some <==> has_name(fields, key),
    decreases fields.len(),
{
    if fields.len() > 0 {
        let rest = fields.skip(1);
        lemma_lookup_has_name(rest, key);
        if fields[0].0@ != key {
            if has_name(rest, key) {
                let i = choose|i: int| 0 <= i < rest.len() && (#[trigger] rest[i]).0@ == key;
                assert(fields[i + 1].0@ == key);
            }
            if has_name(fields, key) {
                let i = choose|i: int| 0 <= i < fields.len() && (#[trigger] fields[i]).0@ == key;
                assert(rest[i - 1].0@ == key);
            }
        }
    }
}

/// Looking a name up in two runs of fields, one after the other: the
/// first run is asked first.
pub proof fn lemma_lookup_concat(a: Seq<(String, Value)>, b: Seq<(String, Value)>, key: Seq<char>)
    ensures
        lookup(a + b, key) == match lookup(a, key) {
            Some(v) => Some(v),
            None => lookup(b, key),
        },
    decreases a.len(),
{
    if a.len() == 0 {
        assert(a + b =~= b);
    } else {
        assert((a + b)[0] == a[0]);
        assert((a + b).skip(1) =~= a.skip(1) + b);
        lemma_lookup_concat(a.skip(1), b, key);
    }
}

} // verus!
