//! The document tree: a tagged value as a YAML loader produces it.
use vstd::prelude::*;

use crate::strings::str_eq;

verus! {

/// A node of a document.
///
/// A `Hash` holds its entries in the order of the source; lookups by key
/// take the first entry with that key.
#[derive(Debug, PartialEq)]
pub enum Value {
    /// A floating-point scalar, kept as its source text.
    Real(String),
    Integer(i64),
    String(String),
    Boolean(bool),
    Array(Vec<Value>),
    Hash(Vec<(String, Value)>),
    Null,
    /// A node that the loader could not represent.
    BadValue,
}

/// The ways in which resolving a path or a field can fail.
#[derive(Debug, Clone, Copy, PartialEq, Eq, Structural)]
pub enum PathError {
    NotAHash,
    NotAnArray,
    KeyNotFound,
    IndexOutOfBounds,
    InvalidPathSegment,
    InvalidParentPointer,
    TypeMismatch,
    FieldNotFound,
    NotAString,
    NoDescriptionFound,
    CyclicParentChain,
    /// A descender was asked to walk a document that is neither a hash nor an array.
    ScalarDocument,
}

/// The value of the first entry of `es` whose key is `k`.
pub open spec fn hash_get(es: Seq<(String, Value)>, k: Seq<char>) -> Option<Value>
    decreases es.len(),
{
    if es.len() == 0 {
        None
    } else if es[0].0@ == k {
        Some(es[0].1)
    } else {
        hash_get(es.drop_first(), k)
    }
}

/// No two entries of `es` have the same key, as in a well-formed hash.
pub open spec fn keys_unique(es: Seq<(String, Value)>) -> bool {
    forall|i: int, j: int| 0 <= i < j < es.len() ==> #[trigger] es[i].0@ != #[trigger] es[j].0@
}

impl Value {
    /// Every hash in the tree has unique keys, as a loaded document does.
    pub open spec fn well_formed(self) -> bool
        decreases self,
    {
        match self {
            Value::Array(a) => forall|i: int|
                0 <= i < a@.len() ==> {
                    proof {
                        assert(decreases_to!(a => a@));
                        assert(decreases_to!(a@ => a@[i]));
                    }
                    (#[trigger] a@[i]).well_formed()
                },
            Value::Hash(es) => keys_unique(es@) && forall|i: int|
                0 <= i < es@.len() ==> {
                    proof {
                        assert(decreases_to!(es => es@));
                        assert(decreases_to!(es@ => es@[i]));
                        assert(decreases_to!(es@[i] => es@[i].1));
                    }
                    (#[trigger] es@[i]).1.well_formed()
                },
            _ => true,
        }
    }
}

/// Whether some entry of `es` has the key `k`.
pub open spec fn has_key(es: Seq<(String, Value)>, k: Seq<char>) -> bool {
    exists|j: int| 0 <= j < es.len() && #[trigger] es[j].0@ == k
}

/// The separator that follows a node in a path: a period after a hash, nothing otherwise.
pub open spec fn sep_of(v: Value) -> Seq<char> {
    if v is Hash {
        seq!['.']
    } else {
        seq![]
    }
}

/// A value found by key is the value of one of the entries, so it lies strictly below the hash.
pub proof fn lemma_hash_get_below(node: Value, k: Seq<char>)
    requires
        node is Hash,
    ensures
        hash_get(node->Hash_0@, k) matches Some(v) ==> decreases_to!(node => v),
        hash_get(node->Hash_0@, k) is Some <==> has_key(node->Hash_0@, k),
{
    let es = node->Hash_0;
    lemma_hash_get_index(es@, k);
    if let Some(v) = hash_get(es@, k) {
        let j = choose|j: int| 0 <= j < es@.len() && es@[j].1 == v;
        assert(decreases_to!(node => node->Hash_0));
        assert(decreases_to!(es => es@));
        assert(decreases_to!(es@ => es@[j]));
        assert(decreases_to!(es@[j] => es@[j].1));
    }
}

proof fn lemma_hash_get_index(es: Seq<(String, Value)>, k: Seq<char>)
    ensures
        hash_get(es, k) matches Some(v) ==> exists|j: int|
            0 <= j < es.len() && es[j].1 == v && es[j].0@ == k,
        hash_get(es, k) is Some <==> has_key(es, k),
    decreases es.len(),
{
    if es.len() > 0 {
        lemma_hash_get_index(es.drop_first(), k);
        if hash_get(es, k) is Some && es[0].0@ != k {
            let v = hash_get(es, k)->0;
            let j = choose|j: int| 0 <= j < es.len() - 1 && es.drop_first()[j].1 == v && es.drop_first()[j].0@ == k;
            assert(es[j + 1] == es.drop_first()[j]);
        }
        if has_key(es, k) && es[0].0@ != k {
            let j = choose|j: int| 0 <= j < es.len() && #[trigger] es[j].0@ == k;
            assert(es.drop_first()[j - 1] == es[j]);
        }
        if has_key(es.drop_first(), k) {
            let j = choose|j: int| 0 <= j < es.len() - 1 && #[trigger] es.drop_first()[j].0@ == k;
            assert(es.drop_first()[j] == es[j + 1]);
        }
    }
}

/// The value of the first entry whose key is `k`.
pub fn hash_lookup<'a>(es: &'a Vec<(String, Value)>, k: &str) -> (r: Option<&'a Value>)
    ensures
        match r {
            Some(v) => hash_get(es@, k@) == Some(*v),
            None => hash_get(es@, k@) is None,
        },
{
    let mut i: usize = 0;
    assert(es@.skip(0) =~= es@);
    while i < es.len()
        invariant
            i <= es@.len(),
            hash_get(es@, k@) == hash_get(es@.skip(i as int), k@),
        decreases es.len() - i,
    {
        assert(es@.skip(i as int).drop_first() =~= es@.skip(i + 1));
        if str_eq(es[i].0.as_str(), k) {
            return Some(&es[i].1);
        }
        i = i + 1;
    }
    None
}

} // verus!
