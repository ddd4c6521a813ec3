//! Resolving a path in a document, and looking up a field along a chain of
//! `parent` pointers.
use vstd::prelude::*;

use crate::arrayparser::{tokenize, tokenize_path, tokens_view, ArraySyntax, PathToken, Token};
use crate::value::{hash_get, hash_lookup, PathError, Value};

verus! {

/// The most `parent` pointers that one field lookup follows; a longer chain is taken
/// for a cycle.
pub const MAX_PARENT_HOPS: usize = 64;

/// The reserved key whose value is the path of a node to inherit fields from.
pub open spec fn parent_key() -> Seq<char> {
    seq!['p', 'a', 'r', 'e', 'n', 't']
}

/// A borrowed result stands for the same outcome as an owned one.
pub open spec fn same_outcome(r: Result<&Value, PathError>, s: Result<Value, PathError>) -> bool {
    match r {
        Ok(v) => s == Ok::<Value, PathError>(*v),
        Err(e) => s == Err::<Value, PathError>(e),
    }
}

/// One step of a walk: a key selects an entry of a hash, an index an element of an array.
pub open spec fn step(node: Value, t: PathToken) -> Result<Value, PathError> {
    if t.key is Some {
        match node {
            Value::Hash(es) => match hash_get(es@, t.key->0) {
                Some(v) => Ok(v),
                None => Err(PathError::KeyNotFound),
            },
            _ => Err(PathError::NotAHash),
        }
    } else if t.index is Some {
        match node {
            Value::Array(a) => if t.index->0 < a@.len() {
                Ok(a@[t.index->0 as int])
            } else {
                Err(PathError::IndexOutOfBounds)
            },
            _ => Err(PathError::NotAnArray),
        }
    } else {
        Err(PathError::InvalidPathSegment)
    }
}

/// Walks from `node` along `toks`, stopping at the first failure.
pub open spec fn walk(node: Value, toks: Seq<PathToken>) -> Result<Value, PathError>
    decreases toks.len(),
{
    if toks.len() == 0 {
        Ok(node)
    } else {
        match step(node, toks[0]) {
            Ok(n) => walk(n, toks.drop_first()),
            Err(e) => Err(e),
        }
    }
}

/// The node below which all paths start: the document, or its entry `prefix` when
/// `prefix` is not empty.
pub open spec fn enter_root(doc: Value, prefix: Seq<char>) -> Result<Value, PathError> {
    if prefix.len() == 0 {
        Ok(doc)
    } else {
        step(doc, PathToken { key: Some(prefix), index: None, terminated: false })
    }
}

/// The node that `path` names. The empty path names the start node itself.
pub open spec fn resolve(doc: Value, prefix: Seq<char>, syn: ArraySyntax, path: Seq<char>) -> Result<Value, PathError> {
    match enter_root(doc, prefix) {
        Ok(n) => if path.len() == 0 {
            Ok(n)
        } else {
            walk(n, tokenize(syn, path))
        },
        Err(e) => Err(e),
    }
}

/// The value of `field` in `node`, or else in the node that its `parent` names,
/// following at most `fuel` pointers.
pub open spec fn inherited(
    doc: Value,
    prefix: Seq<char>,
    syn: ArraySyntax,
    node: Value,
    field: Seq<char>,
    fuel: nat,
) -> Result<Value, PathError>
    decreases fuel,
{
    match node {
        Value::Hash(es) => match hash_get(es@, field) {
            Some(v) => Ok(v),
            None => match hash_get(es@, parent_key()) {
                None => Err(PathError::FieldNotFound),
                Some(Value::String(p)) => if fuel == 0 {
                    Err(PathError::CyclicParentChain)
                } else {
                    match resolve(doc, prefix, syn, p@) {
                        Ok(n) => inherited(doc, prefix, syn, n, field, (fuel - 1) as nat),
                        Err(e) => Err(e),
                    }
                },
                Some(_) => Err(PathError::InvalidParentPointer),
            },
        },
        _ => Err(PathError::NotAHash),
    }
}

/// `inherited` with the full allowance of pointers.
pub open spec fn field_or_parent(
    doc: Value,
    prefix: Seq<char>,
    syn: ArraySyntax,
    node: Value,
    field: Seq<char>,
) -> Result<Value, PathError> {
    inherited(doc, prefix, syn, node, field, MAX_PARENT_HOPS as nat)
}

/// Walks from `node` along `toks`.
pub fn walk_tokens<'a>(node: &'a Value, toks: &Vec<Token>) -> (r: Result<&'a Value, PathError>)
    ensures
        same_outcome(r, walk(*node, tokens_view(toks@))),
{
    let ghost tv = tokens_view(toks@);
    let mut cur = node;
    let mut i: usize = 0;
    assert(tv.skip(0) =~= tv);
    while i < toks.len()
        invariant
            tv == tokens_view(toks@),
            i <= toks@.len(),
            walk(*node, tv) == walk(*cur, tv.skip(i as int)),
        decreases toks.len() - i,
    {
        assert(tv.skip(i as int).drop_first() =~= tv.skip(i + 1));
        assert(tv.skip(i as int)[0] == toks@[i as int]@);
        let t = &toks[i];
        match &t.key {
            Some(k) => {
                match cur {
                    Value::Hash(es) => match hash_lookup(es, k.as_str()) {
                        Some(v) => {
                            cur = v;
                        },
                        None => return Err(PathError::KeyNotFound),
                    },
                    _ => return Err(PathError::NotAHash),
                }
            },
            None => match t.index {
                Some(ix) => match cur {
                    Value::Array(a) => {
                        if ix >= a.len() {
                            return Err(PathError::IndexOutOfBounds);
                        }
                        cur = &a[ix];
                    },
                    _ => return Err(PathError::NotAnArray),
                },
                None => return Err(PathError::InvalidPathSegment),
            },
        }
        i = i + 1;
    }
    Ok(cur)
}

/// The start node for paths; see `enter_root`.
pub fn enter_root_node<'a>(doc: &'a Value, prefix: &str) -> (r: Result<&'a Value, PathError>)
    ensures
        same_outcome(r, enter_root(*doc, prefix@)),
{
    if prefix.is_empty() {
        return Ok(doc);
    }
    match doc {
        Value::Hash(es) => match hash_lookup(es, prefix) {
            Some(v) => Ok(v),
            None => Err(PathError::KeyNotFound),
        },
        _ => Err(PathError::NotAHash),
    }
}

/// The node that `path` names below the start node; see `resolve`.
pub fn resolve_path<'a>(doc: &'a Value, prefix: &str, syn: ArraySyntax, path: &str) -> (r: Result<
    &'a Value,
    PathError,
>)
    ensures
        same_outcome(r, resolve(*doc, prefix@, syn, path@)),
{
    let start = match enter_root_node(doc, prefix) {
        Ok(n) => n,
        Err(e) => return Err(e),
    };
    if path.is_empty() {
        return Ok(start);
    }
    let toks = tokenize_path(syn, path);
    walk_tokens(start, &toks)
}

/// The value of `field` in `node` or along its chain of `parent` pointers; see
/// `field_or_parent`.
pub fn inherited_field<'a>(
    doc: &'a Value,
    prefix: &str,
    syn: ArraySyntax,
    node: &'a Value,
    field: &str,
) -> (r: Result<&'a Value, PathError>)
    ensures
        same_outcome(r, field_or_parent(*doc, prefix@, syn, *node, field@)),
{
    let mut cur = node;
    let mut fuel: usize = MAX_PARENT_HOPS;
    loop
        invariant
            field_or_parent(*doc, prefix@, syn, *node, field@) == inherited(
                *doc,
                prefix@,
                syn,
                *cur,
                field@,
                fuel as nat,
            ),
        decreases fuel,
    {
        match cur {
            Value::Hash(es) => {
                if let Some(v) = hash_lookup(es, field) {
                    return Ok(v);
                }
                proof {
                    reveal_strlit("parent");
                    assert("parent"@ =~= parent_key());
                }
                match hash_lookup(es, "parent") {
                    None => return Err(PathError::FieldNotFound),
                    Some(Value::String(p)) => {
                        if fuel == 0 {
                            return Err(PathError::CyclicParentChain);
                        }
                        match resolve_path(doc, prefix, syn, p.as_str()) {
                            Ok(n) => {
                                cur = n;
                                fuel = fuel - 1;
                            },
                            Err(e) => return Err(e),
                        }
                    },
                    Some(_) => return Err(PathError::InvalidParentPointer),
                }
            },
            _ => return Err(PathError::NotAHash),
        }
    }
}

/// The node that `path` names in `yaml`, with arrays indexed as `key[n]` or `key@n`.
pub fn yaml_path<'a>(yaml: &'a Value, path: &str) -> (r: Result<&'a Value, PathError>)
    ensures
        same_outcome(r, resolve(*yaml, seq![], ArraySyntax::Either, path@)),
{
    proof {
        reveal_strlit("");
        assert(""@ =~= Seq::<char>::empty());
    }
    resolve_path(yaml, "", ArraySyntax::Either, path)
}

/// The entry `field` of the hash that `path` names in `yaml`.
pub fn yaml_path_field<'a>(yaml: &'a Value, path: &str, field: &str) -> (r: Result<&'a Value, PathError>)
    ensures
        same_outcome(
            r,
            match resolve(*yaml, seq![], ArraySyntax::Either, path@) {
                Ok(Value::Hash(es)) => match hash_get(es@, field@) {
                    Some(v) => Ok(v),
                    None => Err(PathError::FieldNotFound),
                },
                Ok(_) => Err(PathError::NotAHash),
                Err(e) => Err(e),
            },
        ),
{
    match yaml_path(yaml, path) {
        Ok(Value::Hash(es)) => match hash_lookup(es, field) {
            Some(v) => Ok(v),
            None => Err(PathError::FieldNotFound),
        },
        Ok(_) => Err(PathError::NotAHash),
        Err(e) => Err(e),
    }
}

/// The value of `field` in `yaml`, or else along its chain of `parent` pointers,
/// each a path into `root` with arrays indexed as `key[n]` or `key@n`.
pub fn yaml_field_parent<'a>(root: &'a Value, yaml: &'a Value, field: &str) -> (r: Result<&'a Value, PathError>)
    ensures
        same_outcome(r, field_or_parent(*root, seq![], ArraySyntax::Either, *yaml, field@)),
{
    proof {
        reveal_strlit("");
        assert(""@ =~= Seq::<char>::empty());
    }
    inherited_field(root, "", ArraySyntax::Either, yaml, field)
}

} // verus!
