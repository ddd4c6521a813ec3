//! A plain reader of documentation fields: bracket paths from the top of the document,
//! and fields taken from the end of a `parent` chain.
use vstd::prelude::*;

use crate::arrayparser::ArraySyntax;
use crate::value::{hash_get, hash_lookup, PathError, Value};
use crate::yaml_descender::string_outcome;
use crate::yaml_path::{parent_key, resolve, resolve_path, same_outcome, MAX_PARENT_HOPS};

verus! {

/// The text of `field` for `node`: a node with a `parent` pointer defers to the node
/// at that path; otherwise the field's string, or the empty text when it is absent.
pub open spec fn doc_field(doc: Value, node: Value, field: Seq<char>, fuel: nat) -> Result<Seq<char>, PathError>
    decreases fuel,
{
    match node {
        Value::Hash(es) => match hash_get(es@, parent_key()) {
            Some(Value::String(p)) => if fuel == 0 {
                Err(PathError::CyclicParentChain)
            } else {
                match resolve(doc, seq![], ArraySyntax::Bracket, p@) {
                    Ok(n) => doc_field(doc, n, field, (fuel - 1) as nat),
                    Err(e) => Err(e),
                }
            },
            Some(_) => Err(PathError::InvalidParentPointer),
            None => match hash_get(es@, field) {
                None => Ok(seq![]),
                Some(Value::String(s)) => Ok(s@),
                Some(_) => Err(PathError::NotAString),
            },
        },
        _ => Err(PathError::NotAHash),
    }
}

/// Reads documentation text out of a document.
pub struct YamlDoccer {
    pub(crate) doc: Value,
}

impl YamlDoccer {
    /// The document read.
    pub open(crate) spec fn document(&self) -> Value {
        self.doc
    }

    pub fn new(doc: Value) -> (r: YamlDoccer)
        ensures
            r.document() == doc,
    {
        YamlDoccer { doc }
    }

    /// The node that the bracket path `path` names, from the top of the document.
    pub fn yaml_descend_path(&self, path: &str) -> (r: Result<&Value, PathError>)
        ensures
            same_outcome(r, resolve(self.document(), seq![], ArraySyntax::Bracket, path@)),
    {
        proof {
            reveal_strlit("");
            assert(""@ =~= Seq::<char>::empty());
        }
        resolve_path(&self.doc, "", ArraySyntax::Bracket, path)
    }

    /// The text of `field` for `child`; see `doc_field`.
    pub fn get_field_or_parent(&self, child: &Value, field: &str) -> (r: Result<String, PathError>)
        ensures
            string_outcome(r, doc_field(self.document(), *child, field@, MAX_PARENT_HOPS as nat)),
    {
        let mut cur = child;
        let mut fuel: usize = MAX_PARENT_HOPS;
        loop
            invariant
                doc_field(self.document(), *child, field@, MAX_PARENT_HOPS as nat) == doc_field(
                    self.document(),
                    *cur,
                    field@,
                    fuel as nat,
                ),
            decreases fuel,
        {
            proof {
                reveal_strlit("parent");
                assert("parent"@ =~= parent_key());
            }
            match cur {
                Value::Hash(es) => match hash_lookup(es, "parent") {
                    Some(Value::String(p)) => {
                        if fuel == 0 {
                            return Err(PathError::CyclicParentChain);
                        }
                        match self.yaml_descend_path(p.as_str()) {
                            Ok(n) => {
                                cur = n;
                                fuel = fuel - 1;
                            },
                            Err(e) => return Err(e),
                        }
                    },
                    Some(_) => return Err(PathError::InvalidParentPointer),
                    None => {
                        return match hash_lookup(es, field) {
                            None => Ok(String::new()),
                            Some(Value::String(s)) => Ok(s.clone()),
                            Some(_) => Err(PathError::NotAString),
                        };
                    },
                },
                _ => return Err(PathError::NotAHash),
            }
        }
    }
}

} // verus!
