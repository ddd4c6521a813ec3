//! Settings that a document gives about itself, under its `completion-metadata` entry.
use vstd::prelude::*;

use crate::rust_common::strs_view;
use crate::strings::str_eq;
use crate::value::{hash_get, hash_lookup, PathError, Value};
use crate::yaml_descender::YamlDescender;

verus! {

/// Settings read once from a document.
pub struct Metadata {
    /// The key of the entry below which all paths start; empty for none.
    pub root: String,
    /// Keys whose presence marks a hash as a leaf for completion.
    pub terminal_fields: Vec<String>,
    /// Whether descriptions are wanted beside completions.
    pub get_descriptions: bool,
}

/// Some key of the hash `v` is one of `tf`.
pub open spec fn has_terminal(tf: Seq<Seq<char>>, v: Value) -> bool {
    match v {
        Value::Hash(es) => exists|j: int| 0 <= j < es@.len() && tf.contains(#[trigger] es@[j].0@),
        _ => false,
    }
}

/// The entry `key` of the document's `completion-metadata` hash, if both are there.
pub open spec fn metadata_entry(doc: Value, key: Seq<char>) -> Option<Value> {
    match doc {
        Value::Hash(es) => match hash_get(es@, "completion-metadata"@) {
            Some(Value::Hash(ms)) => hash_get(ms@, key),
            _ => None,
        },
        _ => None,
    }
}

/// The strings among `items`, in order.
pub open spec fn string_items(items: Seq<Value>) -> Seq<Seq<char>>
    decreases items.len(),
{
    if items.len() == 0 {
        seq![]
    } else {
        let rest = string_items(items.drop_last());
        match items.last() {
            Value::String(s) => rest.push(s@),
            _ => rest,
        }
    }
}

/// The root key that a document sets; none when absent or not a string.
pub open spec fn root_setting(doc: Value) -> Seq<char> {
    match metadata_entry(doc, "root"@) {
        Some(Value::String(s)) => s@,
        _ => seq![],
    }
}

/// The terminal fields that a document sets: none when absent, an error when not an array.
pub open spec fn terminal_setting(doc: Value) -> Result<Seq<Seq<char>>, PathError> {
    match metadata_entry(doc, "terminal-fields"@) {
        None => Ok(seq![]),
        Some(Value::Array(a)) => Ok(string_items(a@)),
        Some(_) => Err(PathError::NotAnArray),
    }
}

impl Metadata {
    /// No root key and no terminal fields.
    pub fn new(get_descriptions: bool) -> (r: Metadata)
        ensures
            r.root@ == Seq::<char>::empty(),
            r.terminal_fields@.len() == 0,
            r.get_descriptions == get_descriptions,
    {
        Metadata { root: String::new(), terminal_fields: Vec::new(), get_descriptions }
    }

    pub fn has_root(&self) -> (r: bool)
        ensures
            r == (self.root@.len() > 0),
    {
        !self.root.as_str().is_empty()
    }

    pub fn has_terminus(&self) -> (r: bool)
        ensures
            r == (self.terminal_fields@.len() > 0),
    {
        self.terminal_fields.len() > 0
    }

    /// Whether `yaml` is a hash with one of the terminal fields among its keys.
    pub fn has_terminal_field(&self, yaml: &Value) -> (r: bool)
        ensures
            r == has_terminal(strs_view(self.terminal_fields@), *yaml),
    {
        let tf = &self.terminal_fields;
        match yaml {
            Value::Hash(es) => {
                let mut j: usize = 0;
                while j < es.len()
                    invariant
                        *yaml == Value::Hash(*es),
                        tf@ == self.terminal_fields@,
                        j <= es@.len(),
                        forall|l: int| 0 <= l < j ==> !strs_view(tf@).contains(#[trigger] es@[l].0@),
                    decreases es.len() - j,
                {
                    let mut t: usize = 0;
                    while t < tf.len()
                        invariant
                            *yaml == Value::Hash(*es),
                            tf@ == self.terminal_fields@,
                            j < es@.len(),
                            t <= tf@.len(),
                            forall|u: int| 0 <= u < t ==> tf@[u]@ != es@[j as int].0@,
                        decreases tf.len() - t,
                    {
                        if str_eq(tf[t].as_str(), es[j].0.as_str()) {
                            assert(strs_view(tf@)[t as int] == es@[j as int].0@);
                            assert(strs_view(tf@).contains(es@[j as int].0@));
                            let ghost jj = j as int;
                            assert(0 <= jj < (*yaml)->Hash_0@.len() && strs_view(tf@).contains((*yaml)->Hash_0@[jj].0@));
                            assert(has_terminal(strs_view(tf@), *yaml));
                            return true;
                        }
                        t = t + 1;
                    }
                    proof {
                        if strs_view(tf@).contains(es@[j as int].0@) {
                            let u = choose|u: int| 0 <= u < tf@.len() && strs_view(tf@)[u] == es@[j as int].0@;
                            assert(tf@[u]@ == es@[j as int].0@);
                        }
                    }
                    j = j + 1;
                }
                false
            },
            _ => false,
        }
    }
}

fn metadata_lookup<'a>(doc: &'a Value, key: &str) -> (r: Option<&'a Value>)
    ensures
        match r {
            Some(v) => metadata_entry(*doc, key@) == Some(*v),
            None => metadata_entry(*doc, key@) is None,
        },
{
    match doc {
        Value::Hash(es) => match hash_lookup(es, "completion-metadata") {
            Some(Value::Hash(ms)) => hash_lookup(ms, key),
            _ => None,
        },
        _ => None,
    }
}

impl YamlDescender {
    /// Reads the settings of `doc`; see `root_setting` and `terminal_setting`.
    pub fn get_metadata(doc: &Value, get_descriptions: bool) -> (r: Result<Metadata, PathError>)
        ensures
            match terminal_setting(*doc) {
                Ok(tf) => r matches Ok(m) && m.root@ == root_setting(*doc) && strs_view(m.terminal_fields@)
                    == tf && m.get_descriptions == get_descriptions,
                Err(e) => r == Err::<Metadata, PathError>(e),
            },
    {
        let root = match metadata_lookup(doc, "root") {
            Some(Value::String(s)) => s.clone(),
            _ => String::new(),
        };
        let mut terminal_fields: Vec<String> = Vec::new();
        match metadata_lookup(doc, "terminal-fields") {
            None => {},
            Some(Value::Array(a)) => {
                let mut i: usize = 0;
                while i < a.len()
                    invariant
                        i <= a@.len(),
                        strs_view(terminal_fields@) == string_items(a@.take(i as int)),
                    decreases a.len() - i,
                {
                    let ghost before = terminal_fields@;
                    assert(a@.take(i + 1).drop_last() =~= a@.take(i as int));
                    assert(a@.take(i + 1).last() == a@[i as int]);
                    if let Value::String(s) = &a[i] {
                        terminal_fields.push(s.clone());
                        assert(strs_view(terminal_fields@) =~= strs_view(before).push(s@));
                    }
                    i = i + 1;
                }
                assert(a@.take(a@.len() as int) =~= a@);
            },
            Some(_) => return Err(PathError::NotAnArray),
        }
        Ok(Metadata { root, terminal_fields, get_descriptions })
    }
}

} // verus!
