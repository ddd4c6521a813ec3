//! A document together with its path dialect and settings: resolves paths and
//! looks up fields along `parent` chains.
use vstd::prelude::*;

use crate::arrayparser::ArraySyntax;
use crate::get_metadata::{has_terminal, root_setting, terminal_setting, Metadata};
use crate::rust_common::strs_view;
use crate::value::{PathError, Value};
use crate::yaml_path::{field_or_parent, inherited_field, resolve, resolve_path, same_outcome};

verus! {

/// The dialect chosen by the flag that constructors take: brackets for bash, `@` for zsh.
pub open spec fn syntax_of(bash_or_zsh: bool) -> ArraySyntax {
    if bash_or_zsh {
        ArraySyntax::Bracket
    } else {
        ArraySyntax::At
    }
}

/// The value of `field` in the node that `path` names, or along its `parent` chain.
pub open spec fn field_at(
    doc: Value,
    prefix: Seq<char>,
    syn: ArraySyntax,
    path: Seq<char>,
    field: Seq<char>,
) -> Result<Value, PathError> {
    match resolve(doc, prefix, syn, path) {
        Ok(n) => field_or_parent(doc, prefix, syn, n, field),
        Err(e) => Err(e),
    }
}

/// The description of `node`: its `description` field, inherited like any field,
/// which must be a string.
pub open spec fn description_of(doc: Value, prefix: Seq<char>, syn: ArraySyntax, node: Value) -> Result<
    Seq<char>,
    PathError,
> {
    match field_or_parent(doc, prefix, syn, node, "description"@) {
        Ok(Value::String(s)) => Ok(s@),
        Ok(_) => Err(PathError::NotAString),
        Err(PathError::FieldNotFound) => Err(PathError::NoDescriptionFound),
        Err(e) => Err(e),
    }
}

/// An owned string result stands for the same outcome as one over character sequences.
pub open spec fn string_outcome(r: Result<String, PathError>, s: Result<Seq<char>, PathError>) -> bool {
    match r {
        Ok(x) => s == Ok::<Seq<char>, PathError>(x@),
        Err(e) => s == Err::<Seq<char>, PathError>(e),
    }
}

/// Walks a document along paths typed at a shell prompt.
pub struct YamlDescender {
    pub(crate) doc: Value,
    pub(crate) ap: ArraySyntax,
    pub(crate) metadata: Metadata,
}

impl YamlDescender {
    /// The document walked.
    pub open(crate) spec fn document(&self) -> Value {
        self.doc
    }

    /// The array dialect of paths.
    pub open(crate) spec fn syntax(&self) -> ArraySyntax {
        self.ap
    }

    /// The key below which all paths start; empty for none.
    pub open(crate) spec fn root_key(&self) -> Seq<char> {
        self.metadata.root@
    }

    /// The keys that mark a hash as a leaf.
    pub open(crate) spec fn terminal_keys(&self) -> Seq<Seq<char>> {
        strs_view(self.metadata.terminal_fields@)
    }

    fn get_ap(bash_or_zsh: bool) -> (r: ArraySyntax)
        ensures
            r == syntax_of(bash_or_zsh),
    {
        if bash_or_zsh {
            ArraySyntax::Bracket
        } else {
            ArraySyntax::At
        }
    }

    /// A descender over `doc`, with the root key and terminal fields that the document
    /// sets under `completion-metadata`.
    pub fn new(doc: Value, bash_or_zsh: bool) -> (r: Result<YamlDescender, PathError>)
        ensures
            match terminal_setting(doc) {
                Ok(tf) => r matches Ok(d) && d.document() == doc && d.syntax() == syntax_of(bash_or_zsh)
                    && d.root_key() == root_setting(doc) && d.terminal_keys() == tf,
                Err(e) => r matches Err(x) && x == e,
            },
    {
        let metadata = match Self::get_metadata(&doc, false) {
            Ok(m) => m,
            Err(e) => return Err(e),
        };
        Ok(YamlDescender { doc, ap: Self::get_ap(bash_or_zsh), metadata })
    }

    /// A descender over a hash or an array, with no root key and no terminal fields.
    pub fn new_from_yaml(yaml: Value, bash_or_zsh: bool) -> (r: Result<YamlDescender, PathError>)
        ensures
            (yaml is Hash || yaml is Array) ==> (r matches Ok(d) && d.document() == yaml && d.syntax()
                == syntax_of(bash_or_zsh) && d.root_key().len() == 0 && d.terminal_keys().len() == 0),
            !(yaml is Hash || yaml is Array) ==> (r matches Err(e) && e == PathError::ScalarDocument),
    {
        match yaml {
            Value::Hash(_) | Value::Array(_) => {
                let metadata = Metadata::new(false);
                Ok(YamlDescender { doc: yaml, ap: Self::get_ap(bash_or_zsh), metadata })
            },
            _ => Err(PathError::ScalarDocument),
        }
    }

    /// The node that `path` names, below the root key if one is set.
    pub fn yaml_descend_path(&self, path: &str) -> (r: Result<&Value, PathError>)
        ensures
            same_outcome(r, resolve(self.document(), self.root_key(), self.syntax(), path@)),
    {
        resolve_path(&self.doc, self.metadata.root.as_str(), self.ap, path)
    }

    /// The value of `field` in `child`, or else in the node that its `parent` names,
    /// and so on along the chain.
    pub fn get_field_or_parent<'a>(&'a self, child: &'a Value, field: &str) -> (r: Result<&'a Value, PathError>)
        ensures
            same_outcome(
                r,
                field_or_parent(self.document(), self.root_key(), self.syntax(), *child, field@),
            ),
    {
        inherited_field(&self.doc, self.metadata.root.as_str(), self.ap, child, field)
    }

    /// Whether `yaml` is a hash with a terminal field among its keys.
    pub fn has_terminal_field(&self, yaml: &Value) -> (r: bool)
        ensures
            r == has_terminal(self.terminal_keys(), *yaml),
    {
        self.metadata.has_terminal_field(yaml)
    }

    /// Sets the root key and gives back the one before.
    pub fn set_root(&mut self, root: &str) -> (r: Result<String, String>)
        ensures
            r matches Ok(o) && o@ == old(self).root_key(),
            final(self).root_key() == root@,
            final(self).document() == old(self).document(),
            final(self).syntax() == old(self).syntax(),
            final(self).terminal_keys() == old(self).terminal_keys(),
    {
        let old_root = self.metadata.root.clone();
        self.metadata.root = root.to_owned();
        Ok(old_root)
    }

    /// The string in `field` of the node at `path`, or along its `parent` chain.
    pub fn get_string_field_or_parent(&self, path: &str, field: &str) -> (r: Result<String, PathError>)
        ensures
            string_outcome(
                r,
                match field_at(self.document(), self.root_key(), self.syntax(), path@, field@) {
                    Ok(Value::String(s)) => Ok(s@),
                    Ok(_) => Err(PathError::TypeMismatch),
                    Err(e) => Err(e),
                },
            ),
    {
        let child = match self.yaml_descend_path(path) {
            Ok(n) => n,
            Err(e) => return Err(e),
        };
        match self.get_field_or_parent(child, field) {
            Ok(Value::String(s)) => Ok(s.clone()),
            Ok(_) => Err(PathError::TypeMismatch),
            Err(e) => Err(e),
        }
    }

    /// The integer in `field` of the node at `path`, or along its `parent` chain.
    pub fn get_int_field_or_parent(&self, path: &str, field: &str) -> (r: Result<i64, PathError>)
        ensures
            r == match field_at(self.document(), self.root_key(), self.syntax(), path@, field@) {
                Ok(Value::Integer(i)) => Ok(i),
                Ok(_) => Err(PathError::TypeMismatch),
                Err(e) => Err(e),
            },
    {
        let child = match self.yaml_descend_path(path) {
            Ok(n) => n,
            Err(e) => return Err(e),
        };
        match self.get_field_or_parent(child, field) {
            Ok(Value::Integer(i)) => Ok(*i),
            Ok(_) => Err(PathError::TypeMismatch),
            Err(e) => Err(e),
        }
    }

    /// The boolean in `field` of the node at `path`, or along its `parent` chain.
    pub fn get_bool_field_or_parent(&self, path: &str, field: &str) -> (r: Result<bool, PathError>)
        ensures
            r == match field_at(self.document(), self.root_key(), self.syntax(), path@, field@) {
                Ok(Value::Boolean(b)) => Ok(b),
                Ok(_) => Err(PathError::TypeMismatch),
                Err(e) => Err(e),
            },
    {
        let child = match self.yaml_descend_path(path) {
            Ok(n) => n,
            Err(e) => return Err(e),
        };
        match self.get_field_or_parent(child, field) {
            Ok(Value::Boolean(b)) => Ok(*b),
            Ok(_) => Err(PathError::TypeMismatch),
            Err(e) => Err(e),
        }
    }

    /// The description of `yaml`; see `description_of`.
    pub fn get_description(&self, yaml: &Value) -> (r: Result<String, PathError>)
        ensures
            string_outcome(r, description_of(self.document(), self.root_key(), self.syntax(), *yaml)),
    {
        match self.get_field_or_parent(yaml, "description") {
            Ok(Value::String(s)) => Ok(s.clone()),
            Ok(_) => Err(PathError::NotAString),
            Err(PathError::FieldNotFound) => Err(PathError::NoDescriptionFound),
            Err(e) => Err(e),
        }
    }
}

} // verus!
