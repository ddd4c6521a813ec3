use aep_rust_common::arrayparser::{tokenize_path, ArrayParser, ArraySyntax, BashArrayParser, ZshArrayParser};
use aep_rust_common::find_config_file::{config_file_candidates, default_path};
use aep_rust_common::get_metadata::Metadata;
use aep_rust_common::rust_common::{keys_starting_with, sep};
use aep_rust_common::strwriter::StrWriter;
use aep_rust_common::value::{PathError, Value};
use aep_rust_common::yaml_descender::YamlDescender;
use aep_rust_common::yaml_doccer::YamlDoccer;
use aep_rust_common::yaml_path::{yaml_field_parent, yaml_path, yaml_path_field};

fn s(x: &str) -> Value {
    Value::String(x.to_string())
}

fn h(entries: Vec<(&str, Value)>) -> Value {
    Value::Hash(entries.into_iter().map(|(k, v)| (k.to_string(), v)).collect())
}

fn arr(items: Vec<Value>) -> Value {
    Value::Array(items)
}

fn complete(d: &YamlDescender, input: &str, descriptions: bool) -> Result<String, PathError> {
    let mut w = StrWriter::new();
    d.write_completions(&mut w, input, descriptions)?;
    Ok(w.to_string())
}

fn source1() -> Value {
    h(vec![("field1", h(vec![("field1a", s("value1")), ("field1b", s("value2"))])), ("field2", s("foo"))])
}

fn parent_doc() -> Value {
    h(vec![(
        "parent_test",
        h(vec![
            ("parent", h(vec![("description", s("foo"))])),
            ("child1", h(vec![("parent", s("parent_test.parent"))])),
            ("child2", h(vec![("parent", s("parent_test.child1"))])),
        ]),
    )])
}

#[test]
fn empty_input_lists_top_keys() {
    let d = YamlDescender::new(source1(), true).unwrap();
    assert_eq!(complete(&d, "", false), Ok("field1\nfield2\n".to_string()));
}

#[test]
fn two_way_prefix_lists_both() {
    let d = YamlDescender::new(source1(), true).unwrap();
    assert_eq!(complete(&d, "f", false), Ok("field1\nfield2\n".to_string()));
}

#[test]
fn unmatched_prefix_gives_nothing() {
    let d = YamlDescender::new(source1(), true).unwrap();
    assert_eq!(complete(&d, "zz", false), Ok(String::new()));
    assert_eq!(complete(&d, "zz.", false), Ok(String::new()));
}

#[test]
fn terminated_key_lists_children() {
    let doc = h(vec![("level1", h(vec![("level2", s("x")), ("level2a", s("y")), ("level2b", s("z"))]))]);
    let d = YamlDescender::new(doc, true).unwrap();
    assert_eq!(complete(&d, "level1.", false), Ok("level1.level2\nlevel1.level2a\nlevel1.level2b\n".to_string()));
}

#[test]
fn prefix_listing_is_sorted_and_filtered() {
    let doc = h(vec![("beta", s("1")), ("alpha", s("2")), ("alps", s("3")), ("Alpha", s("4")), ("al", s("5"))]);
    let d = YamlDescender::new(doc, true).unwrap();
    assert_eq!(complete(&d, "al", false), Ok("al\nalpha\nalps\n".to_string()));
    assert_eq!(complete(&d, "", false), Ok("Alpha\nal\nalpha\nalps\nbeta\n".to_string()));
}

#[test]
fn single_key_hash_collapses() {
    let doc = h(vec![
        ("only", h(vec![("inner", h(vec![("a", s("1")), ("b", s("2"))]))])),
        ("other", s("x")),
    ]);
    let d = YamlDescender::new(doc, true).unwrap();
    assert_eq!(complete(&d, "on", false), Ok("only.inner.a\nonly.inner.b\n".to_string()));
    assert_eq!(complete(&d, "only.", false), Ok("only.inner.a\nonly.inner.b\n".to_string()));
}

#[test]
fn single_element_array_collapses_without_an_index() {
    let doc = h(vec![("list", arr(vec![h(vec![("x", s("1")), ("y", s("2"))])])), ("z", s("3"))]);
    let d = YamlDescender::new(doc, true).unwrap();
    assert_eq!(complete(&d, "list", false), Ok("list[0].x\nlist[0].y\n".to_string()));
    assert_eq!(complete(&d, "list.x", false), Ok("list[0].x\n".to_string()));
}

#[test]
fn terminal_field_stops_descent() {
    let doc = h(vec![
        ("completion-metadata", h(vec![("terminal-fields", arr(vec![s("leaf")]))])),
        ("x", h(vec![("leaf", s("1")), ("other", s("2"))])),
    ]);
    let d = YamlDescender::new(doc, true).unwrap();
    assert_eq!(complete(&d, "x", false), Ok("x\n".to_string()));
    assert_eq!(complete(&d, "x.", false), Ok("x.\n".to_string()));
    assert_eq!(complete(&d, "x.other", false), Ok("x.\n".to_string()));
    assert!(d.has_terminal_field(d.yaml_descend_path("x").unwrap()));
    assert!(!d.has_terminal_field(d.yaml_descend_path("").unwrap()));
}

#[test]
fn out_of_range_index_is_an_error() {
    let doc = h(vec![("array", arr(vec![s("a"), s("b"), s("c")])), ("b", s("x"))]);
    let d = YamlDescender::new(doc, true).unwrap();
    assert_eq!(complete(&d, "array[100]", false), Err(PathError::IndexOutOfBounds));
    assert_eq!(complete(&d, "array[99999999999999999999999999]", false), Err(PathError::IndexOutOfBounds));
    assert_eq!(complete(&d, "array[2]", false), Ok("array[2]\n".to_string()));
}

#[test]
fn index_into_root_array() {
    let doc = arr(vec![h(vec![("a", s("1")), ("b", s("2"))]), s("x")]);
    let d = YamlDescender::new_from_yaml(doc, false).unwrap();
    assert_eq!(complete(&d, "", false), Ok("@0\n@1\n".to_string()));
    assert_eq!(complete(&d, "@0", false), Ok("@0.\n".to_string()));
    assert_eq!(complete(&d, "@0.", false), Ok("@0.a\n@0.b\n".to_string()));
    assert_eq!(complete(&d, "@1", false), Ok("@1\n".to_string()));
}

#[test]
fn descriptions_follow_each_line() {
    let doc = h(vec![
        ("cmd", h(vec![("description", s("run a command")), ("x", s("1"))])),
        ("copy", h(vec![("parent", s("cmd"))])),
        ("other", s("z")),
    ]);
    let d = YamlDescender::new(doc, true).unwrap();
    assert_eq!(complete(&d, "c", true), Ok("cmd\nrun a command\ncopy\nrun a command\n".to_string()));
    let c = d.completions("c", true).unwrap();
    assert!(c.described);
    assert_eq!(complete(&d, "c", false), Ok("cmd\ncopy\n".to_string()));
    assert_eq!(complete(&d, "", true), Ok("cmd\ncopy\nother\n".to_string()));
    assert!(!d.completions("", true).unwrap().described);
}

#[test]
fn root_key_prefixes_every_path() {
    let doc = h(vec![
        ("completion-metadata", h(vec![("root", s("cmds"))])),
        ("cmds", h(vec![("start", s("1")), ("stop", s("2"))])),
    ]);
    let mut d = YamlDescender::new(doc, true).unwrap();
    assert_eq!(complete(&d, "st", false), Ok("start\nstop\n".to_string()));
    assert_eq!(d.yaml_descend_path("start"), Ok(&s("1")));
    assert_eq!(d.get_string_field_or_parent("", "stop"), Ok("2".to_string()));
    assert_eq!(d.set_root("missing"), Ok("cmds".to_string()));
    assert_eq!(complete(&d, "st", false), Ok(String::new()));
    assert_eq!(d.yaml_descend_path("start"), Err(PathError::KeyNotFound));
}

#[test]
fn metadata_errors() {
    let odd_root = h(vec![("completion-metadata", h(vec![("root", Value::Integer(3))])), ("x", s("1"))]);
    let d = YamlDescender::new(odd_root, true).unwrap();
    assert_eq!(complete(&d, "x", false), Ok("x\n".to_string()));
    assert_eq!(YamlDescender::get_metadata(&h(vec![("completion-metadata", h(vec![("root", Value::Null)]))]), false).unwrap().root, "");
    let bad_tf = h(vec![("completion-metadata", h(vec![("terminal-fields", s("leaf"))]))]);
    assert!(matches!(YamlDescender::new(bad_tf, true), Err(PathError::NotAnArray)));
    assert!(matches!(YamlDescender::new_from_yaml(s("scalar"), true), Err(PathError::ScalarDocument)));
    let good = h(vec![(
        "completion-metadata",
        h(vec![("root", s("r")), ("terminal-fields", arr(vec![s("a"), Value::Integer(1), s("b")]))]),
    )]);
    let m = YamlDescender::get_metadata(&good, true).unwrap();
    assert_eq!(m.root, "r");
    assert_eq!(m.terminal_fields, vec!["a".to_string(), "b".to_string()]);
    assert!(m.has_root() && m.has_terminus() && m.get_descriptions);
    let plain = Metadata::new(false);
    assert!(!plain.has_root() && !plain.has_terminus());
}

#[test]
fn resolution_is_deterministic() {
    let d = YamlDescender::new(parent_doc(), true).unwrap();
    let a = d.yaml_descend_path("parent_test.child1");
    let b = d.yaml_descend_path("parent_test.child1");
    assert_eq!(a, b);
    assert_eq!(d.yaml_descend_path("parent_test.nope"), d.yaml_descend_path("parent_test.nope"));
}

#[test]
fn resolution_errors() {
    let doc = h(vec![("root", h(vec![("array", arr(vec![h(vec![("number", Value::Integer(4))])]))]))]);
    assert_eq!(yaml_path(&doc, "root.array.number"), Err(PathError::NotAHash));
    assert_eq!(yaml_path(&doc, "root.array@0.number@1"), Err(PathError::NotAnArray));
    assert_eq!(yaml_path(&doc, "root.array@0.numberX"), Err(PathError::KeyNotFound));
    assert_eq!(yaml_path(&doc, "root.array@100.number"), Err(PathError::IndexOutOfBounds));
    assert_eq!(yaml_path(&doc, "foo.array@0.real"), Err(PathError::KeyNotFound));
    assert_eq!(yaml_path(&doc, "root...array"), Err(PathError::InvalidPathSegment));
    assert_eq!(yaml_path(&doc, ""), Ok(&doc));
    assert_eq!(yaml_path_field(&doc, "root", "nope"), Err(PathError::FieldNotFound));
    assert_eq!(yaml_path_field(&doc, "root.array", "x"), Err(PathError::NotAHash));
}

#[test]
fn parent_chain_inherits() {
    let d = YamlDescender::new(parent_doc(), true).unwrap();
    let child2 = d.yaml_descend_path("parent_test.child2").unwrap();
    let child1 = d.yaml_descend_path("parent_test.child1").unwrap();
    assert_eq!(d.get_field_or_parent(child2, "description"), d.get_field_or_parent(child1, "description"));
    assert_eq!(d.get_field_or_parent(child2, "description"), Ok(&s("foo")));
    assert_eq!(d.get_description(child2), Ok("foo".to_string()));
    assert_eq!(d.get_field_or_parent(child2, "nothing"), Err(PathError::FieldNotFound));
    assert_eq!(d.get_description(&s("x")), Err(PathError::NotAHash));
    let doc = parent_doc();
    let c2 = yaml_path(&doc, "parent_test.child2").unwrap();
    assert_eq!(yaml_field_parent(&doc, c2, "description"), Ok(&s("foo")));
}

#[test]
fn parent_errors() {
    let doc = h(vec![
        ("a", h(vec![("parent", s("b"))])),
        ("b", h(vec![("parent", s("a"))])),
        ("c", h(vec![("parent", Value::Integer(1))])),
        ("d", h(vec![("parent", s("nowhere"))])),
        ("e", h(vec![("description", Value::Integer(1))])),
        ("f", h(vec![("x", s("1"))])),
    ]);
    let d = YamlDescender::new(doc, true).unwrap();
    let node = |p: &str| d.yaml_descend_path(p).unwrap();
    assert_eq!(d.get_field_or_parent(node("a"), "x"), Err(PathError::CyclicParentChain));
    assert_eq!(d.get_field_or_parent(node("c"), "x"), Err(PathError::InvalidParentPointer));
    assert_eq!(d.get_field_or_parent(node("d"), "x"), Err(PathError::KeyNotFound));
    assert_eq!(d.get_description(node("e")), Err(PathError::NotAString));
    assert_eq!(d.get_description(node("f")), Err(PathError::NoDescriptionFound));
}

#[test]
fn typed_getters() {
    let doc = h(vec![("n", h(vec![("i", Value::Integer(-7)), ("b", Value::Boolean(true)), ("s", s("t"))]))]);
    let d = YamlDescender::new(doc, false).unwrap();
    assert_eq!(d.get_int_field_or_parent("n", "i"), Ok(-7));
    assert_eq!(d.get_bool_field_or_parent("n", "b"), Ok(true));
    assert_eq!(d.get_string_field_or_parent("n", "s"), Ok("t".to_string()));
    assert_eq!(d.get_int_field_or_parent("n", "s"), Err(PathError::TypeMismatch));
    assert_eq!(d.get_bool_field_or_parent("n", "i"), Err(PathError::TypeMismatch));
    assert_eq!(d.get_string_field_or_parent("m", "s"), Err(PathError::KeyNotFound));
}

#[test]
fn index_rendering_round_trip() {
    let bash = BashArrayParser::new();
    let zsh = ZshArrayParser::new();
    assert_eq!(bash.apply_index(0), "[0]");
    assert_eq!(bash.apply_index(1234), "[1234]");
    assert_eq!(zsh.apply_index(57), "@57");
    assert!(bash.array_ending("x["));
    assert!(!bash.array_ending("x[0]"));
    assert!(zsh.array_ending("x@"));
    assert!(!zsh.array_ending("x@0"));
    assert!(!bash.array_ending(""));
    let t = bash.tokenize(&bash.apply_index(1234));
    assert_eq!(t.len(), 1);
    assert_eq!((t[0].key.clone(), t[0].index, t[0].terminated), (None, Some(1234), false));
    let t = zsh.tokenize(&zsh.apply_index(9));
    assert_eq!((t.len(), t[0].index), (1, Some(9)));
}

#[test]
fn tokenizer_cases() {
    let toks = tokenize_path(ArraySyntax::Bracket, "a.b[2].c");
    let shape: Vec<(Option<String>, Option<usize>, bool)> =
        toks.iter().map(|t| (t.key.clone(), t.index, t.terminated)).collect();
    assert_eq!(
        shape,
        vec![
            (Some("a".to_string()), None, true),
            (Some("b".to_string()), None, false),
            (None, Some(2), false),
            (Some("c".to_string()), None, false),
        ]
    );
    assert_eq!(tokenize_path(ArraySyntax::Bracket, "").len(), 1);
    assert_eq!(tokenize_path(ArraySyntax::Bracket, "array[").len(), 2);
    assert_eq!(tokenize_path(ArraySyntax::At, "x@").len(), 2);
    let at = tokenize_path(ArraySyntax::At, "k@3");
    assert_eq!((at.len(), at[1].index), (2, Some(3)));
    let bash_at = tokenize_path(ArraySyntax::Bracket, "k@3");
    assert_eq!(bash_at[0].key.as_deref(), Some("k@3"));
    let weird = tokenize_path(ArraySyntax::Bracket, "]]\\[x");
    assert!(weird.iter().all(|t| t.index.is_none()));
    let unicode = tokenize_path(ArraySyntax::At, "ключ.é@12");
    assert_eq!(unicode[0].key.as_deref(), Some("ключ"));
    assert_eq!(unicode[2].index, Some(12));
}

#[test]
fn key_listing_and_separators() {
    let es = vec![
        ("b".to_string(), s("1")),
        ("a".to_string(), s("2")),
        ("ab".to_string(), Value::Null),
        ("B".to_string(), s("3")),
    ];
    assert_eq!(keys_starting_with("", &es, &vec![]), vec!["B", "a", "ab", "b"]);
    assert_eq!(keys_starting_with("a", &es, &vec!["ab".to_string()]), vec!["a"]);
    assert_eq!(sep(&h(vec![]), false), ".");
    assert_eq!(sep(&h(vec![]), true), "");
    assert_eq!(sep(&s("x"), false), "");
}

#[test]
fn doccer_reads_fields_at_the_end_of_the_chain() {
    let doc = h(vec![
        ("tree", h(vec![("parent2", h(vec![("key", s("value"))])), ("list", arr(vec![s("x"), h(vec![("key", s("in list"))])]))])),
        ("parent1", h(vec![("parent", s("tree.parent2")), ("key", s("ignored"))])),
        ("child", h(vec![("parent", s("parent1"))])),
        ("nokey", h(vec![("other", s("1"))])),
        ("badkey", h(vec![("key", Value::Integer(1))])),
    ]);
    let d = YamlDoccer::new(doc);
    let child = d.yaml_descend_path("child").unwrap();
    assert_eq!(d.get_field_or_parent(child, "key"), Ok("value".to_string()));
    let nokey = d.yaml_descend_path("nokey").unwrap();
    assert_eq!(d.get_field_or_parent(nokey, "key"), Ok(String::new()));
    let badkey = d.yaml_descend_path("badkey").unwrap();
    assert_eq!(d.get_field_or_parent(badkey, "key"), Err(PathError::NotAString));
    let in_list = d.yaml_descend_path("tree.list[1]").unwrap();
    assert_eq!(d.get_field_or_parent(in_list, "key"), Ok("in list".to_string()));
    assert_eq!(d.get_field_or_parent(&s("x"), "key"), Err(PathError::NotAHash));
}

#[test]
fn config_candidates_follow_the_search_path() {
    assert_eq!(default_path("tool", "/home/u"), ".:/home/u/.config/tool:/etc/tool");
    assert_eq!(
        config_file_candidates("tool", "/home/u", None),
        vec!["./tool.yaml", "/home/u/.config/tool/tool.yaml", "/etc/tool/tool.yaml"]
    );
    assert_eq!(config_file_candidates("foo", "", Some("a:b::c")), vec!["a/foo.yaml", "b/foo.yaml", "/foo.yaml", "c/foo.yaml"]);
    assert_eq!(config_file_candidates("foo", "", Some("")), vec!["/foo.yaml"]);
}

#[test]
fn single_key_hash_is_entered_without_a_match() {
    let d = YamlDescender::new(h(vec![("k", s("v"))]), true).unwrap();
    assert_eq!(complete(&d, "x", false), Ok("k\n".to_string()));
    let d = YamlDescender::new(h(vec![("k", h(vec![("a", s("1")), ("b", s("2"))]))]), true).unwrap();
    assert_eq!(complete(&d, "x", false), Ok(String::new()));
    let nested = h(vec![("k", h(vec![("a", h(vec![("b1", s("1")), ("b2", s("2")), ("c", s("3"))]))]))]);
    let d = YamlDescender::new(nested, true).unwrap();
    assert_eq!(complete(&d, "b", false), Ok("k.a.b1\nk.a.b2\n".to_string()));
    assert_eq!(complete(&d, "k.b", false), Ok("k.a.b1\nk.a.b2\n".to_string()));
}

#[test]
fn key_listing_of_unique_keys_is_strictly_ascending() {
    let es = vec![
        ("zeta".to_string(), s("1")),
        ("alpha".to_string(), s("2")),
        ("mid".to_string(), s("3")),
        ("alp".to_string(), s("4")),
    ];
    let keys = keys_starting_with("", &es, &vec![]);
    assert_eq!(keys, vec!["alp", "alpha", "mid", "zeta"]);
    assert!(keys.windows(2).all(|w| w[0] < w[1]));
    let dup = vec![("a".to_string(), s("1")), ("a".to_string(), s("2"))];
    assert_eq!(keys_starting_with("a", &dup, &vec![]), vec!["a", "a"]);
}

#[test]
fn yaml_path_reads_both_index_styles() {
    let doc = h(vec![("tree", h(vec![("array", arr(vec![h(vec![("field", Value::Integer(3))])]))]))]);
    assert_eq!(yaml_path(&doc, "tree.array[0].field"), Ok(&Value::Integer(3)));
    assert_eq!(yaml_path(&doc, "tree.array@0.field"), Ok(&Value::Integer(3)));
    assert_eq!(yaml_path(&doc, "tree.array[0"), Ok(&h(vec![("field", Value::Integer(3))])));
    assert_eq!(yaml_path(&doc, "tree.array[1].field"), Err(PathError::IndexOutOfBounds));
    let a = h(vec![("a", arr(vec![Value::Integer(1), Value::Integer(2)]))]);
    let d = YamlDescender::new_from_yaml(h(vec![("a", arr(vec![Value::Integer(1), Value::Integer(2)]))]), true).unwrap();
    assert_eq!(yaml_path(&a, "a[0]"), d.yaml_descend_path("a[0]"));
    assert_eq!(yaml_path(&a, "a[1]"), Ok(&Value::Integer(2)));
    let either = tokenize_path(ArraySyntax::Either, "k@3[4]");
    let shape: Vec<(Option<String>, Option<usize>)> = either.iter().map(|t| (t.key.clone(), t.index)).collect();
    assert_eq!(shape, vec![(Some("k".to_string()), None), (None, Some(3)), (None, Some(4))]);
    assert_eq!(ArraySyntax::Either.apply_index(5), "[5]");
    assert!(ArraySyntax::Either.array_ending("x@") && ArraySyntax::Either.array_ending("x["));
}

#[test]
fn well_formed_document_lists_keys_once() {
    let doc = h(vec![("b", s("1")), ("a", s("2")), ("c", s("3"))]);
    let d = YamlDescender::new(doc, true).unwrap();
    assert_eq!(complete(&d, "", false), Ok("a\nb\nc\n".to_string()));
}
