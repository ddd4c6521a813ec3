use aep_rust_common::strwriter::StrWriter;
use aep_rust_common::value::Value;
use aep_rust_common::yaml_descender::YamlDescender;
use aep_rust_common::yaml_path::{yaml_path, yaml_path_field};
use yaml_rust::{Yaml, YamlLoader};

const SOURCE1: &str = r#"---
field1:
    field1a: value1
    field1b: value2

field2: foo

"#;

const TEST_SOURCE: &str = r"---
        root:
            array:
                - string: str
                  number: 4
                  bool: true
                  real: 2.0

        parent_test:
            parent:
                description: 'foo'
            child1:
                parent: parent_test.parent
            child2:
                parent: parent_test.child1
";

const TEST_DATA: &str = r"---
GPIO:
  pins:
    - function: out
      level: high
      set: 1
      clear: 0
    - function: in
      level: low
      set: 1
      clear: 0
  words: 2
array:
  - a
  - b
  - c
level1:
  level2: x
  level2a: y
  level2b: z
level1b: b
level1c: c
ulevel:
  level1:
    level2:
      level3: deep
xlevel: x
";

fn to_value(y: &Yaml) -> Value {
    match y {
        Yaml::Real(s) => Value::Real(s.clone()),
        Yaml::Integer(i) => Value::Integer(*i),
        Yaml::String(s) => Value::String(s.clone()),
        Yaml::Boolean(b) => Value::Boolean(*b),
        Yaml::Array(a) => Value::Array(a.iter().map(to_value).collect()),
        Yaml::Hash(h) => Value::Hash(
            h.iter()
                .filter_map(|(k, v)| k.as_str().map(|k| (k.to_string(), to_value(v))))
                .collect(),
        ),
        Yaml::Null => Value::Null,
        _ => Value::BadValue,
    }
}

fn load(text: &str) -> Value {
    to_value(&YamlLoader::load_from_str(text).unwrap()[0])
}

fn bash_descender() -> YamlDescender {
    YamlDescender::new(load(TEST_DATA), true).unwrap()
}

fn zsh_descender() -> YamlDescender {
    YamlDescender::new(load(TEST_DATA), false).unwrap()
}

fn input_output_check(d: &YamlDescender, input: &str, output: &str) {
    let mut result_buffer = StrWriter::new();
    d.write_completions(&mut result_buffer, input, false).expect("write failed");
    let result_str = result_buffer.to_string();
    assert_eq!(result_str, output);
}

#[test]
fn test_empty() {
    let d = bash_descender();
    let mut output = StrWriter::new();
    d.write_completions(&mut output, "", false).expect("write failed");
    let s = output.to_string();
    assert_eq!(s, "GPIO\narray\nlevel1\nlevel1b\nlevel1c\nulevel\nxlevel\n");
}

#[test]
fn test_one_path() {
    let d = Box::new(YamlDescender::new(load(SOURCE1), true).unwrap());
    let mut output = StrWriter::new();
    d.write_completions(&mut output, "f", false).expect("write failed");
    let s = output.to_string();
    assert_eq!(s, "field1\nfield2\n");
}

#[test]
fn test_array1() {
    input_output_check(&bash_descender(), "array", "array[0]\narray[1]\narray[2]\n");
    input_output_check(&zsh_descender(), "array", "array@0\narray@1\narray@2\n");
}

#[test]
fn test_array3() {
    input_output_check(&zsh_descender(), "array@", "array@0\narray@1\narray@2\n");
    input_output_check(&bash_descender(), "array[", "array[0]\narray[1]\narray[2]\n");
}

#[test]
fn test_field_terminator() {
    input_output_check(&bash_descender(), "level1.", "level1.level2\nlevel1.level2a\nlevel1.level2b\n");
}

#[test]
fn test_level_drop() {
    input_output_check(&bash_descender(), "level1.level2", "level1.level2\nlevel1.level2a\nlevel1.level2b\n");
    input_output_check(&bash_descender(), "level1.level2a", "level1.level2a\n");
}

#[test]
fn test_gpio() {
    input_output_check(&bash_descender(), "G", "GPIO.pins\nGPIO.words\n");
}

#[test]
fn test_gpio_p() {
    input_output_check(&zsh_descender(), "GPIO.p", "GPIO.pins@0\nGPIO.pins@1\n");
    input_output_check(&bash_descender(), "GPIO.p", "GPIO.pins[0]\nGPIO.pins[1]\n");
}

#[test]
fn test_gpio_pin0() {
    input_output_check(
        &zsh_descender(),
        "GPIO.pins@0.",
        "GPIO.pins@0.clear\nGPIO.pins@0.function\nGPIO.pins@0.level\nGPIO.pins@0.set\n",
    );
    input_output_check(
        &bash_descender(),
        "GPIO.pins[0].",
        "GPIO.pins[0].clear\nGPIO.pins[0].function\nGPIO.pins[0].level\nGPIO.pins[0].set\n",
    );
}

#[test]
fn test_descending() {
    input_output_check(&bash_descender(), "ulev", "ulevel.level1.level2.level3\n");
}

fn as_i64(v: &Value) -> Option<i64> {
    match v {
        Value::Integer(i) => Some(*i),
        _ => None,
    }
}

fn as_string(v: &Value) -> Option<String> {
    match v {
        Value::String(s) => Some(s.clone()),
        _ => None,
    }
}

fn as_bool(v: &Value) -> Option<bool> {
    match v {
        Value::Boolean(b) => Some(*b),
        _ => None,
    }
}

fn as_f64(v: &Value) -> Option<f64> {
    match v {
        Value::Real(s) => s.parse::<f64>().ok(),
        _ => None,
    }
}

#[test]
fn test_path() {
    let yaml_data = load(TEST_SOURCE);

    let i = yaml_path(&yaml_data, "root.array@0.number").map(as_i64);
    assert_eq!(i, Ok(Some(4)));
    let i2 = yaml_path_field(&yaml_data, "root.array@0", "number").map(as_i64);
    assert_eq!(i2, Ok(Some(4)));

    let s = yaml_path(&yaml_data, "root.array@0.string").map(as_string);
    assert_eq!(s, Ok(Some("str".to_string())));
    let s2 = yaml_path_field(&yaml_data, "root.array@0", "string").map(as_string);
    assert_eq!(s2, Ok(Some("str".to_string())));

    let b = yaml_path(&yaml_data, "root.array@0.bool").map(as_bool);
    assert_eq!(b, Ok(Some(true)));
    let b2 = yaml_path_field(&yaml_data, "root.array@0", "bool").map(as_bool);
    assert_eq!(b2, Ok(Some(true)));

    let f = yaml_path(&yaml_data, "root.array@0.real").map(as_f64);
    assert_eq!(f, Ok(Some(2.0)));
    let f2 = yaml_path_field(&yaml_data, "root.array@0", "real").map(as_f64);
    assert_eq!(f2, Ok(Some(2.0)));
}

#[test]
fn test_parent_lookup() {
    let doccer = YamlDescender::new(load(TEST_SOURCE), true).unwrap();
    let child = doccer.yaml_descend_path("parent_test.child2").unwrap();
    let description = doccer.get_field_or_parent(child, "description");
    assert_eq!(description, Ok(&Value::String("foo".to_string())));
}

#[test]
#[should_panic]
fn test_safe_path_error() {
    let yaml = load(TEST_SOURCE);
    let f = yaml_path(&yaml, "foo.array@0.real").map(as_f64);
    assert_eq!(f.unwrap(), Some(2.0));
}
