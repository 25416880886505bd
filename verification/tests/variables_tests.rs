use shinkansen::Namespace;
use shinkansen::TypedValue;
use shinkansen::variables::{
    collect_cli_variables, collect_config_variables, collect_env_variables, collect_variables,
};

fn defs(strings: &[&str]) -> Vec<String> {
    strings.iter().map(|s| s.to_string()).collect()
}

fn env_pairs(pairs: &[(&str, Option<&str>)]) -> Vec<(String, Option<String>)> {
    pairs
        .iter()
        .map(|(k, v)| (k.to_string(), v.map(|s| s.to_string())))
        .collect()
}

fn float_of(v: &TypedValue) -> f64 {
    v.float_text().unwrap().parse::<f64>().unwrap()
}

#[test]
fn test_cli_variables_parsing() {
    let variables =
        collect_variables(&None, &None, &defs(&["name=test", "version=1.0.0"])).unwrap();

    assert_eq!(variables.get("name").unwrap().as_str().unwrap(), "test");
    assert_eq!(variables.get("version").unwrap().as_str().unwrap(), "1.0.0");
}

#[test]
fn test_invalid_variable_format() {
    let result = collect_variables(&None, &None, &defs(&["invalid_format"]));

    assert!(result.is_err());
    let err = result.unwrap_err();
    assert!(err.message().contains("Invalid variable format"));
}

#[test]
fn test_env_variables() {
    let pairs = env_pairs(&[("TEST_VAR1", Some("value1")), ("TEST_VAR2", Some("value2"))]);
    let variables = collect_variables(&Some(pairs), &None, &defs(&[])).unwrap();

    assert_eq!(
        variables.get("TEST_VAR1").unwrap().as_str().unwrap(),
        "value1"
    );
    assert_eq!(
        variables.get("TEST_VAR2").unwrap().as_str().unwrap(),
        "value2"
    );
}

#[test]
fn test_env_variables_numeric_types() {
    let pairs = env_pairs(&[
        ("TEST_NUM", Some("42")),
        ("TEST_FLOAT", Some("3.14")),
        ("TEST_BOOL", Some("true")),
        ("TEST_STRING", Some("hello")),
    ]);
    let variables = collect_variables(&Some(pairs), &None, &defs(&[])).unwrap();

    // Test that numeric values are properly converted
    assert_eq!(variables.get("TEST_NUM").unwrap().as_i64().unwrap(), 42);
    assert_eq!(float_of(variables.get("TEST_FLOAT").unwrap()), 3.14);
    assert_eq!(variables.get("TEST_BOOL").unwrap().as_bool().unwrap(), true);
    assert_eq!(
        variables.get("TEST_STRING").unwrap().as_str().unwrap(),
        "hello"
    );
}

#[test]
fn test_env_variables_nonexistent() {
    // The name is not bound in the environment
    let pairs = env_pairs(&[("NONEXISTENT_VAR", None)]);
    let variables = collect_variables(&Some(pairs), &None, &defs(&[])).unwrap();

    // Should not contain the nonexistent variable
    assert!(variables.get("NONEXISTENT_VAR").is_none());
}

#[test]
fn test_env_variables_escaped_curly_brackets() {
    let pairs = env_pairs(&[("ESCAPED_VAR", Some("env\\{curly\\}brackets"))]);
    let variables = collect_variables(&Some(pairs), &None, &defs(&[])).unwrap();

    // Should unescape the curly brackets
    assert_eq!(
        variables.get("ESCAPED_VAR").unwrap().as_str().unwrap(),
        "env{curly}brackets"
    );
}

#[test]
fn test_variable_precedence() {
    let pairs = env_pairs(&[("TEST_VAR", Some("env_value"))]);
    let config_content = r#"{
        "TEST_VAR": "config_value"
    }"#;

    let variables = collect_variables(
        &Some(pairs),
        &Some((config_content.to_string(), "json".to_string())),
        &defs(&["TEST_VAR=cli_value"]),
    )
    .unwrap();

    // CLI should win
    assert_eq!(
        variables.get("TEST_VAR").unwrap().as_str().unwrap(),
        "cli_value"
    );
}

#[test]
fn test_config_file_json() {
    let config_content = r#"{
        "string_var": "test",
        "number_var": 42,
        "bool_var": true,
        "array_var": [1, 2, 3],
        "object_var": {"nested": "value"}
    }"#;

    let variables = collect_variables(
        &None,
        &Some((config_content.to_string(), "json".to_string())),
        &defs(&[]),
    )
    .unwrap();

    assert_eq!(
        variables.get("string_var").unwrap().as_str().unwrap(),
        "test"
    );
    assert_eq!(variables.get("number_var").unwrap().as_i64().unwrap(), 42);
    assert_eq!(variables.get("bool_var").unwrap().as_bool().unwrap(), true);
}

#[test]
fn test_config_file_unsupported_format() {
    let config_content = r#"string_var = "test""#;

    let result = collect_variables(
        &None,
        &Some((config_content.to_string(), "txt".to_string())),
        &defs(&[]),
    );

    assert!(result.is_err());
    let err = result.unwrap_err();
    assert!(err.message().contains("Unsupported config file format"));
}

#[test]
fn test_empty_variables() {
    let variables = collect_variables(&None, &None, &defs(&[])).unwrap();

    assert!(variables.is_empty());
}

#[test]
fn test_collect_cli_variables_directly() {
    let mut variables = Namespace::new();
    let cli_vars = defs(&["name=test", "version=1.0.0"]);

    collect_cli_variables(&mut variables, &cli_vars).unwrap();

    assert_eq!(variables.get("name").unwrap().as_str().unwrap(), "test");
    assert_eq!(variables.get("version").unwrap().as_str().unwrap(), "1.0.0");
}

#[test]
fn test_collect_env_variables_directly() {
    let mut variables = Namespace::new();
    let pairs = env_pairs(&[
        ("TEST_VAR_DIRECT1", Some("value1")),
        ("TEST_VAR_DIRECT2", Some("value2")),
    ]);

    collect_env_variables(&mut variables, &pairs).unwrap();

    assert_eq!(
        variables.get("TEST_VAR_DIRECT1").unwrap().as_str().unwrap(),
        "value1"
    );
    assert_eq!(
        variables.get("TEST_VAR_DIRECT2").unwrap().as_str().unwrap(),
        "value2"
    );
}

#[test]
fn test_collect_config_variables_directly() {
    let config_content = r#"{
        "string_var": "test",
        "number_var": 42,
        "bool_var": true
    }"#;

    let mut variables = Namespace::new();
    collect_config_variables(&mut variables, config_content, "json").unwrap();

    assert_eq!(
        variables.get("string_var").unwrap().as_str().unwrap(),
        "test"
    );
    assert_eq!(variables.get("number_var").unwrap().as_i64().unwrap(), 42);
    assert_eq!(variables.get("bool_var").unwrap().as_bool().unwrap(), true);
}

#[test]
fn test_modular_variable_collection() {
    // Test that we can build variables incrementally using the modular functions
    let mut variables = Namespace::new();

    // Add CLI variables
    let cli_vars = defs(&["base=cli_value"]);
    collect_cli_variables(&mut variables, &cli_vars).unwrap();

    assert_eq!(
        variables.get("base").unwrap().as_str().unwrap(),
        "cli_value"
    );

    // Add more CLI variables
    let more_cli_vars = defs(&["extra=added"]);
    collect_cli_variables(&mut variables, &more_cli_vars).unwrap();

    assert_eq!(
        variables.get("base").unwrap().as_str().unwrap(),
        "cli_value"
    );
    assert_eq!(variables.get("extra").unwrap().as_str().unwrap(), "added");
}

#[test]
fn test_cli_variables_with_escaped_characters() {
    let mut variables = Namespace::new();

    // Test escaped comma
    let cli_vars = defs(&["a=Hello\\,world"]);
    collect_cli_variables(&mut variables, &cli_vars).unwrap();
    assert_eq!(variables.get("a").unwrap().as_str().unwrap(), "Hello,world");

    // Test escaped equals
    let cli_vars = defs(&["b=You\\=rock"]);
    collect_cli_variables(&mut variables, &cli_vars).unwrap();
    assert_eq!(variables.get("b").unwrap().as_str().unwrap(), "You=rock");

    // Test escaped backslash
    let cli_vars = defs(&["c=path\\\\to\\\\file"]);
    collect_cli_variables(&mut variables, &cli_vars).unwrap();
    assert_eq!(
        variables.get("c").unwrap().as_str().unwrap(),
        "path\\to\\file"
    );

    // Test multiple escaped characters
    let cli_vars = defs(&["d=key\\=value\\,more\\\\data"]);
    collect_cli_variables(&mut variables, &cli_vars).unwrap();
    assert_eq!(
        variables.get("d").unwrap().as_str().unwrap(),
        "key=value,more\\data"
    );

    // Test trailing backslash
    let cli_vars = defs(&["e=path\\\\"]);
    collect_cli_variables(&mut variables, &cli_vars).unwrap();
    assert_eq!(variables.get("e").unwrap().as_str().unwrap(), "path\\");

    // Test the exact example from the requirement
    let cli_vars = defs(&["a=Hello\\,world", "b=You\\=rock"]);
    let mut variables2 = Namespace::new();
    collect_cli_variables(&mut variables2, &cli_vars).unwrap();
    assert_eq!(
        variables2.get("a").unwrap().as_str().unwrap(),
        "Hello,world"
    );
    assert_eq!(variables2.get("b").unwrap().as_str().unwrap(), "You=rock");

    // Test comma-separated variables in a single -D argument
    let cli_vars = defs(&["a=Hello\\,world,b=You\\=rock"]);
    let mut variables3 = Namespace::new();
    collect_cli_variables(&mut variables3, &cli_vars).unwrap();
    assert_eq!(
        variables3.get("a").unwrap().as_str().unwrap(),
        "Hello,world"
    );
    assert_eq!(variables3.get("b").unwrap().as_str().unwrap(), "You=rock");
}

#[test]
fn test_cli_variables_numeric_types() {
    // Test integer
    let mut variables = Namespace::new();
    let cli_vars = defs(&["int_var=42"]);
    collect_cli_variables(&mut variables, &cli_vars).unwrap();
    assert_eq!(variables.get("int_var").unwrap().as_i64().unwrap(), 42);

    // Test negative integer
    let mut variables = Namespace::new();
    let cli_vars = defs(&["neg_int=-10"]);
    collect_cli_variables(&mut variables, &cli_vars).unwrap();
    assert_eq!(variables.get("neg_int").unwrap().as_i64().unwrap(), -10);

    // Test zero
    let mut variables = Namespace::new();
    let cli_vars = defs(&["zero_var=0"]);
    collect_cli_variables(&mut variables, &cli_vars).unwrap();
    assert_eq!(variables.get("zero_var").unwrap().as_i64().unwrap(), 0);

    // Test float
    let mut variables = Namespace::new();
    let cli_vars = defs(&["float_var=3.14"]);
    collect_cli_variables(&mut variables, &cli_vars).unwrap();
    assert_eq!(float_of(variables.get("float_var").unwrap()), 3.14);

    // Test negative float
    let mut variables = Namespace::new();
    let cli_vars = defs(&["neg_float=-2.5"]);
    collect_cli_variables(&mut variables, &cli_vars).unwrap();
    assert_eq!(float_of(variables.get("neg_float").unwrap()), -2.5);

    // Test boolean true
    let mut variables = Namespace::new();
    let cli_vars = defs(&["bool_true=true"]);
    collect_cli_variables(&mut variables, &cli_vars).unwrap();
    assert_eq!(variables.get("bool_true").unwrap().as_bool().unwrap(), true);

    // Test boolean false
    let mut variables = Namespace::new();
    let cli_vars = defs(&["bool_false=false"]);
    collect_cli_variables(&mut variables, &cli_vars).unwrap();
    assert_eq!(
        variables.get("bool_false").unwrap().as_bool().unwrap(),
        false
    );

    // Test string (non-numeric)
    let mut variables = Namespace::new();
    let cli_vars = defs(&["string_var=hello"]);
    collect_cli_variables(&mut variables, &cli_vars).unwrap();
    assert_eq!(
        variables.get("string_var").unwrap().as_str().unwrap(),
        "hello"
    );

    // Test mixed types in one command
    let mut variables2 = Namespace::new();
    let cli_vars = defs(&["int=42,float=1.5,bool=true,text=test"]);
    collect_cli_variables(&mut variables2, &cli_vars).unwrap();
    assert_eq!(variables2.get("int").unwrap().as_i64().unwrap(), 42);
    assert_eq!(float_of(variables2.get("float").unwrap()), 1.5);
    assert_eq!(variables2.get("bool").unwrap().as_bool().unwrap(), true);
    assert_eq!(variables2.get("text").unwrap().as_str().unwrap(), "test");
}

#[test]
fn test_cli_variables_json_arrays_and_objects() {
    // Test JSON array parsing
    let mut variables = Namespace::new();
    let cli_vars = defs(&["items=[1,2,3]"]);
    collect_cli_variables(&mut variables, &cli_vars).unwrap();

    let items_value = variables.get("items").expect("items key not found");
    let vec = items_value.as_array().expect("items is not an array");
    assert_eq!(vec.len(), 3);
    assert_eq!(vec[0].as_i64().unwrap(), 1);
    assert_eq!(vec[1].as_i64().unwrap(), 2);
    assert_eq!(vec[2].as_i64().unwrap(), 3);

    // Test JSON array with strings
    let mut variables2 = Namespace::new();
    let cli_vars = defs(&["items=[\"hello\",\"world\"]"]);
    collect_cli_variables(&mut variables2, &cli_vars).unwrap();

    let items_value = variables2.get("items").expect("items key not found");
    let vec = items_value.as_array().expect("items is not an array");
    assert_eq!(vec.len(), 2);
    assert_eq!(vec[0].as_str().unwrap(), "hello");
    assert_eq!(vec[1].as_str().unwrap(), "world");

    // Test JSON object parsing
    let mut variables3 = Namespace::new();
    let cli_vars = defs(&["obj={\"key\":\"value\"}"]);
    collect_cli_variables(&mut variables3, &cli_vars).unwrap();

    let obj_value = variables3.get("obj").expect("obj key not found");
    assert!(obj_value.as_object().is_some(), "obj is not an object");
    assert_eq!(obj_value.get("key").unwrap().as_str().unwrap(), "value");

    // Test nested JSON structures
    let mut variables4 = Namespace::new();
    let cli_vars = defs(&["data={\"nested\":{\"array\":[1,2,3]}}"]);
    collect_cli_variables(&mut variables4, &cli_vars).unwrap();

    let data_value = variables4.get("data").expect("data key not found");
    assert!(data_value.as_object().is_some(), "data is not an object");
    let nested_value = data_value.get("nested").expect("data.nested key not found");
    assert!(
        nested_value.as_object().is_some(),
        "data.nested is not an object"
    );
    let arr_value = nested_value
        .get("array")
        .expect("nested.array key not found");
    let vec = arr_value.as_array().expect("nested.array is not an array");
    assert_eq!(vec.len(), 3);
    assert_eq!(vec[0].as_i64().unwrap(), 1);

    // Test mixed JSON and regular values in one command
    let mut variables5 = Namespace::new();
    let cli_vars = defs(&["simple=hello,arr=[1,2],obj={\"k\":\"v\"}"]);
    collect_cli_variables(&mut variables5, &cli_vars).unwrap();

    assert_eq!(variables5.get("simple").unwrap().as_str().unwrap(), "hello");

    let arr_value = variables5.get("arr").expect("arr key not found");
    let vec = arr_value.as_array().expect("arr is not an array");
    assert_eq!(vec.len(), 2);

    let obj_value = variables5.get("obj").expect("obj key not found");
    assert!(obj_value.as_object().is_some(), "obj is not an object");
    assert_eq!(obj_value.get("k").unwrap().as_str().unwrap(), "v");

    // Test that commas inside JSON arrays don't split variables
    let mut variables6 = Namespace::new();
    let cli_vars = defs(&["a=1,items=[1,2,3],b=2"]);
    collect_cli_variables(&mut variables6, &cli_vars).unwrap();

    assert_eq!(variables6.get("a").unwrap().as_i64().unwrap(), 1);
    assert_eq!(variables6.get("b").unwrap().as_i64().unwrap(), 2);

    let items_value = variables6.get("items").expect("items key not found");
    let vec = items_value.as_array().expect("items is not an array");
    assert_eq!(vec.len(), 3);
}

#[test]
fn test_cli_variables_escaped_brackets() {
    // Test escaped square brackets in variable values
    let mut variables = Namespace::new();
    let cli_vars = defs(&[r"value=hello\[world\]"]);
    collect_cli_variables(&mut variables, &cli_vars).unwrap();

    assert_eq!(
        variables.get("value").unwrap().as_str().unwrap(),
        "hello[world]"
    );

    // Test mixed escaped characters
    let mut variables2 = Namespace::new();
    let cli_vars = defs(&[r"value=test\[1\]\,more"]);
    collect_cli_variables(&mut variables2, &cli_vars).unwrap();

    assert_eq!(
        variables2.get("value").unwrap().as_str().unwrap(),
        "test[1],more"
    );

    // Test multiple escaped brackets
    let mut variables3 = Namespace::new();
    let cli_vars = defs(&[r"value=\[start\]middle\[end\]"]);
    collect_cli_variables(&mut variables3, &cli_vars).unwrap();

    assert_eq!(
        variables3.get("value").unwrap().as_str().unwrap(),
        "[start]middle[end]"
    );

    // Test escaped brackets don't interfere with JSON arrays
    let mut variables4 = Namespace::new();
    let cli_vars = defs(&[r"arr=[1,2,3],escaped=test\[bracket\]"]);
    collect_cli_variables(&mut variables4, &cli_vars).unwrap();

    let arr_value = variables4.get("arr").expect("arr key not found");
    let vec = arr_value.as_array().expect("arr is not an array");
    assert_eq!(vec.len(), 3);

    assert_eq!(
        variables4.get("escaped").unwrap().as_str().unwrap(),
        "test[bracket]"
    );
}

#[test]
fn test_cli_variables_escaped_curly_brackets() {
    // Test escaped curly brackets in variable values
    let mut variables = Namespace::new();
    let cli_vars = defs(&[r"value=hello\{world\}"]);
    collect_cli_variables(&mut variables, &cli_vars).unwrap();

    assert_eq!(
        variables.get("value").unwrap().as_str().unwrap(),
        "hello{world}"
    );

    // Test mixed escaped characters including curly brackets
    let mut variables2 = Namespace::new();
    let cli_vars = defs(&[r"value=test\{1\}\,more\=data"]);
    collect_cli_variables(&mut variables2, &cli_vars).unwrap();

    assert_eq!(
        variables2.get("value").unwrap().as_str().unwrap(),
        "test{1},more=data"
    );

    // Test multiple escaped curly brackets
    let mut variables3 = Namespace::new();
    let cli_vars = defs(&[r"value=\{start\}middle\{end\}"]);
    collect_cli_variables(&mut variables3, &cli_vars).unwrap();

    assert_eq!(
        variables3.get("value").unwrap().as_str().unwrap(),
        "{start}middle{end}"
    );
}

#[test]
fn test_cli_variables_nested_objects() {
    // Test simple nested object
    let mut variables = Namespace::new();
    let cli_vars = defs(&["foo.bar=42"]);
    collect_cli_variables(&mut variables, &cli_vars).unwrap();

    // Check that foo exists and is an object
    let foo_value = variables.get("foo").expect("foo key not found");
    assert!(foo_value.as_object().is_some());

    // Check that foo.bar equals 42
    let bar_value = foo_value.get("bar").expect("bar key not found in foo object");
    assert_eq!(bar_value.as_i64().unwrap(), 42);

    // Test multiple nested properties in one command: the recursive
    // merge keeps sibling keys, so both end up under foo
    let mut variables2 = Namespace::new();
    let cli_vars = defs(&["foo.bar=42", "foo.baz=true"]);
    collect_cli_variables(&mut variables2, &cli_vars).unwrap();

    let foo_value = variables2.get("foo").expect("foo key not found");
    assert_eq!(foo_value.get("bar").unwrap().as_i64().unwrap(), 42);
    assert!(foo_value.get("baz").unwrap().as_bool().unwrap());

    // Test nested variables separately
    let mut variables2 = Namespace::new();
    let cli_vars = defs(&["foo.bar=42"]);
    collect_cli_variables(&mut variables2, &cli_vars).unwrap();

    let foo_value = variables2.get("foo").expect("foo key not found");
    assert_eq!(
        foo_value.get("bar").expect("bar key not found").as_i64().unwrap(),
        42
    );

    let mut variables3 = Namespace::new();
    let cli_vars = defs(&["foo.baz=true"]);
    collect_cli_variables(&mut variables3, &cli_vars).unwrap();

    let foo_value = variables3.get("foo").expect("foo key not found");
    let baz_value = foo_value.get("baz").expect("baz value not found");
    assert!(baz_value.as_bool().unwrap());

    // Test deeply nested objects
    let mut variables3 = Namespace::new();
    let cli_vars = defs(&["foo.bar.baz.qux=deep_value"]);
    collect_cli_variables(&mut variables3, &cli_vars).unwrap();

    let foo_value = variables3.get("foo").expect("foo key not found");
    let bar_value = foo_value.get("bar").expect("bar key not found");
    let baz_value = bar_value.get("baz").expect("baz key not found");
    let qux_value = baz_value.get("qux").expect("qux key not found");
    assert_eq!(qux_value.as_str().unwrap(), "deep_value");

    // Test merging with existing nested structures: a second dotted
    // write to the same root key preserves the sibling written first
    let mut variables4 = Namespace::new();
    let cli_vars1 = defs(&["foo.bar=first"]);
    collect_cli_variables(&mut variables4, &cli_vars1).unwrap();

    let cli_vars2 = defs(&["foo.baz=second"]);
    collect_cli_variables(&mut variables4, &cli_vars2).unwrap();

    let foo_value = variables4.get("foo").expect("foo key not found");
    assert_eq!(
        foo_value.get("baz").expect("baz key not found").as_str().unwrap(),
        "second"
    );
    assert_eq!(
        foo_value.get("bar").expect("bar key not found").as_str().unwrap(),
        "first"
    );

    // Test mixed nested and non-nested variables
    let mut variables5 = Namespace::new();
    let cli_vars = defs(&["simple=hello,foo.bar=world"]);
    collect_cli_variables(&mut variables5, &cli_vars).unwrap();

    assert_eq!(variables5.get("simple").unwrap().as_str().unwrap(), "hello");

    let foo_value = variables5.get("foo").expect("foo key not found");
    assert_eq!(
        foo_value.get("bar").expect("bar key not found").as_str().unwrap(),
        "world"
    );
}
