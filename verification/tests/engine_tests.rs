use shinkansen::Namespace;
use shinkansen::ShinkansenError;
use shinkansen::TypedValue;
use shinkansen::split_unescaped;
use shinkansen::string_to_typed_value;
use shinkansen::unescape_value;
use shinkansen::processing::validate_path;
use shinkansen::rendering::validate_template_content;
use shinkansen::variables::collect_cli_variables;
use shinkansen::variables::collect_config_variables;
use shinkansen::variables::split_env_names;

#[test]
fn test_tokenizer_plain_commas() {
    let pieces = split_unescaped("a=1,b=2,c=3", ',');
    assert_eq!(pieces, vec!["a=1", "b=2", "c=3"]);
}

#[test]
fn test_tokenizer_trailing_remainder() {
    // The trailing remainder is always emitted, even empty
    assert_eq!(split_unescaped("a=1,", ','), vec!["a=1", ""]);
    assert_eq!(split_unescaped("", ','), vec![""]);
    assert_eq!(split_unescaped("plain", ','), vec!["plain"]);
}

#[test]
fn test_tokenizer_brackets_protect_commas() {
    let pieces = split_unescaped("a=1,items=[1,2,3],b=2", ',');
    assert_eq!(pieces, vec!["a=1", "items=[1,2,3]", "b=2"]);

    let pieces = split_unescaped("obj={\"a\":1,\"b\":2},x=3", ',');
    assert_eq!(pieces, vec!["obj={\"a\":1,\"b\":2}", "x=3"]);
}

#[test]
fn test_tokenizer_escaped_commas() {
    let pieces = split_unescaped("a=Hello\\,world", ',');
    assert_eq!(pieces, vec!["a=Hello\\,world"]);
}

#[test]
fn test_tokenizer_excess_closers_saturate() {
    // Unbalanced closers never fail; depth saturates at zero and the
    // comma after them still splits
    let pieces = split_unescaped("a=]],b=2", ',');
    assert_eq!(pieces, vec!["a=]]", "b=2"]);
}

#[test]
fn test_unescape_known_sequences() {
    assert_eq!(unescape_value("\\\\"), "\\");
    assert_eq!(unescape_value("\\,"), ",");
    assert_eq!(unescape_value("\\="), "=");
    assert_eq!(unescape_value("\\[x\\]"), "[x]");
    assert_eq!(unescape_value("\\{x\\}"), "{x}");
}

#[test]
fn test_unescape_bracketed_value() {
    assert_eq!(unescape_value("\\[start\\]middle\\[end\\]"), "[start]middle[end]");
}

#[test]
fn test_unescape_unknown_sequence_kept() {
    // An unrecognized escape keeps the backslash and the character
    assert_eq!(unescape_value("\\n"), "\\n");
    assert_eq!(unescape_value("a\\qb"), "a\\qb");
}

#[test]
fn test_unescape_trailing_backslash_kept() {
    assert_eq!(unescape_value("path\\"), "path\\");
}

#[test]
fn test_coercion_ordered_attempts() {
    // Float text
    let v = string_to_typed_value("3.14");
    assert_eq!(v.float_text().unwrap().parse::<f64>().unwrap(), 3.14);

    // Boolean literal
    assert_eq!(string_to_typed_value("true").as_bool().unwrap(), true);
    assert_eq!(string_to_typed_value("false").as_bool().unwrap(), false);

    // Integer
    assert_eq!(string_to_typed_value("42").as_i64().unwrap(), 42);

    // Plain string fallback
    assert_eq!(string_to_typed_value("hello").as_str().unwrap(), "hello");

    // JSON array
    let v = string_to_typed_value("[1,2]");
    let items = v.as_array().unwrap();
    assert_eq!(items.len(), 2);
    assert_eq!(items[0].as_i64().unwrap(), 1);
    assert_eq!(items[1].as_i64().unwrap(), 2);
}

#[test]
fn test_coercion_json_first() {
    // A JSON object wins over the string fallback
    let v = string_to_typed_value("{\"debug\":true,\"port\":8080}");
    assert_eq!(v.get("debug").unwrap().as_bool().unwrap(), true);
    assert_eq!(v.get("port").unwrap().as_i64().unwrap(), 8080);

    // null is JSON
    assert!(string_to_typed_value("null").is_null());
}

#[test]
fn test_coercion_integer_range() {
    assert_eq!(
        string_to_typed_value("9223372036854775807").as_i64().unwrap(),
        i64::MAX
    );
    assert_eq!(
        string_to_typed_value("-9223372036854775808").as_i64().unwrap(),
        i64::MIN
    );
    // Leading zeros are no JSON number, but still a plain integer
    assert_eq!(string_to_typed_value("007").as_i64().unwrap(), 7);
    // An integer beyond the signed range falls through to the float step
    let v = string_to_typed_value("9223372036854775808");
    assert!(v.float_text().is_some());
}

#[test]
fn test_coercion_float_spellings() {
    // Spellings the JSON grammar rejects still parse as finite floats
    assert_eq!(
        string_to_typed_value("+42").float_text().unwrap().parse::<f64>().unwrap(),
        42.0
    );
    assert_eq!(
        string_to_typed_value("3.").float_text().unwrap().parse::<f64>().unwrap(),
        3.0
    );
    assert_eq!(
        string_to_typed_value(".5").float_text().unwrap().parse::<f64>().unwrap(),
        0.5
    );
    assert_eq!(
        string_to_typed_value("+1e308").float_text().unwrap().parse::<f64>().unwrap(),
        1e308
    );
}

#[test]
fn test_coercion_non_finite_is_string() {
    // Values that would not be finite fall through to plain strings
    assert_eq!(string_to_typed_value("inf").as_str().unwrap(), "inf");
    assert_eq!(string_to_typed_value("NaN").as_str().unwrap(), "NaN");
    assert_eq!(string_to_typed_value("+2e308").as_str().unwrap(), "+2e308");
    assert_eq!(string_to_typed_value("1e999").as_str().unwrap(), "1e999");
}

#[test]
fn test_coercion_overflow_boundary() {
    // The largest finite 64-bit float is still accepted
    let v = string_to_typed_value("+1.7976931348623157e308");
    assert!(v.float_text().unwrap().parse::<f64>().unwrap().is_finite());
    // Just above the rounding midpoint overflows to a plain string
    assert_eq!(
        string_to_typed_value("+1.8e308").as_str().unwrap(),
        "+1.8e308"
    );
    // A zero mantissa is zero whatever the exponent
    assert_eq!(
        string_to_typed_value("+0e99999").float_text().unwrap(),
        "+0e99999"
    );
}

#[test]
fn test_token_without_separator_fails() {
    let mut variables = Namespace::new();
    let result = collect_cli_variables(&mut variables, &vec!["novaluehere".to_string()]);
    assert!(result.is_err());
    match result.unwrap_err() {
        ShinkansenError::VariableParseError(msg) => {
            assert!(msg.contains("novaluehere"));
        }
        _ => panic!("expected a VariableParseError"),
    }
}

#[test]
fn test_token_empty_key_fails() {
    let mut variables = Namespace::new();
    let result = collect_cli_variables(&mut variables, &vec!["=value".to_string()]);
    assert!(matches!(
        result,
        Err(ShinkansenError::VariableParseError(_))
    ));
}

#[test]
fn test_token_empty_value_fails() {
    let mut variables = Namespace::new();
    let result = collect_cli_variables(&mut variables, &vec!["key=".to_string()]);
    assert!(matches!(
        result,
        Err(ShinkansenError::VariableParseError(_))
    ));
}

#[test]
fn test_escaped_separator_not_a_separator() {
    // The first unescaped = separates; an escaped one does not
    let mut variables = Namespace::new();
    collect_cli_variables(&mut variables, &vec!["a\\=b=c".to_string()]).unwrap();
    assert!(variables.get("a\\=b").is_some());
}

#[test]
fn test_nested_root_replaced_when_not_object() {
    // A dotted write replaces a non-object binding at the root outright
    let mut variables = Namespace::new();
    collect_cli_variables(&mut variables, &vec!["foo=1".to_string()]).unwrap();
    collect_cli_variables(&mut variables, &vec!["foo.bar=2".to_string()]).unwrap();
    let foo = variables.get("foo").unwrap();
    assert_eq!(foo.get("bar").unwrap().as_i64().unwrap(), 2);
}

#[test]
fn test_flat_write_replaces_nested() {
    let mut variables = Namespace::new();
    collect_cli_variables(&mut variables, &vec!["foo.bar=2".to_string()]).unwrap();
    collect_cli_variables(&mut variables, &vec!["foo=1".to_string()]).unwrap();
    assert_eq!(variables.get("foo").unwrap().as_i64().unwrap(), 1);
}

#[test]
fn test_later_insertions_win() {
    let mut variables = Namespace::new();
    collect_cli_variables(&mut variables, &vec!["a=1,a=2".to_string()]).unwrap();
    assert_eq!(variables.get("a").unwrap().as_i64().unwrap(), 2);
}

#[test]
fn test_split_env_names_trims() {
    assert_eq!(split_env_names("A, B ,C"), vec!["A", "B", "C"]);
    assert_eq!(split_env_names("ONE"), vec!["ONE"]);
}

#[test]
fn test_namespace_len_counts_keys() {
    let mut variables = Namespace::new();
    assert!(variables.is_empty());
    collect_cli_variables(&mut variables, &vec!["a=1,b=2,a=3".to_string()]).unwrap();
    assert_eq!(variables.len(), 2);
    assert!(!variables.is_empty());
}

#[test]
fn test_template_content_size_limit() {
    assert!(validate_template_content("{{ name }}").is_ok());
    let big = "x".repeat(1048577);
    let result = validate_template_content(&big);
    assert!(matches!(
        result,
        Err(ShinkansenError::ValidationError(_))
    ));
}

#[test]
fn test_validate_path_rejections() {
    assert!(validate_path("plain/file.txt").is_ok());
    assert!(matches!(
        validate_path("../secret"),
        Err(ShinkansenError::SecurityError(_))
    ));
    assert!(matches!(
        validate_path("a/../b"),
        Err(ShinkansenError::SecurityError(_))
    ));
    assert!(matches!(
        validate_path("bad\u{7}name"),
        Err(ShinkansenError::SecurityError(_))
    ));
    let long = "x".repeat(4097);
    assert!(matches!(
        validate_path(&long),
        Err(ShinkansenError::ValidationError(_))
    ));
}

#[test]
fn test_config_yaml_and_toml_values_decoded() {
    let mut variables = Namespace::new();
    collect_config_variables(&mut variables, "count: 3\nname: yaml_value\n", "yaml").unwrap();
    assert_eq!(variables.get("count").unwrap().as_i64().unwrap(), 3);
    assert_eq!(
        variables.get("name").unwrap().as_str().unwrap(),
        "yaml_value"
    );

    let mut variables = Namespace::new();
    collect_config_variables(&mut variables, "count = 4\nname = 'toml_value'\n", "toml").unwrap();
    assert_eq!(variables.get("count").unwrap().as_i64().unwrap(), 4);
    assert_eq!(
        variables.get("name").unwrap().as_str().unwrap(),
        "toml_value"
    );
}

#[test]
fn test_config_float_becomes_decimal_text() {
    let mut variables = Namespace::new();
    collect_config_variables(&mut variables, "{\"pi\": 3.25}", "json").unwrap();
    let pi = variables.get("pi").unwrap();
    assert_eq!(pi.float_text().unwrap().parse::<f64>().unwrap(), 3.25);
}

#[test]
fn test_config_keys_not_path_interpreted() {
    // Dots in config keys are not dotted paths
    let mut variables = Namespace::new();
    collect_config_variables(&mut variables, "{\"a.b\": 1}", "json").unwrap();
    assert_eq!(variables.get("a.b").unwrap().as_i64().unwrap(), 1);
    assert!(variables.get("a").is_none());
}

#[test]
fn test_typed_value_accessors_disjoint() {
    let v = string_to_typed_value("42");
    assert!(v.as_str().is_none());
    assert!(v.as_bool().is_none());
    assert!(v.as_array().is_none());
    assert!(v.as_object().is_none());
    assert!(v.float_text().is_none());
    assert!(!v.is_null());
    assert_eq!(v.as_i64().unwrap(), 42);
}

#[test]
fn test_failed_definitions_leave_namespace_unchanged() {
    // A malformed token aborts the whole pass: the pairs before it are
    // not kept
    let mut variables = Namespace::new();
    let result = collect_cli_variables(&mut variables, &vec!["k=v,novaluehere".to_string()]);
    assert!(result.is_err());
    assert!(variables.get("k").is_none());
    assert!(variables.is_empty());

    // An earlier, successful pass survives; a later failing one
    // changes nothing
    collect_cli_variables(&mut variables, &vec!["kept=1".to_string()]).unwrap();
    let result = collect_cli_variables(&mut variables, &vec!["x=2,bad".to_string()]);
    assert!(result.is_err());
    assert_eq!(variables.get("kept").unwrap().as_i64().unwrap(), 1);
    assert!(variables.get("x").is_none());
    assert_eq!(variables.len(), 1);
}

#[test]
fn test_failed_definitions_abort_collection() {
    // The same fail-fast behavior through the assembler: the first
    // error aborts and no namespace is returned
    let result = shinkansen::variables::collect_variables(
        &None,
        &None,
        &vec!["a=1".to_string(), "broken".to_string()],
    );
    assert!(matches!(result, Err(ShinkansenError::VariableParseError(_))));
}
