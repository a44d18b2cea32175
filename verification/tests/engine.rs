use jsonschema_engine::compile::compile;
use jsonschema_engine::is_valid_schema;
use jsonschema_engine::num::Num;
use jsonschema_engine::validation_errors;
use jsonschema_engine::value::Value;

fn st(x: &str) -> Value {
    Value::Str(x.to_string())
}

fn num(mant: i64, exp: i32) -> Value {
    Value::Number(Num { mant, exp })
}

fn whole(n: i64) -> Value {
    num(n, 0)
}

fn obj(pairs: Vec<(&str, Value)>) -> Value {
    Value::Object(pairs.into_iter().map(|(k, v)| (k.to_string(), v)).collect())
}

fn arr(items: Vec<Value>) -> Value {
    Value::Array(items)
}

#[test]
fn max_length_matches() {
    let schema = obj(vec![("maxLength", whole(5))]);
    assert!(jsonschema_engine::matches(&schema, &st("foo")));
    assert!(!jsonschema_engine::matches(&schema, &st("foobar")));
}

#[test]
fn max_length_message() {
    let schema = obj(vec![("maxLength", whole(4))]);
    let errs = validation_errors(&schema, &st("123456789"));
    assert_eq!(errs.len(), 1);
    assert_eq!(errs[0], "\"123456789\" is longer than 4 characters");
}

#[test]
fn max_length_no_errors() {
    let schema = obj(vec![("maxLength", whole(4))]);
    let errs = validation_errors(&schema, &st("foo"));
    assert!(errs.is_empty());
}

#[test]
fn min_length() {
    let schema = obj(vec![("minLength", whole(2))]);
    assert!(!jsonschema_engine::matches(&schema, &st("a")));
    assert!(jsonschema_engine::matches(&schema, &st("ab")));
}

#[test]
fn type_object() {
    let schema = obj(vec![("type", st("object"))]);
    assert!(jsonschema_engine::matches(&schema, &obj(vec![])));
    assert!(!jsonschema_engine::matches(&schema, &whole(1)));
}

#[test]
fn type_integer_accepts_whole_decimal() {
    let schema = obj(vec![("type", st("integer"))]);
    assert!(jsonschema_engine::matches(&schema, &num(10, -1)));
    assert!(!jsonschema_engine::matches(&schema, &num(15, -1)));
}

#[test]
fn type_list() {
    let schema = obj(vec![("type", arr(vec![st("string"), st("null")]))]);
    assert!(jsonschema_engine::matches(&schema, &st("x")));
    assert!(jsonschema_engine::matches(&schema, &Value::Null));
    assert!(!jsonschema_engine::matches(&schema, &whole(3)));
}

#[test]
fn schema_is_valid() {
    assert!(is_valid_schema(&obj(vec![("type", st("object"))])));
}

#[test]
fn schema_is_not_valid() {
    assert!(!is_valid_schema(&obj(vec![("type", st("obj"))])));
}

#[test]
fn schema_unknown_dialect() {
    let schema = obj(vec![("$schema", st("invalid-uri")), ("type", st("string"))]);
    assert!(!is_valid_schema(&schema));
    assert!(!jsonschema_engine::matches(&schema, &st("x")));
}

#[test]
fn schema_known_dialect() {
    let schema = obj(vec![
        ("$schema", st("https://json-schema.org/draft/2020-12/schema")),
        ("type", st("string")),
    ]);
    assert!(is_valid_schema(&schema));
    assert!(jsonschema_engine::matches(&schema, &st("x")));
}

#[test]
fn schema_meta_rejections() {
    assert!(!is_valid_schema(&obj(vec![("type", whole(5))])));
    assert!(!is_valid_schema(&obj(vec![("multipleOf", whole(0))])));
    assert!(!is_valid_schema(&obj(vec![("minLength", whole(-1))])));
    assert!(!is_valid_schema(&obj(vec![("pattern", st("("))])));
    assert!(!is_valid_schema(&obj(vec![("required", arr(vec![whole(1)]))])));
    assert!(!is_valid_schema(&obj(vec![("allOf", arr(vec![]))])));
    assert!(!is_valid_schema(&whole(5)));
    let nested = obj(vec![("properties", obj(vec![("a", obj(vec![("type", st("obj"))]))]))]);
    assert!(!is_valid_schema(&nested));
}

#[test]
fn compile_failure_reports_single_message() {
    let schema = obj(vec![("type", st("obj"))]);
    let errs = validation_errors(&schema, &whole(1));
    assert_eq!(errs.len(), 1);
    assert_eq!(errs[0], "invalid schema: bad value for keyword \"type\"");
}

#[test]
fn multiple_errors_in_schema_order() {
    let props = obj(vec![
        ("foo", obj(vec![("type", st("string"))])),
        ("bar", obj(vec![("type", st("number"))])),
        ("baz", obj(vec![("type", st("boolean"))])),
    ]);
    let schema = obj(vec![("type", st("object")), ("properties", props)]);
    let instance = obj(vec![("foo", whole(1)), ("bar", arr(vec![])), ("baz", st("1"))]);
    let errs = validation_errors(&schema, &instance);
    assert_eq!(errs.len(), 3);
    assert_eq!(errs[0], "1 is not of type \"string\"");
    assert_eq!(errs[1], "[] is not of type \"number\"");
    assert_eq!(errs[2], "\"1\" is not of type \"boolean\"");
}

#[test]
fn error_paths() {
    let schema = obj(vec![
        ("type", st("object")),
        ("properties", obj(vec![("foo", obj(vec![("type", st("string"))]))])),
    ]);
    let instance = obj(vec![("foo", whole(1))]);
    let cv = compile(&schema).ok().unwrap();
    let errs = cv.errors(&instance);
    assert_eq!(errs.len(), 1);
    assert_eq!(errs[0].instance_path_string(), "/foo");
    assert_eq!(errs[0].schema_path_string(), "/properties/foo/type");
    assert_eq!(errs[0].keyword, "type");
}

#[test]
fn error_path_escaping() {
    let schema = obj(vec![("properties", obj(vec![("a/b", obj(vec![("type", st("number"))]))]))]);
    let instance = obj(vec![("a/b", st("x"))]);
    let cv = compile(&schema).ok().unwrap();
    let errs = cv.errors(&instance);
    assert_eq!(errs.len(), 1);
    assert_eq!(errs[0].instance_path_string(), "/a~1b");
}

#[test]
fn one_of_requires_exactly_one() {
    let schema = obj(vec![(
        "oneOf",
        arr(vec![obj(vec![("type", st("string"))]), obj(vec![("minLength", whole(0))])]),
    )]);
    assert!(!jsonschema_engine::matches(&schema, &st("x")));
    assert!(jsonschema_engine::matches(&schema, &whole(1)));
}

#[test]
fn multiple_of_exact_decimals() {
    let schema = obj(vec![("multipleOf", num(1, -2))]);
    assert!(jsonschema_engine::matches(&schema, &num(3, -1)));
    let schema2 = obj(vec![("multipleOf", num(2, -1))]);
    assert!(!jsonschema_engine::matches(&schema2, &num(3, -1)));
    let schema3 = obj(vec![("multipleOf", num(1, -1))]);
    assert!(jsonschema_engine::matches(&schema3, &num(3, -1)));
}

#[test]
fn multiple_of_wide_exponents() {
    let schema = obj(vec![("multipleOf", num(1, -9))]);
    assert!(jsonschema_engine::matches(&schema, &num(1, 9)));
    let schema2 = obj(vec![("multipleOf", num(3, 0))]);
    assert!(!jsonschema_engine::matches(&schema2, &num(1, 9)));
}

#[test]
fn self_referential_schema_terminates() {
    let schema = obj(vec![("$ref", st("#"))]);
    assert!(compile(&schema).is_ok());
    assert!(!jsonschema_engine::matches(&schema, &whole(1)));
    let errs = validation_errors(&schema, &whole(1));
    assert_eq!(errs.len(), 1);
    assert_eq!(errs[0], "the validation depth limit was exceeded");
}

#[test]
fn recursive_schema_on_nested_instance() {
    let schema = obj(vec![
        ("properties", obj(vec![("next", obj(vec![("$ref", st("#"))]))])),
        ("additionalProperties", Value::Bool(false)),
    ]);
    let good = obj(vec![("next", obj(vec![("next", obj(vec![]))]))]);
    assert!(jsonschema_engine::matches(&schema, &good));
    let bad = obj(vec![("next", obj(vec![("bad", whole(1))]))]);
    assert!(!jsonschema_engine::matches(&schema, &bad));
    let cv = compile(&schema).ok().unwrap();
    let errs = cv.errors(&bad);
    assert_eq!(errs.len(), 1);
    assert_eq!(errs[0].instance_path_string(), "/next/bad");
}

#[test]
fn compile_twice_same_verdicts() {
    let schema = obj(vec![("type", st("object")), ("required", arr(vec![st("a")]))]);
    let cv1 = compile(&schema).ok().unwrap();
    let cv2 = compile(&schema).ok().unwrap();
    let cases = vec![obj(vec![("a", whole(1))]), obj(vec![]), whole(3), st("x")];
    for c in &cases {
        assert_eq!(cv1.is_valid(c), cv2.is_valid(c));
        assert_eq!(cv1.errors(c).len(), cv2.errors(c).len());
    }
}

#[test]
fn enum_uses_numeric_equality() {
    let schema = obj(vec![("enum", arr(vec![num(10, -1), st("a")]))]);
    assert!(jsonschema_engine::matches(&schema, &whole(1)));
    assert!(jsonschema_engine::matches(&schema, &st("a")));
    assert!(!jsonschema_engine::matches(&schema, &whole(2)));
}

#[test]
fn const_object_ignores_member_order() {
    let schema = obj(vec![("const", obj(vec![("a", whole(1)), ("b", whole(2))]))]);
    let reordered = obj(vec![("b", whole(2)), ("a", whole(1))]);
    assert!(jsonschema_engine::matches(&schema, &reordered));
    assert!(!jsonschema_engine::matches(&schema, &obj(vec![("a", whole(1))])));
}

#[test]
fn numeric_bounds() {
    let schema = obj(vec![("minimum", whole(5))]);
    assert!(jsonschema_engine::matches(&schema, &whole(5)));
    assert!(!jsonschema_engine::matches(&schema, &num(499, -2)));
    let schema2 = obj(vec![("maximum", whole(5))]);
    assert!(jsonschema_engine::matches(&schema2, &whole(5)));
    assert!(!jsonschema_engine::matches(&schema2, &num(51, -1)));
}

#[test]
fn exclusive_bounds() {
    let schema = obj(vec![("exclusiveMinimum", whole(5))]);
    assert!(!jsonschema_engine::matches(&schema, &whole(5)));
    assert!(jsonschema_engine::matches(&schema, &num(51, -1)));
    let schema2 = obj(vec![("exclusiveMaximum", whole(5))]);
    assert!(!jsonschema_engine::matches(&schema2, &whole(5)));
    assert!(jsonschema_engine::matches(&schema2, &num(499, -2)));
}

#[test]
fn bound_messages() {
    let schema = obj(vec![("minimum", num(5, 0))]);
    let errs = validation_errors(&schema, &whole(4));
    assert_eq!(errs.len(), 1);
    assert_eq!(errs[0], "4 is less than the minimum of 5");
    let schema2 = obj(vec![("multipleOf", num(1, -2))]);
    let errs2 = validation_errors(&schema2, &num(305, -3));
    assert_eq!(errs2.len(), 1);
    assert_eq!(errs2[0], "0.305 is not a multiple of 0.01");
}

#[test]
fn pattern_keyword() {
    let schema = obj(vec![("pattern", st("^a+b$"))]);
    assert!(jsonschema_engine::matches(&schema, &st("aab")));
    assert!(!jsonschema_engine::matches(&schema, &st("ba")));
    let errs = validation_errors(&schema, &st("ba"));
    assert_eq!(errs.len(), 1);
    assert_eq!(errs[0], "\"ba\" does not match pattern \"^a+b$\"");
}

#[test]
fn pattern_is_a_search() {
    let schema = obj(vec![("pattern", st("b"))]);
    assert!(jsonschema_engine::matches(&schema, &st("abc")));
}

#[test]
fn pattern_properties() {
    let schema = obj(vec![(
        "patternProperties",
        obj(vec![("^x", obj(vec![("type", st("number"))]))]),
    )]);
    assert!(jsonschema_engine::matches(&schema, &obj(vec![("xa", whole(1)), ("y", st("s"))])));
    assert!(!jsonschema_engine::matches(&schema, &obj(vec![("xa", st("s"))])));
}

#[test]
fn additional_properties() {
    let schema = obj(vec![
        ("properties", obj(vec![("a", obj(vec![]))])),
        ("additionalProperties", Value::Bool(false)),
    ]);
    assert!(jsonschema_engine::matches(&schema, &obj(vec![("a", whole(1))])));
    assert!(!jsonschema_engine::matches(&schema, &obj(vec![("a", whole(1)), ("b", whole(2))])));
}

#[test]
fn required_properties() {
    let schema = obj(vec![("required", arr(vec![st("a")]))]);
    assert!(!jsonschema_engine::matches(&schema, &obj(vec![])));
    assert!(jsonschema_engine::matches(&schema, &obj(vec![("a", whole(1))])));
    let errs = validation_errors(&schema, &obj(vec![]));
    assert_eq!(errs.len(), 1);
    assert_eq!(errs[0], "\"a\" is a required property");
}

#[test]
fn dependent_required() {
    let schema = obj(vec![("dependentRequired", obj(vec![("a", arr(vec![st("b")]))]))]);
    assert!(jsonschema_engine::matches(&schema, &obj(vec![])));
    assert!(!jsonschema_engine::matches(&schema, &obj(vec![("a", whole(1))])));
    assert!(jsonschema_engine::matches(&schema, &obj(vec![("a", whole(1)), ("b", whole(2))])));
}

#[test]
fn unique_items_numeric() {
    let schema = obj(vec![("uniqueItems", Value::Bool(true))]);
    assert!(!jsonschema_engine::matches(&schema, &arr(vec![whole(1), num(10, -1)])));
    assert!(jsonschema_engine::matches(&schema, &arr(vec![whole(1), whole(2)])));
}

#[test]
fn contains_keyword() {
    let schema = obj(vec![("contains", obj(vec![("type", st("string"))]))]);
    assert!(jsonschema_engine::matches(&schema, &arr(vec![whole(1), st("x")])));
    assert!(!jsonschema_engine::matches(&schema, &arr(vec![whole(1), whole(2)])));
}

#[test]
fn items_keyword() {
    let schema = obj(vec![("items", obj(vec![("type", st("number"))]))]);
    assert!(jsonschema_engine::matches(&schema, &arr(vec![whole(1), whole(2)])));
    assert!(!jsonschema_engine::matches(&schema, &arr(vec![whole(1), st("x")])));
    let cv = compile(&schema).ok().unwrap();
    let bad = arr(vec![whole(1), st("x")]);
    let errs = cv.errors(&bad);
    assert_eq!(errs.len(), 1);
    assert_eq!(errs[0].instance_path_string(), "/1");
}

#[test]
fn combinators() {
    let all = obj(vec![(
        "allOf",
        arr(vec![obj(vec![("type", st("number"))]), obj(vec![("minimum", whole(3))])]),
    )]);
    assert!(jsonschema_engine::matches(&all, &whole(4)));
    assert!(!jsonschema_engine::matches(&all, &whole(2)));
    let any = obj(vec![(
        "anyOf",
        arr(vec![obj(vec![("type", st("string"))]), obj(vec![("minimum", whole(3))])]),
    )]);
    assert!(jsonschema_engine::matches(&any, &st("x")));
    assert!(jsonschema_engine::matches(&any, &whole(5)));
    assert!(!jsonschema_engine::matches(&any, &whole(1)));
    let not = obj(vec![("not", obj(vec![("type", st("string"))]))]);
    assert!(!jsonschema_engine::matches(&not, &st("x")));
    assert!(jsonschema_engine::matches(&not, &whole(1)));
}

#[test]
fn if_then_else() {
    let schema = obj(vec![
        ("if", obj(vec![("type", st("string"))])),
        ("then", obj(vec![("minLength", whole(2))])),
        ("else", obj(vec![("minimum", whole(0))])),
    ]);
    assert!(!jsonschema_engine::matches(&schema, &st("a")));
    assert!(jsonschema_engine::matches(&schema, &st("ab")));
    assert!(jsonschema_engine::matches(&schema, &whole(1)));
    assert!(!jsonschema_engine::matches(&schema, &whole(-1)));
}

#[test]
fn refs_into_defs() {
    let schema = obj(vec![
        ("$defs", obj(vec![("s", obj(vec![("type", st("string"))]))])),
        ("$ref", st("#/$defs/s")),
    ]);
    assert!(jsonschema_engine::matches(&schema, &st("x")));
    assert!(!jsonschema_engine::matches(&schema, &whole(1)));
}

#[test]
fn unresolved_ref_is_a_compile_error() {
    let schema = obj(vec![("$ref", st("#/nope"))]);
    assert!(compile(&schema).is_err());
    assert!(!jsonschema_engine::matches(&schema, &whole(1)));
    let errs = validation_errors(&schema, &whole(1));
    assert_eq!(errs.len(), 1);
    assert_eq!(errs[0], "the reference \"#/nope\" cannot be resolved");
}

#[test]
fn boolean_schemas() {
    assert!(jsonschema_engine::matches(&Value::Bool(true), &whole(1)));
    assert!(!jsonschema_engine::matches(&Value::Bool(false), &whole(1)));
    let errs = validation_errors(&Value::Bool(false), &whole(1));
    assert_eq!(errs.len(), 1);
    assert_eq!(errs[0], "False schema does not allow 1");
}

#[test]
fn unknown_keywords_are_ignored() {
    let schema = obj(vec![("frobnicate", whole(3)), ("type", st("string"))]);
    assert!(is_valid_schema(&schema));
    assert!(jsonschema_engine::matches(&schema, &st("x")));
    assert!(!jsonschema_engine::matches(&schema, &whole(1)));
}

#[test]
fn number_rendering_in_messages() {
    let schema = obj(vec![("maximum", num(25, -1))]);
    let errs = validation_errors(&schema, &num(31, -1));
    assert_eq!(errs.len(), 1);
    assert_eq!(errs[0], "3.1 is greater than the maximum of 2.5");
    let schema2 = obj(vec![("minimum", num(25, -1))]);
    let errs2 = validation_errors(&schema2, &num(-31, -1));
    assert_eq!(errs2.len(), 1);
    assert_eq!(errs2[0], "-3.1 is less than the minimum of 2.5");
}

#[test]
fn value_rendering() {
    let v = obj(vec![
        ("a", arr(vec![whole(1), num(-25, -1), Value::Null])),
        ("b", st("x\"y")),
    ]);
    let s = jsonschema_engine::render::value_string(&v);
    assert_eq!(s, "{\"a\":[1,-2.5,null],\"b\":\"x\\\"y\"}");
}

#[test]
fn compile_error_kinds() {
    let bad_dialect = obj(vec![("$schema", st("invalid-uri"))]);
    let e = compile(&bad_dialect).err().unwrap();
    assert!(matches!(e.kind, jsonschema_engine::compile::CompileErrorKind::UnknownDialect));
    let bad_shape = obj(vec![("type", st("obj"))]);
    let e2 = compile(&bad_shape).err().unwrap();
    assert!(matches!(e2.kind, jsonschema_engine::compile::CompileErrorKind::InvalidSchema));
    assert_eq!(e2.keyword, "type");
    assert_eq!(e2.schema_path_string(), "/type");
    let bad_ref = obj(vec![("$ref", st("#/nope"))]);
    let e3 = compile(&bad_ref).err().unwrap();
    assert!(matches!(e3.kind, jsonschema_engine::compile::CompileErrorKind::UnresolvedReference));
}

#[test]
fn format_is_an_annotation() {
    let schema = obj(vec![("format", st("email")), ("type", st("string"))]);
    assert!(is_valid_schema(&schema));
    assert!(jsonschema_engine::matches(&schema, &st("not an email")));
}

#[test]
fn verdict_agrees_with_report() {
    let schemas = vec![
        obj(vec![("type", st("object"))]),
        obj(vec![("minimum", num(25, -1))]),
        obj(vec![("oneOf", arr(vec![obj(vec![("type", st("string"))]), obj(vec![("minLength", whole(0))])]))]),
        Value::Bool(false),
    ];
    let instances = vec![obj(vec![]), whole(3), st("x"), Value::Null, arr(vec![whole(1)])];
    for s in &schemas {
        for i in &instances {
            let verdict = jsonschema_engine::matches(s, i);
            let report = validation_errors(s, i);
            assert_eq!(verdict, report.is_empty());
        }
    }
}

#[test]
fn refs_with_escaped_tokens() {
    let schema = obj(vec![
        ("$defs", obj(vec![("a/b", obj(vec![("type", st("number"))]))])),
        ("$ref", st("#/$defs/a~1b")),
    ]);
    assert!(jsonschema_engine::matches(&schema, &whole(1)));
    assert!(!jsonschema_engine::matches(&schema, &st("x")));
}

#[test]
fn refs_into_arrays() {
    let schema = obj(vec![
        ("anyOf", arr(vec![obj(vec![("type", st("number"))]), Value::Bool(true)])),
        ("not", obj(vec![("$ref", st("#/anyOf/0"))])),
    ]);
    assert!(jsonschema_engine::matches(&schema, &st("x")));
    assert!(!jsonschema_engine::matches(&schema, &whole(1)));
}

#[test]
fn deep_nesting_within_budget() {
    let mut inst = whole(1);
    for _ in 0..50 {
        inst = obj(vec![("next", inst)]);
    }
    let schema = obj(vec![("properties", obj(vec![("next", obj(vec![("$ref", st("#"))]))]))]);
    assert!(jsonschema_engine::matches(&schema, &inst));
}

#[test]
fn numeric_keywords_ignore_other_types() {
    let schema = obj(vec![("minimum", whole(5)), ("maxLength", whole(2))]);
    assert!(jsonschema_engine::matches(&schema, &Value::Null));
    assert!(jsonschema_engine::matches(&schema, &st("ab")));
    assert!(!jsonschema_engine::matches(&schema, &st("abc")));
    assert!(!jsonschema_engine::matches(&schema, &whole(4)));
}

#[test]
fn pattern_matched_members_are_not_additional() {
    let schema = obj(vec![
        ("patternProperties", obj(vec![("^x", obj(vec![]))])),
        ("additionalProperties", Value::Bool(false)),
    ]);
    assert!(jsonschema_engine::matches(&schema, &obj(vec![("xa", whole(1))])));
    assert!(!jsonschema_engine::matches(&schema, &obj(vec![("ya", whole(1))])));
}

#[test]
fn unique_items_false_checks_nothing() {
    let schema = obj(vec![("uniqueItems", Value::Bool(false))]);
    assert!(jsonschema_engine::matches(&schema, &arr(vec![whole(1), whole(1)])));
}
