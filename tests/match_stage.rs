use mongo_sql::{match_stage, Number, Operator, ToSqlError, Value};

fn text(s: &str) -> Value {
    Value::String(s.to_string())
}

fn num(n: u64) -> Value {
    Value::Number(Number::PosInt(n))
}

fn obj(entries: Vec<(&str, Value)>) -> Value {
    Value::Object(entries.into_iter().map(|(k, v)| (k.to_string(), v)).collect())
}

fn field_op(field: &str, op: &str, operand: Value) -> Value {
    obj(vec![(field, obj(vec![(op, operand)]))])
}

#[test]
fn test_match_stage_with_gte() {
    let stage = field_op("age", "$gte", num(21));
    let sql = match_stage(&stage).unwrap();
    assert_eq!(sql, "age >= 21");
}

#[test]
fn test_match_stage_with_gt() {
    let stage = field_op("age", "$gt", num(21));
    let sql = match_stage(&stage).unwrap();
    assert_eq!(sql, "age > 21");
}

#[test]
fn test_match_stage_with_lte() {
    let stage = field_op("age", "$lte", num(21));
    let sql = match_stage(&stage).unwrap();
    assert_eq!(sql, "age <= 21");
}

#[test]
fn test_match_stage_with_lt() {
    let stage = field_op("age", "$lt", num(21));
    let sql = match_stage(&stage).unwrap();
    assert_eq!(sql, "age < 21");
}

#[test]
fn test_match_stage_with_eq() {
    let stage = field_op("name", "$eq", text("John"));
    let sql = match_stage(&stage).unwrap();
    assert_eq!(sql, "name = \"John\"");
}

#[test]
fn test_match_stage_with_ne() {
    let stage = field_op("name", "$ne", text("John"));
    let sql = match_stage(&stage).unwrap();
    assert_eq!(sql, "name != \"John\"");
}

#[test]
fn test_match_stage_with_in() {
    let stage = field_op("status", "$in", Value::Array(vec![text("active"), text("pending")]));
    let sql = match_stage(&stage).unwrap();
    assert_eq!(sql, "status IN (\"active\", \"pending\")");
}

#[test]
fn test_match_stage_with_nin() {
    let stage = field_op("status", "$nin", Value::Array(vec![text("active"), text("pending")]));
    let sql = match_stage(&stage).unwrap();
    assert_eq!(sql, "status NOT IN (\"active\", \"pending\")");
}

#[test]
fn test_match_stage_with_and() {
    let stage = obj(vec![(
        "$and",
        Value::Array(vec![
            obj(vec![("status", text("active"))]),
            field_op("age", "$gte", num(21)),
        ]),
    )]);
    let sql = match_stage(&stage).unwrap();
    assert_eq!(sql, "((status = \"active\") AND (age >= 21))");
}

#[test]
fn test_match_stage_with_or() {
    let stage = obj(vec![(
        "$or",
        Value::Array(vec![
            obj(vec![("status", text("active"))]),
            field_op("age", "$gte", num(21)),
        ]),
    )]);
    let sql = match_stage(&stage).unwrap();
    assert_eq!(sql, "((status = \"active\") OR (age >= 21))");
}

#[test]
fn test_match_stage_with_regex() {
    let stage = obj(vec![(
        "name",
        obj(vec![("$regex", text("^joh?n$")), ("$options", text("i"))]),
    )]);
    let sql = match_stage(&stage).unwrap();
    assert_eq!(sql, "name ~ '^joh?n$'");
}

#[test]
fn test_match_stage_with_unsupported_operator() {
    let stage = field_op("name", "$foo", text("bar"));
    let res = match_stage(&stage);
    assert!(res.is_err());
}

#[test]
fn unsupported_operator_names_the_tag() {
    let stage = field_op("name", "$foo", text("bar"));
    assert_eq!(match_stage(&stage), Err(ToSqlError::UnsupportedOperator("$foo".to_string())));
}

#[test]
fn bare_number_is_invalid_stage() {
    let stage = num(5);
    assert_eq!(match_stage(&stage), Err(ToSqlError::InvalidStage(num(5))));
}

#[test]
fn non_mapping_sub_stage_is_invalid_stage() {
    let stage = obj(vec![("$and", Value::Array(vec![obj(vec![("a", num(1))]), text("x")]))]);
    assert_eq!(match_stage(&stage), Err(ToSqlError::InvalidStage(text("x"))));
}

#[test]
fn group_key_without_sequence_is_invalid_operand() {
    let stage = obj(vec![("$or", num(3))]);
    assert_eq!(match_stage(&stage), Err(ToSqlError::InvalidOperandValue("$or".to_string())));
}

#[test]
fn non_text_pattern_is_invalid_regex() {
    let stage = field_op("name", "$regex", num(7));
    assert_eq!(match_stage(&stage), Err(ToSqlError::InvalidRegexValue(num(7))));
}

#[test]
fn empty_operator_mapping_is_missing_operator() {
    let stage = obj(vec![("name", obj(vec![]))]);
    assert_eq!(match_stage(&stage), Err(ToSqlError::MissingOperator("name".to_string())));
}

#[test]
fn empty_stage_is_empty_predicate() {
    assert_eq!(match_stage(&obj(vec![])), Ok(String::new()));
}

#[test]
fn empty_group_adds_nothing() {
    let stage = obj(vec![("a", num(1)), ("$and", Value::Array(vec![]))]);
    assert_eq!(match_stage(&stage).unwrap(), "a = 1");
}

#[test]
fn nor_joins_with_or() {
    let stage = obj(vec![(
        "$nor",
        Value::Array(vec![obj(vec![("a", num(1))]), obj(vec![("b", num(2))])]),
    )]);
    assert_eq!(match_stage(&stage).unwrap(), "((a = 1) OR (b = 2))");
}

#[test]
fn three_sub_stages_are_all_joined() {
    let stage = obj(vec![(
        "$and",
        Value::Array(vec![
            obj(vec![("a", num(1))]),
            obj(vec![("b", num(2))]),
            obj(vec![("c", num(3))]),
        ]),
    )]);
    assert_eq!(match_stage(&stage).unwrap(), "((a = 1) AND (b = 2) AND (c = 3))");
}

#[test]
fn fields_concatenate_without_separator() {
    let stage = obj(vec![("a", num(1)), ("b", field_op("x", "$gt", num(2)))]);
    let stage2 = obj(vec![("a", num(1)), ("b", obj(vec![("$lt", num(2))]))]);
    assert!(match_stage(&stage).is_err());
    assert_eq!(match_stage(&stage2).unwrap(), "a = 1b < 2");
}

#[test]
fn group_text_follows_field_text() {
    let stage = obj(vec![
        ("$or", Value::Array(vec![obj(vec![("b", num(2))])])),
        ("a", num(1)),
    ]);
    assert_eq!(match_stage(&stage).unwrap(), "a = 1((b = 2))");
}

#[test]
fn last_group_key_wins() {
    let stage = obj(vec![
        ("$and", Value::Array(vec![obj(vec![("a", num(1))])])),
        ("$or", Value::Array(vec![obj(vec![("b", num(2))]), obj(vec![("c", num(3))])])),
    ]);
    assert_eq!(match_stage(&stage).unwrap(), "((b = 2) OR (c = 3))");
}

#[test]
fn field_error_comes_before_group_error() {
    let stage = obj(vec![
        ("$and", Value::Array(vec![num(1)])),
        ("name", obj(vec![])),
    ]);
    assert_eq!(match_stage(&stage), Err(ToSqlError::MissingOperator("name".to_string())));
}

#[test]
fn only_first_operator_entry_counts() {
    let stage = obj(vec![("a", obj(vec![("$gt", num(1)), ("$lt", num(5))]))]);
    assert_eq!(match_stage(&stage).unwrap(), "a > 1");
    let opts_first = obj(vec![(
        "name",
        obj(vec![("$options", text("i")), ("$regex", text("x"))]),
    )]);
    assert_eq!(match_stage(&opts_first).unwrap(), "");
}

#[test]
fn membership_with_scalar_operand() {
    let stage = field_op("n", "$in", num(4));
    assert_eq!(match_stage(&stage).unwrap(), "n IN (4)");
    let stage = field_op("n", "$nin", Value::Array(vec![]));
    assert_eq!(match_stage(&stage).unwrap(), "n NOT IN ()");
}

#[test]
fn scalars_render_canonically() {
    assert_eq!(match_stage(&obj(vec![("a", Value::Null)])).unwrap(), "a = null");
    assert_eq!(match_stage(&obj(vec![("a", Value::Bool(true))])).unwrap(), "a = true");
    assert_eq!(match_stage(&obj(vec![("a", Value::Bool(false))])).unwrap(), "a = false");
    let neg = Value::Number(Number::NegInt(-42));
    assert_eq!(match_stage(&obj(vec![("a", neg)])).unwrap(), "a = -42");
    let real = Value::Number(Number::Real("1.5".to_string()));
    assert_eq!(match_stage(&obj(vec![("a", real)])).unwrap(), "a = 1.5");
    assert_eq!(match_stage(&obj(vec![("a", num(0))])).unwrap(), "a = 0");
}

#[test]
fn integer_extremes_render_exactly() {
    let big = num(u64::MAX);
    assert_eq!(match_stage(&obj(vec![("a", big)])).unwrap(), "a = 18446744073709551615");
    let small = Value::Number(Number::NegInt(i64::MIN));
    assert_eq!(match_stage(&obj(vec![("a", small)])).unwrap(), "a = -9223372036854775808");
}

#[test]
fn text_values_are_json_escaped() {
    let stage = obj(vec![("a", text("say \"hi\"\\\n\t\u{1}"))]);
    assert_eq!(match_stage(&stage).unwrap(), "a = \"say \\\"hi\\\"\\\\\\n\\t\\u0001\"");
    let stage = obj(vec![("a", text("caf\u{e9}"))]);
    assert_eq!(match_stage(&stage).unwrap(), "a = \"caf\u{e9}\"");
}

#[test]
fn nested_operands_render_as_compact_json() {
    let operand = Value::Array(vec![num(1), obj(vec![("b", Value::Null), ("c", text("x"))])]);
    let stage = field_op("a", "$eq", operand);
    assert_eq!(match_stage(&stage).unwrap(), "a = [1,{\"b\":null,\"c\":\"x\"}]");
}

#[test]
fn pattern_is_written_verbatim() {
    let stage = field_op("name", "$regex", text("a\"b"));
    assert_eq!(match_stage(&stage).unwrap(), "name ~ 'a\"b'");
}

#[test]
fn operator_tags_parse() {
    assert_eq!(Operator::from_tag("$gte"), Some(Operator::Gte));
    assert_eq!(Operator::from_tag("$nin"), Some(Operator::Nin));
    assert_eq!(Operator::from_tag("$options"), Some(Operator::Options));
    assert_eq!(Operator::from_tag("$gtx"), None);
    assert_eq!(Operator::from_tag(""), None);
}

#[test]
fn duplicate_keeps_the_value() {
    let v = obj(vec![("a", Value::Array(vec![num(1), text("x"), Value::Null]))]);
    assert_eq!(v.duplicate(), v);
}
