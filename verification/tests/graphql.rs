use primusdb::graphql::ast::{OperationType, TypeRef, Value};
use primusdb::graphql::lexer::{lex, TokKind};
use primusdb::graphql::parser::{ParseError, Parser};
use primusdb::graphql::resolve::{field_step, require_selection, Ctx, FieldStep};
use primusdb::graphql::{bind_variables, select_operation, GraphQLConfig};
use primusdb::strmap::StrMap;

fn err_of(src: &str) -> ParseError {
    match Parser::parse_document(src) {
        Err(e) => e,
        Ok(_) => panic!("expected an error for {src}"),
    }
}

#[test]
fn test_parse_simple_query() {
    let doc = Parser::parse_document("{ table(storageType: \"Document\", name: \"users\") { name } }").ok().unwrap();
    assert_eq!(doc.operations.len(), 1);
    let op = &doc.operations[0];
    assert_eq!(op.operation_type, OperationType::Query);
    assert_eq!(op.name, None);
    assert_eq!(op.selection_set.len(), 1);
    let field = &op.selection_set[0];
    assert_eq!(field.name, "table");
    assert_eq!(field.arguments.len(), 2);
    assert_eq!(field.selection_set[0].name, "name");
}

#[test]
fn test_parse_named_operation_with_variables() {
    let doc = Parser::parse_document(
        "query GetUsers($limit: Int = 10) { tables(storageType: \"Document\") { records(limit: $limit) { id } } }",
    )
    .ok()
    .unwrap();
    let op = &doc.operations[0];
    assert_eq!(op.name.as_deref(), Some("GetUsers"));
    assert_eq!(op.variable_definitions.len(), 1);
    assert_eq!(op.variable_definitions[0].name, "limit");
    assert!(matches!(op.variable_definitions[0].default, Some(Value::Int(10))));
}

#[test]
fn test_parse_alias_and_literals() {
    let doc = Parser::parse_document("{ a: search(query: \"rust\", limit: 5) { total hits { score } } }").ok().unwrap();
    let field = &doc.operations[0].selection_set[0];
    assert_eq!(field.alias.as_deref(), Some("a"));
    assert_eq!(field.name, "search");
}

#[test]
fn test_parse_object_and_list_values() {
    let doc = Parser::parse_document("mutation { insert(storageType: \"Document\", table: \"t\", data: \"{\\\"a\\\":1}\") }")
        .ok()
        .unwrap();
    assert_eq!(doc.operations[0].operation_type, OperationType::Mutation);
}

#[test]
fn test_parse_errors_are_explicit() {
    let err = err_of("fragment F on T { id }");
    assert!(err.message.contains("fragments"), "{}", err.message);
    let err = err_of("subscription { x }");
    assert!(err.message.contains("subscriptions"), "{}", err.message);
}

#[test]
fn test_lexer_comments_and_commas() {
    let doc = Parser::parse_document("# leading comment\n{ x: search(query: \"a\", limit: 3) { total } } # trailing")
        .ok()
        .unwrap();
    assert_eq!(doc.operations[0].selection_set[0].alias.as_deref(), Some("x"));
}

#[test]
fn test_variable_resolution() {
    let mut vars: StrMap<Value> = StrMap::new();
    vars.insert("limit".to_string(), Value::Int(5));
    assert!(matches!(Value::Variable("limit".to_string()).resolve_variable(&vars), Some(Value::Int(5))));
    assert!(Value::Variable("missing".to_string()).resolve_variable(&vars).is_none());
    assert!(matches!(Value::Bool(true).resolve_variable(&vars), Some(Value::Bool(true))));
}

#[test]
fn lexer_reads_every_literal_kind() {
    let ts = lex("x -12 3.5e2 \"a\\n\\u0041\" ... $ ! [ ] { } ( ) : = @ |").ok().unwrap();
    assert!(matches!(&ts[0].kind, TokKind::Name(n) if n == "x"));
    assert!(matches!(ts[1].kind, TokKind::Int(-12)));
    assert!(matches!(&ts[2].kind, TokKind::Float(f) if f == "3.5e2"));
    assert!(matches!(&ts[3].kind, TokKind::Str(s) if s == "a\nA"));
    assert!(matches!(ts[4].kind, TokKind::Spread));
    assert_eq!(ts.len(), 17);
    assert_eq!(ts[1].pos, 2);
}

#[test]
fn lexer_errors_name_the_problem() {
    assert_eq!(err_of("{ a(x: \"open) }").message, "unterminated string");
    assert_eq!(err_of("{ a(x: -) }").message, "invalid number literal");
    assert_eq!(err_of("{ a(x: 99999999999999999999) }").message, "invalid int literal '99999999999999999999'");
    assert_eq!(err_of("{ a(x: 1e) }").message, "invalid float literal '1e'");
    let e = err_of("{ a ^ }");
    assert_eq!(e.message, "unexpected character '^'");
    assert_eq!(e.position, 4);
    assert_eq!(err_of("{ a(x: \"\\q\") }").message, "invalid escape '\\q'");
    assert_eq!(err_of("{ a(x: \"\\uZZZZ\") }").message, "invalid \\u escape '\\uZZZZ'");
    assert_eq!(err_of("{ a(x: \"\\uD800\") }").message, "invalid unicode escape");
    assert_eq!(err_of("{ a . }").message, "unexpected '.'");
}

#[test]
fn extreme_integers_are_read_exactly() {
    let ts = lex("-9223372036854775808 9223372036854775807").ok().unwrap();
    assert!(matches!(ts[0].kind, TokKind::Int(i64::MIN)));
    assert!(matches!(ts[1].kind, TokKind::Int(i64::MAX)));
    assert!(lex("9223372036854775808").is_err());
}

#[test]
fn parser_errors_describe_what_was_found() {
    let e = err_of("{ a(x: ) }");
    assert_eq!(e.message, "expected value, found ')'");
    assert_eq!(e.position, 7);
    assert_eq!(err_of("").message, "empty document");
    assert_eq!(err_of("{ a").message, "expected '}', found end of input");
    assert_eq!(err_of("{ ...F }").message, "fragments are not supported");
    assert_eq!(err_of("{ a @skip }").message, "directives are not supported");
    assert_eq!(err_of("{ x: 5 }").message, "expected field name after alias, found 5");
    assert_eq!(err_of("[").message, "expected operation, found '['");
}

#[test]
fn values_and_types_are_built() {
    let doc = Parser::parse_document(
        "query Q($ids: [ID!]!, $on: Boolean = true) { f(o: {a: 1, \"b\": [null, FOO], a: 2.5}) }",
    )
    .ok()
    .unwrap();
    let op = &doc.operations[0];
    match &op.variable_definitions[0].var_type {
        TypeRef::NonNull(inner) => match inner.as_ref() {
            TypeRef::List(item) => assert!(matches!(item.as_ref(), TypeRef::NonNull(_))),
            _ => panic!("expected a list"),
        },
        _ => panic!("expected non-null"),
    }
    assert!(matches!(op.variable_definitions[1].default, Some(Value::Bool(true))));
    match &op.selection_set[0].arguments[0].value {
        Value::Object(entries) => {
            assert_eq!(entries.len(), 2);
            assert_eq!(entries[0].0, "a");
            assert!(matches!(&entries[0].1, Value::Float(f) if f == "2.5"));
            assert!(matches!(&entries[1].1, Value::List(items) if items.len() == 2));
        },
        _ => panic!("expected an object"),
    }
}

#[test]
fn several_operations_in_one_document() {
    let doc = Parser::parse_document("query A { x } mutation B { y }").ok().unwrap();
    assert_eq!(doc.operations.len(), 2);
    assert_eq!(doc.operations[1].operation_type, OperationType::Mutation);
    assert!(GraphQLConfig::default().enabled);
}

#[test]
fn operations_are_selected_by_name_or_uniqueness() {
    let doc = Parser::parse_document("query A { x } query B { y } query A { z }").ok().unwrap();
    assert_eq!(select_operation(&doc, Some("B")), Ok(1));
    assert_eq!(select_operation(&doc, Some("A")), Ok(0));
    assert_eq!(select_operation(&doc, Some("C")), Err("Unknown operation 'C'".to_string()));
    assert_eq!(
        select_operation(&doc, None),
        Err("Operation name is required when a document contains several operations".to_string())
    );
    let single = Parser::parse_document("{ x }").ok().unwrap();
    assert_eq!(select_operation(&single, None), Ok(0));
}

#[test]
fn provided_variables_override_declared_defaults() {
    let doc = Parser::parse_document("query Q($a: Int = 1, $b: String = \"d\", $c: Color = RED, $e: Int) { x }").ok().unwrap();
    let mut provided: StrMap<Value> = StrMap::new();
    provided.insert("b".to_string(), Value::String("hi".to_string()));
    provided.insert("z".to_string(), Value::Int(9));
    let bound = bind_variables(&doc.operations[0], &provided);
    assert_eq!(bound.len(), 4);
    assert!(matches!(bound.get(&"a".to_string()), Some(Value::Int(1))));
    assert!(matches!(bound.get(&"b".to_string()), Some(Value::String(s)) if s == "hi"));
    assert!(matches!(bound.get(&"c".to_string()), Some(Value::String(s)) if s == "RED"));
    assert!(matches!(bound.get(&"z".to_string()), Some(Value::Int(9))));
    assert!(bound.get(&"e".to_string()).is_none());
}

fn first_field(src: &str) -> primusdb::graphql::ast::Field {
    let mut doc = Parser::parse_document(src).ok().unwrap();
    let mut op = doc.operations.remove(0);
    op.selection_set.remove(0)
}

#[test]
fn fields_resolve_by_object_name_and_arguments() {
    let mut vars: StrMap<Value> = StrMap::new();
    vars.insert("t".to_string(), Value::String("users".to_string()));
    let table = first_field("query($t: String) { table(storageType: \"document\", name: $t) { name } }");
    match field_step(&Ctx::QueryRoot, &table, &vars) {
        FieldStep::OpenTable { storage_type, name } => {
            assert_eq!(storage_type, "document");
            assert_eq!(name, "users");
        },
        _ => panic!("expected a table"),
    }
    let bare = first_field("{ table(storageType: \"document\", name: \"users\") }");
    assert!(matches!(field_step(&Ctx::QueryRoot, &bare, &vars),
        FieldStep::Fail(m) if m == "field 'table' on Table must have a selection set"));
    let missing = first_field("{ table(storageType: \"document\") { name } }");
    assert!(matches!(field_step(&Ctx::QueryRoot, &missing, &vars),
        FieldStep::Fail(m) if m == "field 'table' requires a 'name' argument"));
    let typename = first_field("{ __typename }");
    assert!(matches!(field_step(&Ctx::MutationRoot, &typename, &vars), FieldStep::Text(t) if t == "Mutation"));
    let unknown = first_field("{ nope }");
    assert!(matches!(field_step(&Ctx::QueryRoot, &unknown, &vars),
        FieldStep::Fail(m) if m == "Unknown field 'nope' on Query"));
    let record = first_field("{ record(id: 42) { id } }");
    let t = Ctx::Table { storage_type: "document".to_string(), name: "users".to_string() };
    assert!(matches!(field_step(&t, &record, &vars), FieldStep::FetchRecord { id } if id == "42"));
    let total = first_field("{ total }");
    let resp = Ctx::SearchResponse { query: "q".to_string(), total: 7 };
    assert!(matches!(field_step(&resp, &total, &vars), FieldStep::Number(7)));
    let score = first_field("{ score }");
    assert!(matches!(field_step(&Ctx::SearchHit, &score, &vars), FieldStep::HitMember(m) if m == "score"));
    let tables = first_field("{ tables }");
    let info = Ctx::EngineInfo { name: "columnar".to_string(), tables: vec!["a".to_string(), "b".to_string()] };
    assert!(matches!(field_step(&info, &tables, &vars), FieldStep::TextList(t) if t == vec!["a".to_string(), "b".to_string()]));
    assert_eq!(require_selection(&total, &resp), Err("field 'total' on SearchResponse must have a selection set".to_string()));
    assert_eq!(require_selection(&table, &Ctx::QueryRoot), Ok(()));
}
