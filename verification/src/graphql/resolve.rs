//! What resolving one selected field comes to: the decision a resolver
//! makes from the selected object, the field's name and its arguments,
//! before any engine is asked for data.

use vstd::prelude::*;
use vstd::string::StringExecFns;
use crate::format::{signed_decimal, signed_decimal_string};
use crate::graphql::ast::{args_view, field_view, value_view, ArgumentView, Field, FieldView, Value, ValueView};
use crate::strmap::StrMap;
use crate::text::{copy_strings, owned, str_eq, word_views};

verus! {

/// The object a field is selected on, with the plain values a resolver
/// reads from it. Record payloads and search hits stay with the caller,
/// which asks the engines for them.
pub enum Ctx {
    QueryRoot,
    MutationRoot,
    EngineInfo { name: String, tables: Vec<String> },
    Table { storage_type: String, name: String },
    Record { id: String },
    SearchResponse { query: String, total: u64 },
    SearchHit,
}

/// What resolving a field comes to.
pub enum FieldStep {
    /// The field's value is this JSON string.
    Text(String),
    /// The field's value is this JSON array of strings.
    TextList(Vec<String>),
    /// The field's value is this JSON number.
    Number(u64),
    /// List the registered engines and resolve the selection on each.
    ListEngines,
    /// Resolve the selection on this table.
    OpenTable { storage_type: String, name: String },
    /// List the tables of this storage type and resolve the selection on each.
    ListTables { storage_type: String },
    /// Run a unified search with the field's arguments.
    Search,
    /// Run the mutation the field names with its arguments.
    Mutate,
    /// The table's row count.
    CountRows,
    /// Select the table's records with the field's arguments.
    SelectRecords,
    /// Fetch the table's record with this id.
    FetchRecord { id: String },
    /// The record's data.
    RecordData,
    /// The record's metadata.
    RecordMetadata,
    /// Resolve the selection on each hit of the search.
    SearchHits,
    /// The member of the search hit with this name, or null.
    HitMember(String),
    /// The field fails with this message.
    Fail(String),
}

/// The type name of the selected object.
pub open spec fn object_type(ctx: Ctx) -> Seq<char> {
    match ctx {
        Ctx::QueryRoot => "Query"@,
        Ctx::MutationRoot => "Mutation"@,
        Ctx::EngineInfo { .. } => "EngineInfo"@,
        Ctx::Table { .. } => "Table"@,
        Ctx::Record { .. } => "Record"@,
        Ctx::SearchResponse { .. } => "SearchResponse"@,
        Ctx::SearchHit => "SearchHit"@,
    }
}

/// The value of the first argument of `args` named `name`.
#[verifier::opaque]
pub open spec fn first_arg(args: Seq<ArgumentView>, name: Seq<char>) -> Option<ValueView> {
    if exists|i: int| 0 <= i < args.len() && (#[trigger] args[i]).name == name {
        let i = choose|i: int|
            0 <= i < args.len() && (#[trigger] args[i]).name == name && forall|j: int| 0 <= j < i ==> (#[trigger] args[j]).name != name;
        Some(args[i].value)
    } else {
        None
    }
}

/// A value with a variable reference replaced by the variable's value;
/// nothing for an unbound variable.
pub open spec fn resolved(v: ValueView, vars: Map<Seq<char>, ValueView>) -> Option<ValueView> {
    match v {
        ValueView::Variable(x) => if vars.contains_key(x) {
            Some(vars[x])
        } else {
            None
        },
        _ => Some(v),
    }
}

/// The text of a scalar value: a string or enum name as it is, a number
/// in decimal (a float as written), a boolean as `true` or `false`.
pub open spec fn scalar_text(v: ValueView) -> Option<Seq<char>> {
    match v {
        ValueView::String(s) => Some(s),
        ValueView::Enum(s) => Some(s),
        ValueView::Int(i) => Some(signed_decimal(i)),
        ValueView::Float(f) => Some(f),
        ValueView::Bool(b) => Some(if b { "true"@ } else { "false"@ }),
        _ => None,
    }
}

/// The text of the argument `name` of a field, its variables bound.
pub open spec fn arg_text(args: Seq<ArgumentView>, name: Seq<char>, vars: Map<Seq<char>, ValueView>) -> Option<Seq<char>> {
    match first_arg(args, name) {
        Some(v) => match resolved(v, vars) {
            Some(x) => scalar_text(x),
            None => None,
        },
        None => None,
    }
}

/// The plain values of bound variables.
pub open spec fn var_values(vars: Map<Seq<char>, Value>) -> Map<Seq<char>, ValueView> {
    vars.map_values(|v: Value| value_view(v))
}

/// Whether `s` is the failure with message `m`.
pub open spec fn fails_with(s: FieldStep, m: Seq<char>) -> bool {
    s matches FieldStep::Fail(e) && e@ == m
}

/// Whether `r` is the error `m`.
pub open spec fn refused_with(r: Result<(), String>, m: Seq<char>) -> bool {
    r matches Err(e) && e@ == m
}

/// Whether `s` is the text `t`.
pub open spec fn is_text(s: FieldStep, t: Seq<char>) -> bool {
    s matches FieldStep::Text(x) && x@ == t
}

/// The failure for a field the object does not have.
pub open spec fn unknown_field(ctx: Ctx, name: Seq<char>) -> Seq<char> {
    "Unknown field '"@ + name + "' on "@ + object_type(ctx)
}

/// The failure for a field that must have a selection set and has none.
pub open spec fn needs_selection(name: Seq<char>, tname: Seq<char>) -> Seq<char> {
    "field '"@ + name + "' on "@ + tname + " must have a selection set"@
}

/// What resolving field `f` on `ctx` comes to, with `vars` bound.
pub open spec fn expected_step(ctx: Ctx, f: FieldView, vars: Map<Seq<char>, ValueView>, s: FieldStep) -> bool {
    let n = f.name;
    if n == "__typename"@ {
        is_text(s, object_type(ctx))
    } else {
        match ctx {
            Ctx::QueryRoot => if n == "engines"@ {
                s is ListEngines
            } else if n == "table"@ {
                match arg_text(f.arguments, "storageType"@, vars) {
                    None => fails_with(s, "field 'table' requires a 'storageType' argument"@),
                    Some(st) => match arg_text(f.arguments, "name"@, vars) {
                        None => fails_with(s, "field 'table' requires a 'name' argument"@),
                        Some(nm) => if f.selection_set.len() == 0 {
                            fails_with(s, needs_selection(n, "Table"@))
                        } else {
                            s matches FieldStep::OpenTable { storage_type, name } && storage_type@ == st && name@ == nm
                        },
                    },
                }
            } else if n == "tables"@ {
                match arg_text(f.arguments, "storageType"@, vars) {
                    None => fails_with(s, "field 'tables' requires a 'storageType' argument"@),
                    Some(st) => s matches FieldStep::ListTables { storage_type } && storage_type@ == st,
                }
            } else if n == "search"@ {
                s is Search
            } else {
                fails_with(s, unknown_field(ctx, n))
            },
            Ctx::MutationRoot => if n == "insert"@ || n == "update"@ || n == "delete"@ {
                s is Mutate
            } else {
                fails_with(s, unknown_field(ctx, n))
            },
            Ctx::EngineInfo { name, tables } => if n == "name"@ {
                is_text(s, name@)
            } else if n == "tables"@ {
                s matches FieldStep::TextList(t) && word_views(t@) == word_views(tables@)
            } else {
                fails_with(s, unknown_field(ctx, n))
            },
            Ctx::Table { name, .. } => if n == "name"@ {
                is_text(s, name@)
            } else if n == "count"@ {
                s is CountRows
            } else if n == "records"@ {
                s is SelectRecords
            } else if n == "record"@ {
                match arg_text(f.arguments, "id"@, vars) {
                    None => fails_with(s, "field 'record' requires an 'id' argument"@),
                    Some(id) => s matches FieldStep::FetchRecord { id: x } && x@ == id,
                }
            } else {
                fails_with(s, unknown_field(ctx, n))
            },
            Ctx::Record { id } => if n == "id"@ {
                is_text(s, id@)
            } else if n == "data"@ {
                s is RecordData
            } else if n == "metadata"@ {
                s is RecordMetadata
            } else {
                fails_with(s, unknown_field(ctx, n))
            },
            Ctx::SearchResponse { query, total } => if n == "query"@ {
                is_text(s, query@)
            } else if n == "total"@ {
                s == FieldStep::Number(total)
            } else if n == "hits"@ {
                s is SearchHits
            } else {
                fails_with(s, unknown_field(ctx, n))
            },
            Ctx::SearchHit => if n == "engine"@ || n == "table"@ || n == "id"@ || n == "score"@ || n == "similarity"@
                || n == "record"@ {
                s matches FieldStep::HitMember(m) && m@ == n
            } else {
                fails_with(s, unknown_field(ctx, n))
            },
        }
    }
}

/// The type name of the selected object.
pub fn ctx_type_name(ctx: &Ctx) -> (r: &'static str)
    ensures
        r@ == object_type(*ctx),
{
    match ctx {
        Ctx::QueryRoot => "Query",
        Ctx::MutationRoot => "Mutation",
        Ctx::EngineInfo { .. } => "EngineInfo",
        Ctx::Table { .. } => "Table",
        Ctx::Record { .. } => "Record",
        Ctx::SearchResponse { .. } => "SearchResponse",
        Ctx::SearchHit => "SearchHit",
    }
}

/// The text of the argument `name` of `field`, its variables bound: the
/// first argument of that name decides.
pub fn argument_text(field: &Field, name: &str, vars: &StrMap<Value>) -> (r: Option<String>)
    requires
        vars.wf(),
    ensures
        match r {
            Some(t) => arg_text(args_view(field.arguments@), name@, var_values(vars@)) == Some(t@),
            None => arg_text(args_view(field.arguments@), name@, var_values(vars@)) is None,
        },
{
    let ghost args = args_view(field.arguments@);
    let ghost vv = var_values(vars@);
    let mut i: usize = 0;
    while i < field.arguments.len()
        invariant
            i <= field.arguments@.len(),
            args == args_view(field.arguments@),
            vars.wf(),
            vv == var_values(vars@),
            forall|j: int| 0 <= j < i ==> (#[trigger] args[j]).name != name@,
        decreases field.arguments@.len() - i,
    {
        if str_eq(field.arguments[i].name.as_str(), name) {
            proof {
                reveal(first_arg);
                assert(args[i as int].name == name@);
                let c = choose|c: int|
                    0 <= c < args.len() && (#[trigger] args[c]).name == name@ && forall|j: int| 0 <= j < c ==> (#[trigger] args[j]).name != name@;
                if c < i {
                } else if c > i {
                    assert(args[i as int].name != name@);
                }
                assert(first_arg(args, name@) == Some(value_view(field.arguments@[i as int].value)));
            }
            let v = match field.arguments[i].value.resolve_variable(vars) {
                Some(v) => v,
                None => {
                    return None;
                },
            };
            return match v {
                Value::String(s) => Some(s),
                Value::Enum(s) => Some(s),
                Value::Int(n) => Some(signed_decimal_string(n)),
                Value::Float(f) => Some(f),
                Value::Bool(b) => if b {
                    Some(owned("true"))
                } else {
                    Some(owned("false"))
                },
                _ => None,
            };
        }
        i = i + 1;
    }
    proof {
        reveal(first_arg);
    }
    None
}

/// The failure for an unknown field.
fn unknown(ctx: &Ctx, name: &str) -> (s: FieldStep)
    ensures
        fails_with(s, unknown_field(*ctx, name@)),
{
    let mut e = owned("Unknown field '");
    e.append(name);
    e.append("' on ");
    e.append(ctx_type_name(ctx));
    FieldStep::Fail(e)
}

/// The failure for a field named `name` on an object of type `tname`
/// that has no selection set.
fn selection_failure(name: &str, tname: &str) -> (e: String)
    ensures
        e@ == needs_selection(name@, tname@),
{
    let mut e = owned("field '");
    e.append(name);
    e.append("' on ");
    e.append(tname);
    e.append(" must have a selection set");
    e
}

/// Fails a field that must have a selection set and has none.
pub fn require_selection(field: &Field, ctx: &Ctx) -> (r: Result<(), String>)
    ensures
        field.selection_set@.len() == 0 ==> refused_with(r, needs_selection(field.name@, object_type(*ctx))),
        field.selection_set@.len() != 0 ==> r is Ok,
{
    if field.selection_set.len() == 0 {
        Err(selection_failure(field.name.as_str(), ctx_type_name(ctx)))
    } else {
        Ok(())
    }
}

/// Decides what resolving `field` on `ctx` comes to, with `vars` bound.
pub fn field_step(ctx: &Ctx, field: &Field, vars: &StrMap<Value>) -> (s: FieldStep)
    requires
        vars.wf(),
    ensures
        expected_step(*ctx, field_view(*field), var_values(vars@), s),
{
    let n = field.name.as_str();
    if str_eq(n, "__typename") {
        return FieldStep::Text(owned(ctx_type_name(ctx)));
    }
    match ctx {
        Ctx::QueryRoot => {
            if str_eq(n, "engines") {
                FieldStep::ListEngines
            } else if str_eq(n, "table") {
                let st = match argument_text(field, "storageType", vars) {
                    Some(t) => t,
                    None => {
                        return FieldStep::Fail(owned("field 'table' requires a 'storageType' argument"));
                    },
                };
                let nm = match argument_text(field, "name", vars) {
                    Some(t) => t,
                    None => {
                        return FieldStep::Fail(owned("field 'table' requires a 'name' argument"));
                    },
                };
                if field.selection_set.len() == 0 {
                    FieldStep::Fail(selection_failure(n, "Table"))
                } else {
                    FieldStep::OpenTable { storage_type: st, name: nm }
                }
            } else if str_eq(n, "tables") {
                match argument_text(field, "storageType", vars) {
                    Some(t) => FieldStep::ListTables { storage_type: t },
                    None => FieldStep::Fail(owned("field 'tables' requires a 'storageType' argument")),
                }
            } else if str_eq(n, "search") {
                FieldStep::Search
            } else {
                unknown(ctx, n)
            }
        },
        Ctx::MutationRoot => {
            if str_eq(n, "insert") || str_eq(n, "update") || str_eq(n, "delete") {
                FieldStep::Mutate
            } else {
                unknown(ctx, n)
            }
        },
        Ctx::EngineInfo { name, tables } => {
            if str_eq(n, "name") {
                FieldStep::Text(name.clone())
            } else if str_eq(n, "tables") {
                FieldStep::TextList(copy_strings(tables))
            } else {
                unknown(ctx, n)
            }
        },
        Ctx::Table { name, .. } => {
            if str_eq(n, "name") {
                FieldStep::Text(name.clone())
            } else if str_eq(n, "count") {
                FieldStep::CountRows
            } else if str_eq(n, "records") {
                FieldStep::SelectRecords
            } else if str_eq(n, "record") {
                match argument_text(field, "id", vars) {
                    Some(id) => FieldStep::FetchRecord { id },
                    None => FieldStep::Fail(owned("field 'record' requires an 'id' argument")),
                }
            } else {
                unknown(ctx, n)
            }
        },
        Ctx::Record { id } => {
            if str_eq(n, "id") {
                FieldStep::Text(id.clone())
            } else if str_eq(n, "data") {
                FieldStep::RecordData
            } else if str_eq(n, "metadata") {
                FieldStep::RecordMetadata
            } else {
                unknown(ctx, n)
            }
        },
        Ctx::SearchResponse { query, total } => {
            if str_eq(n, "query") {
                FieldStep::Text(query.clone())
            } else if str_eq(n, "total") {
                FieldStep::Number(*total)
            } else if str_eq(n, "hits") {
                FieldStep::SearchHits
            } else {
                unknown(ctx, n)
            }
        },
        Ctx::SearchHit => {
            if str_eq(n, "engine") || str_eq(n, "table") || str_eq(n, "id") || str_eq(n, "score") || str_eq(
                n,
                "similarity",
            ) || str_eq(n, "record") {
                FieldStep::HitMember(owned(n))
            } else {
                unknown(ctx, n)
            }
        },
    }
}

/// The type name every object answers `__typename` with.
pub proof fn lemma_typename_field(ctx: Ctx, f: FieldView, vars: Map<Seq<char>, ValueView>, s: FieldStep)
    requires
        expected_step(ctx, f, vars, s),
        f.name == "__typename"@,
    ensures
        s is Text,
        ctx is QueryRoot ==> is_text(s, "Query"@),
        ctx is MutationRoot ==> is_text(s, "Mutation"@),
        ctx is EngineInfo ==> is_text(s, "EngineInfo"@),
        ctx is Table ==> is_text(s, "Table"@),
        ctx is Record ==> is_text(s, "Record"@),
        ctx is SearchResponse ==> is_text(s, "SearchResponse"@),
        ctx is SearchHit ==> is_text(s, "SearchHit"@),
{
}

/// A record answers `id` with its id, `data` with its data and `metadata`
/// with its metadata; any other name but `__typename` fails.
pub proof fn lemma_record_fields(ctx: Ctx, f: FieldView, vars: Map<Seq<char>, ValueView>, s: FieldStep)
    requires
        expected_step(ctx, f, vars, s),
        ctx is Record,
    ensures
        f.name == "id"@ ==> is_text(s, ctx->id@),
        f.name == "data"@ ==> s is RecordData,
        f.name == "metadata"@ ==> s is RecordMetadata,
        f.name != "__typename"@ && f.name != "id"@ && f.name != "data"@ && f.name != "metadata"@ ==> fails_with(
            s,
            "Unknown field '"@ + f.name + "' on Record"@,
        ),
{
    reveal_strlit("__typename");
    reveal_strlit("id");
    reveal_strlit("data");
    reveal_strlit("metadata");
    assert("' on "@ + "Record"@ =~= "' on Record"@) by {
        reveal_strlit("' on ");
        reveal_strlit("Record");
        reveal_strlit("' on Record");
    }
    assert(("Unknown field '"@ + f.name + "' on "@) + "Record"@ =~= "Unknown field '"@ + f.name + "' on Record"@) by {
        reveal_strlit("' on ");
        reveal_strlit("Record");
        reveal_strlit("' on Record");
    }
}

/// A search response answers `query` with its query text, `total` with its
/// total and `hits` with its hits.
pub proof fn lemma_search_response_fields(ctx: Ctx, f: FieldView, vars: Map<Seq<char>, ValueView>, s: FieldStep)
    requires
        expected_step(ctx, f, vars, s),
        ctx is SearchResponse,
    ensures
        f.name == "query"@ ==> is_text(s, ctx->query@),
        f.name == "total"@ ==> s == FieldStep::Number(ctx->total),
        f.name == "hits"@ ==> s is SearchHits,
{
    assert("query"@ != "__typename"@) by {
        reveal_strlit("query");
        reveal_strlit("__typename");
        assert("query"@.len() != "__typename"@.len());
    }
    assert("total"@ != "__typename"@) by {
        reveal_strlit("total");
        reveal_strlit("__typename");
        assert("total"@.len() != "__typename"@.len());
    }
    assert("hits"@ != "__typename"@) by {
        reveal_strlit("hits");
        reveal_strlit("__typename");
        assert("hits"@.len() != "__typename"@.len());
    }
    assert("total"@ != "query"@) by {
        reveal_strlit("total");
        reveal_strlit("query");
        assert("total"@[0] != "query"@[0]);
    }
    assert("hits"@ != "query"@) by {
        reveal_strlit("hits");
        reveal_strlit("query");
        assert("hits"@.len() != "query"@.len());
    }
    assert("hits"@ != "total"@) by {
        reveal_strlit("hits");
        reveal_strlit("total");
        assert("hits"@.len() != "total"@.len());
    }
}

/// An engine answers `name` with its name and `tables` with its tables.
pub proof fn lemma_engine_fields(ctx: Ctx, f: FieldView, vars: Map<Seq<char>, ValueView>, s: FieldStep)
    requires
        expected_step(ctx, f, vars, s),
        ctx is EngineInfo,
    ensures
        f.name == "name"@ ==> is_text(s, ctx->EngineInfo_name@),
        f.name == "tables"@ ==> (s is TextList && word_views(s->TextList_0@) == word_views(ctx->tables@)),
{
    assert("name"@ != "__typename"@) by {
        reveal_strlit("name");
        reveal_strlit("__typename");
        assert("name"@.len() != "__typename"@.len());
    }
    assert("tables"@ != "__typename"@) by {
        reveal_strlit("tables");
        reveal_strlit("__typename");
        assert("tables"@.len() != "__typename"@.len());
    }
    assert("tables"@ != "name"@) by {
        reveal_strlit("tables");
        reveal_strlit("name");
        assert("tables"@.len() != "name"@.len());
    }
}

/// A table answers `name` with its name, `count` with its row count,
/// `records` with its records, and `record` with the record of the `id`
/// argument, failing without one.
pub proof fn lemma_table_fields(ctx: Ctx, f: FieldView, vars: Map<Seq<char>, ValueView>, s: FieldStep)
    requires
        expected_step(ctx, f, vars, s),
        ctx is Table,
    ensures
        f.name == "name"@ ==> is_text(s, ctx->Table_name@),
        f.name == "count"@ ==> s is CountRows,
        f.name == "records"@ ==> s is SelectRecords,
        f.name == "record"@ ==> (s is FetchRecord <==> arg_text(f.arguments, "id"@, vars) is Some),
        f.name == "record"@ && s is FetchRecord ==> Some(s->FetchRecord_id@) == arg_text(f.arguments, "id"@, vars),
{
    assert("name"@ != "__typename"@) by {
        reveal_strlit("name");
        reveal_strlit("__typename");
        assert("name"@.len() != "__typename"@.len());
    }
    assert("count"@ != "__typename"@) by {
        reveal_strlit("count");
        reveal_strlit("__typename");
        assert("count"@.len() != "__typename"@.len());
    }
    assert("records"@ != "__typename"@) by {
        reveal_strlit("records");
        reveal_strlit("__typename");
        assert("records"@.len() != "__typename"@.len());
    }
    assert("record"@ != "__typename"@) by {
        reveal_strlit("record");
        reveal_strlit("__typename");
        assert("record"@.len() != "__typename"@.len());
    }
    assert("count"@ != "name"@) by {
        reveal_strlit("count");
        reveal_strlit("name");
        assert("count"@.len() != "name"@.len());
    }
    assert("records"@ != "name"@) by {
        reveal_strlit("records");
        reveal_strlit("name");
        assert("records"@.len() != "name"@.len());
    }
    assert("records"@ != "count"@) by {
        reveal_strlit("records");
        reveal_strlit("count");
        assert("records"@.len() != "count"@.len());
    }
    assert("record"@ != "name"@) by {
        reveal_strlit("record");
        reveal_strlit("name");
        assert("record"@.len() != "name"@.len());
    }
    assert("record"@ != "count"@) by {
        reveal_strlit("record");
        reveal_strlit("count");
        assert("record"@.len() != "count"@.len());
    }
    assert("record"@ != "records"@) by {
        reveal_strlit("record");
        reveal_strlit("records");
        assert("record"@.len() != "records"@.len());
    }
}

/// The query root lists engines, runs searches, opens the table that the
/// `storageType` and `name` arguments name (with a selection set) and lists
/// the tables of a storage type; the mutation root runs `insert`, `update`
/// and `delete`.
pub proof fn lemma_root_fields(ctx: Ctx, f: FieldView, vars: Map<Seq<char>, ValueView>, s: FieldStep)
    requires
        expected_step(ctx, f, vars, s),
    ensures
        ctx is QueryRoot && f.name == "engines"@ ==> s is ListEngines,
        ctx is QueryRoot && f.name == "search"@ ==> s is Search,
        ctx is QueryRoot && f.name == "table"@ && s is OpenTable ==> Some(s->OpenTable_storage_type@) == arg_text(
            f.arguments,
            "storageType"@,
            vars,
        ) && Some(s->OpenTable_name@) == arg_text(f.arguments, "name"@, vars) && f.selection_set.len() > 0,
        ctx is QueryRoot && f.name == "tables"@ ==> (s is ListTables <==> arg_text(f.arguments, "storageType"@, vars) is Some),
        ctx is MutationRoot && (f.name == "insert"@ || f.name == "update"@ || f.name == "delete"@) ==> s is Mutate,
{
    assert("engines"@ != "__typename"@) by {
        reveal_strlit("engines");
        reveal_strlit("__typename");
        assert("engines"@.len() != "__typename"@.len());
    }
    assert("search"@ != "__typename"@) by {
        reveal_strlit("search");
        reveal_strlit("__typename");
        assert("search"@.len() != "__typename"@.len());
    }
    assert("table"@ != "__typename"@) by {
        reveal_strlit("table");
        reveal_strlit("__typename");
        assert("table"@.len() != "__typename"@.len());
    }
    assert("tables"@ != "__typename"@) by {
        reveal_strlit("tables");
        reveal_strlit("__typename");
        assert("tables"@.len() != "__typename"@.len());
    }
    assert("table"@ != "engines"@) by {
        reveal_strlit("table");
        reveal_strlit("engines");
        assert("table"@.len() != "engines"@.len());
    }
    assert("tables"@ != "engines"@) by {
        reveal_strlit("tables");
        reveal_strlit("engines");
        assert("tables"@.len() != "engines"@.len());
    }
    assert("tables"@ != "table"@) by {
        reveal_strlit("tables");
        reveal_strlit("table");
        assert("tables"@.len() != "table"@.len());
    }
    assert("search"@ != "engines"@) by {
        reveal_strlit("search");
        reveal_strlit("engines");
        assert("search"@.len() != "engines"@.len());
    }
    assert("search"@ != "table"@) by {
        reveal_strlit("search");
        reveal_strlit("table");
        assert("search"@.len() != "table"@.len());
    }
    assert("search"@ != "tables"@) by {
        reveal_strlit("search");
        reveal_strlit("tables");
        assert("search"@[0] != "tables"@[0]);
    }
    assert("insert"@ != "__typename"@) by {
        reveal_strlit("insert");
        reveal_strlit("__typename");
        assert("insert"@.len() != "__typename"@.len());
    }
    assert("update"@ != "__typename"@) by {
        reveal_strlit("update");
        reveal_strlit("__typename");
        assert("update"@.len() != "__typename"@.len());
    }
    assert("delete"@ != "__typename"@) by {
        reveal_strlit("delete");
        reveal_strlit("__typename");
        assert("delete"@.len() != "__typename"@.len());
    }
}

/// A search hit answers each of its members by name.
pub proof fn lemma_hit_fields(ctx: Ctx, f: FieldView, vars: Map<Seq<char>, ValueView>, s: FieldStep)
    requires
        expected_step(ctx, f, vars, s),
        ctx is SearchHit,
        f.name == "engine"@ || f.name == "table"@ || f.name == "id"@ || f.name == "score"@ || f.name == "similarity"@
            || f.name == "record"@,
    ensures
        s is HitMember && s->HitMember_0@ == f.name,
{
    assert("engine"@ != "__typename"@) by {
        reveal_strlit("engine");
        reveal_strlit("__typename");
        assert("engine"@.len() != "__typename"@.len());
    }
    assert("table"@ != "__typename"@) by {
        reveal_strlit("table");
        reveal_strlit("__typename");
        assert("table"@.len() != "__typename"@.len());
    }
    assert("id"@ != "__typename"@) by {
        reveal_strlit("id");
        reveal_strlit("__typename");
        assert("id"@.len() != "__typename"@.len());
    }
    assert("score"@ != "__typename"@) by {
        reveal_strlit("score");
        reveal_strlit("__typename");
        assert("score"@.len() != "__typename"@.len());
    }
    assert("similarity"@ != "__typename"@) by {
        reveal_strlit("similarity");
        reveal_strlit("__typename");
        assert("similarity"@[0] != "__typename"@[0]);
    }
    assert("record"@ != "__typename"@) by {
        reveal_strlit("record");
        reveal_strlit("__typename");
        assert("record"@.len() != "__typename"@.len());
    }
}

} // verus!
