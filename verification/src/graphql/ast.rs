//! The syntax tree of the supported GraphQL subset.

use vstd::prelude::*;
use crate::strmap::StrMap;

verus! {

/// A value literal, possibly a variable reference.
pub enum Value {
    Null,
    Int(i64),
    /// A float literal, as written.
    Float(String),
    String(String),
    Bool(bool),
    /// An enum value: a bare name.
    Enum(String),
    List(Vec<Value>),
    /// An input object: distinct keys, each with its value.
    Object(Vec<(String, Value)>),
    /// A reference `$name`.
    Variable(String),
}

/// A type reference: `Int`, `[String]`, `String!`, ...
pub enum TypeRef {
    Named(String),
    List(Box<TypeRef>),
    NonNull(Box<TypeRef>),
}

/// A field argument `name: value`.
pub struct Argument {
    pub name: String,
    pub value: Value,
}

/// A selected field, maybe aliased, with arguments and sub-selections.
pub struct Field {
    pub alias: Option<String>,
    pub name: String,
    pub arguments: Vec<Argument>,
    pub selection_set: Vec<Field>,
}

/// A variable declared by an operation.
pub struct VariableDefinition {
    pub name: String,
    pub var_type: TypeRef,
    pub default: Option<Value>,
}

/// Whether an operation reads or writes.
#[derive(Debug, Clone, Copy, PartialEq, Eq, Structural)]
pub enum OperationType {
    Query,
    Mutation,
}

/// An operation of a document.
pub struct Operation {
    pub operation_type: OperationType,
    pub name: Option<String>,
    pub variable_definitions: Vec<VariableDefinition>,
    pub selection_set: Vec<Field>,
}

/// A parsed document: one or more operations.
pub struct Document {
    pub operations: Vec<Operation>,
}

/// A value as plain values.
pub enum ValueView {
    Null,
    Int(int),
    Float(Seq<char>),
    String(Seq<char>),
    Bool(bool),
    Enum(Seq<char>),
    List(Seq<ValueView>),
    Object(Seq<(Seq<char>, ValueView)>),
    Variable(Seq<char>),
}

/// A type reference as plain values.
pub enum TypeView {
    Named(Seq<char>),
    List(Box<TypeView>),
    NonNull(Box<TypeView>),
}

/// An argument as plain values.
pub struct ArgumentView {
    pub name: Seq<char>,
    pub value: ValueView,
}

/// A field as plain values.
pub struct FieldView {
    pub alias: Option<Seq<char>>,
    pub name: Seq<char>,
    pub arguments: Seq<ArgumentView>,
    pub selection_set: Seq<FieldView>,
}

/// A variable definition as plain values.
pub struct VarDefView {
    pub name: Seq<char>,
    pub var_type: TypeView,
    pub default: Option<ValueView>,
}

/// An operation as plain values.
pub struct OperationView {
    pub operation_type: OperationType,
    pub name: Option<Seq<char>>,
    pub variable_definitions: Seq<VarDefView>,
    pub selection_set: Seq<FieldView>,
}

/// The characters of an optional string.
pub open spec fn opt_view(o: Option<String>) -> Option<Seq<char>> {
    match o {
        Some(s) => Some(s@),
        None => None,
    }
}

/// The plain value of a value.
pub open spec fn value_view(v: Value) -> ValueView
    decreases v,
{
    match v {
        Value::Null => ValueView::Null,
        Value::Int(i) => ValueView::Int(i as int),
        Value::Float(s) => ValueView::Float(s@),
        Value::String(s) => ValueView::String(s@),
        Value::Bool(b) => ValueView::Bool(b),
        Value::Enum(s) => ValueView::Enum(s@),
        Value::List(items) => ValueView::List(values_view(items@)),
        Value::Object(es) => ValueView::Object(entries_view(es@)),
        Value::Variable(s) => ValueView::Variable(s@),
    }
}

/// The plain values of a sequence of values.
pub open spec fn values_view(s: Seq<Value>) -> Seq<ValueView>
    decreases s,
{
    if s.len() == 0 {
        Seq::empty()
    } else {
        values_view(s.drop_last()).push(value_view(s.last()))
    }
}

/// The plain values of the entries of an object.
pub open spec fn entries_view(s: Seq<(String, Value)>) -> Seq<(Seq<char>, ValueView)>
    decreases s,
{
    if s.len() == 0 {
        Seq::empty()
    } else {
        entries_view(s.drop_last()).push((s.last().0@, value_view(s.last().1)))
    }
}

/// The plain value of a type reference.
pub open spec fn type_view(t: TypeRef) -> TypeView
    decreases t,
{
    match t {
        TypeRef::Named(s) => TypeView::Named(s@),
        TypeRef::List(b) => TypeView::List(Box::new(type_view(*b))),
        TypeRef::NonNull(b) => TypeView::NonNull(Box::new(type_view(*b))),
    }
}

/// The plain values of a sequence of arguments.
pub open spec fn args_view(s: Seq<Argument>) -> Seq<ArgumentView> {
    s.map_values(|a: Argument| ArgumentView { name: a.name@, value: value_view(a.value) })
}

/// The plain value of a field.
pub open spec fn field_view(f: Field) -> FieldView
    decreases f,
{
    FieldView {
        alias: opt_view(f.alias),
        name: f.name@,
        arguments: args_view(f.arguments@),
        selection_set: fields_view(f.selection_set@),
    }
}

/// The plain values of a sequence of fields.
pub open spec fn fields_view(s: Seq<Field>) -> Seq<FieldView>
    decreases s,
{
    if s.len() == 0 {
        Seq::empty()
    } else {
        fields_view(s.drop_last()).push(field_view(s.last()))
    }
}

/// The plain value of an optional value.
pub open spec fn opt_value_view(o: Option<Value>) -> Option<ValueView> {
    match o {
        Some(v) => Some(value_view(v)),
        None => None,
    }
}

/// The plain values of a sequence of variable definitions.
pub open spec fn var_defs_view(s: Seq<VariableDefinition>) -> Seq<VarDefView> {
    s.map_values(
        |d: VariableDefinition| VarDefView { name: d.name@, var_type: type_view(d.var_type), default: opt_value_view(d.default) },
    )
}

/// The plain value of an operation.
pub open spec fn operation_view(o: Operation) -> OperationView {
    OperationView {
        operation_type: o.operation_type,
        name: opt_view(o.name),
        variable_definitions: var_defs_view(o.variable_definitions@),
        selection_set: fields_view(o.selection_set@),
    }
}

/// The plain values of the operations of a document.
pub open spec fn document_view(d: Document) -> Seq<OperationView> {
    d.operations@.map_values(|o: Operation| operation_view(o))
}

/// The form a default value takes once bound as a variable, as it would
/// come back from JSON: an enum name becomes a string, a variable
/// reference becomes null, and lists and objects are taken apart likewise.
pub open spec fn bound_form(v: ValueView) -> ValueView
    decreases v,
{
    match v {
        ValueView::Enum(e) => ValueView::String(e),
        ValueView::Variable(_) => ValueView::Null,
        ValueView::List(items) => ValueView::List(bound_forms(items)),
        ValueView::Object(es) => ValueView::Object(bound_entries(es)),
        _ => v,
    }
}

/// The bound forms of a sequence of values.
pub open spec fn bound_forms(s: Seq<ValueView>) -> Seq<ValueView>
    decreases s,
{
    if s.len() == 0 {
        Seq::empty()
    } else {
        bound_forms(s.drop_last()).push(bound_form(s.last()))
    }
}

/// The bound forms of the entries of an object.
pub open spec fn bound_entries(s: Seq<(Seq<char>, ValueView)>) -> Seq<(Seq<char>, ValueView)>
    decreases s,
{
    if s.len() == 0 {
        Seq::empty()
    } else {
        bound_entries(s.drop_last()).push((s.last().0, bound_form(s.last().1)))
    }
}

/// A copy of a value.
pub fn copy_value(v: &Value) -> (r: Value)
    ensures
        value_view(r) == value_view(*v),
    decreases v,
{
    match v {
        Value::Null => Value::Null,
        Value::Int(i) => Value::Int(*i),
        Value::Float(s) => Value::Float(s.clone()),
        Value::String(s) => Value::String(s.clone()),
        Value::Bool(b) => Value::Bool(*b),
        Value::Enum(s) => Value::Enum(s.clone()),
        Value::Variable(s) => Value::Variable(s.clone()),
        Value::List(items) => {
            let mut out: Vec<Value> = Vec::new();
            let mut i: usize = 0;
            while i < items.len()
                invariant
                    *v == Value::List(*items),
                    i <= items@.len(),
                    values_view(out@) == values_view(items@.take(i as int)),
                decreases items@.len() - i,
            {
                proof {
                    assert(decreases_to!(*v => (*v)->List_0));
                    assert(decreases_to!((*v)->List_0 => (*v)->List_0@));
                    assert(decreases_to!(items@ => items@[i as int]));
                }
                let c = copy_value(&items[i]);
                let ghost before = out@;
                out.push(c);
                assert(out@.drop_last() =~= before);
                assert(items@.take(i + 1).drop_last() =~= items@.take(i as int));
                i = i + 1;
            }
            assert(items@.take(items@.len() as int) =~= items@);
            Value::List(out)
        },
        Value::Object(es) => {
            let mut out: Vec<(String, Value)> = Vec::new();
            let mut i: usize = 0;
            while i < es.len()
                invariant
                    *v == Value::Object(*es),
                    i <= es@.len(),
                    entries_view(out@) == entries_view(es@.take(i as int)),
                decreases es@.len() - i,
            {
                proof {
                    assert(decreases_to!(*v => (*v)->Object_0));
                    assert(decreases_to!((*v)->Object_0 => (*v)->Object_0@));
                    assert(decreases_to!(es@ => es@[i as int]));
                    assert(decreases_to!(es@[i as int] => es@[i as int].1));
                }
                let c = copy_value(&es[i].1);
                let ghost before = out@;
                out.push((es[i].0.clone(), c));
                assert(out@.drop_last() =~= before);
                assert(es@.take(i + 1).drop_last() =~= es@.take(i as int));
                i = i + 1;
            }
            assert(es@.take(es@.len() as int) =~= es@);
            Value::Object(out)
        },
    }
}

/// The bound form of a default value.
pub fn bound_value(v: &Value) -> (r: Value)
    ensures
        value_view(r) == bound_form(value_view(*v)),
    decreases v,
{
    match v {
        Value::Null => Value::Null,
        Value::Int(i) => Value::Int(*i),
        Value::Float(s) => Value::Float(s.clone()),
        Value::String(s) => Value::String(s.clone()),
        Value::Bool(b) => Value::Bool(*b),
        Value::Enum(s) => Value::String(s.clone()),
        Value::Variable(_) => Value::Null,
        Value::List(items) => {
            let mut out: Vec<Value> = Vec::new();
            let mut i: usize = 0;
            while i < items.len()
                invariant
                    *v == Value::List(*items),
                    i <= items@.len(),
                    values_view(out@) == bound_forms(values_view(items@.take(i as int))),
                decreases items@.len() - i,
            {
                proof {
                    assert(decreases_to!(*v => (*v)->List_0));
                    assert(decreases_to!((*v)->List_0 => (*v)->List_0@));
                    assert(decreases_to!(items@ => items@[i as int]));
                }
                let c = bound_value(&items[i]);
                let ghost before = out@;
                let ghost vb = values_view(items@.take(i as int));
                out.push(c);
                proof {
                    assert(out@.drop_last() =~= before);
                    assert(items@.take(i + 1).drop_last() =~= items@.take(i as int));
                    assert(values_view(items@.take(i + 1)) == vb.push(value_view(items@[i as int])));
                    assert(vb.push(value_view(items@[i as int])).drop_last() =~= vb);
                }
                i = i + 1;
            }
            assert(items@.take(items@.len() as int) =~= items@);
            Value::List(out)
        },
        Value::Object(es) => {
            let mut out: Vec<(String, Value)> = Vec::new();
            let mut i: usize = 0;
            while i < es.len()
                invariant
                    *v == Value::Object(*es),
                    i <= es@.len(),
                    entries_view(out@) == bound_entries(entries_view(es@.take(i as int))),
                decreases es@.len() - i,
            {
                proof {
                    assert(decreases_to!(*v => (*v)->Object_0));
                    assert(decreases_to!((*v)->Object_0 => (*v)->Object_0@));
                    assert(decreases_to!(es@ => es@[i as int]));
                    assert(decreases_to!(es@[i as int] => es@[i as int].1));
                }
                let c = bound_value(&es[i].1);
                let ghost before = out@;
                let ghost eb = entries_view(es@.take(i as int));
                out.push((es[i].0.clone(), c));
                proof {
                    assert(out@.drop_last() =~= before);
                    assert(es@.take(i + 1).drop_last() =~= es@.take(i as int));
                    assert(entries_view(es@.take(i + 1)) == eb.push((es@[i as int].0@, value_view(es@[i as int].1))));
                    assert(eb.push((es@[i as int].0@, value_view(es@[i as int].1))).drop_last() =~= eb);
                }
                i = i + 1;
            }
            assert(es@.take(es@.len() as int) =~= es@);
            Value::Object(out)
        },
    }
}

impl Value {
    /// The value with a variable reference replaced by the variable's
    /// value, when the variable is bound in `variables`; any other value is
    /// itself.
    pub fn resolve_variable(&self, variables: &StrMap<Value>) -> (r: Option<Value>)
        requires
            variables.wf(),
        ensures
            match *self {
                Value::Variable(name) => match r {
                    Some(x) => variables@.contains_key(name@) && value_view(x) == value_view(variables@[name@]),
                    None => !variables@.contains_key(name@),
                },
                _ => r matches Some(x) && value_view(x) == value_view(*self),
            },
    {
        match self {
            Value::Variable(name) => match variables.get(name) {
                Some(v) => Some(copy_value(v)),
                None => None,
            },
            _ => Some(copy_value(self)),
        }
    }
}

} // verus!
