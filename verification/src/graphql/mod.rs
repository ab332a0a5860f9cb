//! A GraphQL subset: queries and mutations with fields, aliases,
//! arguments, variables, lists, input objects and scalar literals.
//! Fragments, directives and subscriptions are refused with an explicit
//! error.

pub mod ast;
pub mod lexer;
pub mod parser;
pub mod resolve;

use vstd::prelude::*;
use vstd::string::StringExecFns;
use crate::graphql::ast::{bound_form, bound_value, copy_value, opt_view, value_view, var_defs_view, Document, Operation, Value, ValueView, VarDefView};
use crate::strmap::StrMap;
use crate::text::{owned, str_eq};

verus! {

/// The position of the first operation of `ops` named `name`.
pub open spec fn first_named(ops: Seq<Option<Seq<char>>>, name: Seq<char>) -> Option<int> {
    if exists|i: int| 0 <= i < ops.len() && ops[i] == Some(name) {
        Some(choose|i: int| 0 <= i < ops.len() && ops[i] == Some(name) && forall|j: int| 0 <= j < i ==> ops[j] != Some(name))
    } else {
        None
    }
}

/// The names of a document's operations.
pub open spec fn operation_names(d: Document) -> Seq<Option<Seq<char>>> {
    d.operations@.map_values(|o: crate::graphql::ast::Operation| opt_view(o.name))
}

/// Picks the operation of a document to run, by position: with a name,
/// the first operation of that name (an error naming it when there is
/// none); without one, the only operation (an error when there are
/// several, or none).
pub fn select_operation(document: &Document, name: Option<&str>) -> (r: Result<usize, String>)
    ensures
        name matches Some(n) ==> match first_named(operation_names(*document), n@) {
            Some(i) => r == Ok::<usize, String>(i as usize),
            None => r matches Err(e) && e@ == "Unknown operation '"@ + n@ + "'"@,
        },
        name is None ==> if document.operations@.len() == 1 {
            r == Ok::<usize, String>(0)
        } else {
            r matches Err(e) && e@ == "Operation name is required when a document contains several operations"@
        },
{
    match name {
        Some(n) => {
            let ghost names = operation_names(*document);
            let mut i: usize = 0;
            while i < document.operations.len()
                invariant
                    name == Some(n),
                    i <= document.operations@.len(),
                    names == operation_names(*document),
                    forall|j: int| 0 <= j < i ==> names[j] != Some(n@),
                decreases document.operations@.len() - i,
            {
                let found = match &document.operations[i].name {
                    Some(m) => str_eq(m.as_str(), n),
                    None => false,
                };
                if found {
                    proof {
                        assert(names[i as int] == Some(n@));
                        let c = choose|c: int| 0 <= c < names.len() && names[c] == Some(n@) && forall|j: int| 0 <= j < c ==> names[j] != Some(n@);
                        if c < i {
                        } else if c > i {
                            assert(names[i as int] != Some(n@));
                        }
                    }
                    return Ok(i);
                }
                proof {
                    assert(names[i as int] != Some(n@));
                }
                i = i + 1;
            }
            let mut e = owned("Unknown operation '");
            e.append(n);
            e.append("'");
            Err(e)
        },
        None => {
            if document.operations.len() == 1 {
                Ok(0)
            } else {
                Err(owned("Operation name is required when a document contains several operations"))
            }
        },
    }
}

/// Whether one of `defs` declares `k`.
pub open spec fn declared(defs: Seq<VarDefView>, k: Seq<char>) -> bool {
    exists|j: int| 0 <= j < defs.len() && (#[trigger] defs[j]).name == k
}

/// The bound default of `k`: that of the last definition of `k` with a
/// default, if any.
pub open spec fn default_of(defs: Seq<VarDefView>, k: Seq<char>) -> Option<ValueView>
    decreases defs.len(),
{
    if defs.len() == 0 {
        None
    } else if defs.last().name == k && defs.last().default is Some {
        Some(bound_form(defs.last().default->Some_0))
    } else {
        default_of(defs.drop_last(), k)
    }
}

/// Whether `k` has a default among `defs`, and so is declared.
proof fn lemma_default_declared(defs: Seq<VarDefView>, k: Seq<char>)
    ensures
        default_of(defs, k) is Some ==> declared(defs, k),
    decreases defs.len(),
{
    if defs.len() > 0 {
        lemma_default_declared(defs.drop_last(), k);
        if default_of(defs.drop_last(), k) is Some && !(defs.last().name == k && defs.last().default is Some) {
            let j = choose|j: int| 0 <= j < defs.drop_last().len() && (#[trigger] defs.drop_last()[j]).name == k;
            assert(defs[j].name == k);
        }
        if defs.last().name == k {
            assert(defs[defs.len() - 1].name == k);
        }
    }
}

/// The variables an operation runs with: each provided value, and the
/// default of each declared variable that is not provided. A value given
/// for an undeclared variable is kept too.
pub fn bind_variables(operation: &Operation, provided: &StrMap<Value>) -> (r: StrMap<Value>)
    requires
        provided.wf(),
    ensures
        r.wf(),
        r@.dom() == provided@.dom().union(
            Set::new(|k: Seq<char>| default_of(var_defs_view(operation.variable_definitions@), k) is Some),
        ),
        forall|k: Seq<char>| #[trigger] provided@.contains_key(k) ==> value_view(r@[k]) == value_view(provided@[k]),
        forall|k: Seq<char>|
            !provided@.contains_key(k) && #[trigger] r@.contains_key(k) ==> default_of(
                var_defs_view(operation.variable_definitions@),
                k,
            ) == Some(value_view(r@[k])),
{
    let ghost dv = var_defs_view(operation.variable_definitions@);
    let mut bound: StrMap<Value> = StrMap::new();
    let mut i: usize = 0;
    while i < operation.variable_definitions.len()
        invariant
            provided.wf(),
            bound.wf(),
            dv == var_defs_view(operation.variable_definitions@),
            i <= dv.len(),
            forall|k: Seq<char>|
                #[trigger] bound@.contains_key(k) == if provided@.contains_key(k) {
                    declared(dv.take(i as int), k)
                } else {
                    default_of(dv.take(i as int), k) is Some
                },
            forall|k: Seq<char>|
                #[trigger] bound@.contains_key(k) ==> if provided@.contains_key(k) {
                    value_view(bound@[k]) == value_view(provided@[k])
                } else {
                    default_of(dv.take(i as int), k) == Some(value_view(bound@[k]))
                },
        decreases dv.len() - i,
    {
        let def = &operation.variable_definitions[i];
        let ghost n = def.name@;
        let ghost t0 = dv.take(i as int);
        let ghost t1 = dv.take(i + 1);
        proof {
            assert(dv[i as int].name == n);
            assert(t1.drop_last() =~= t0);
            assert(t1.last() == dv[i as int]);
            assert forall|k: Seq<char>| k != n implies declared(t1, k) == declared(t0, k) && default_of(t1, k) == default_of(t0, k) by {
                if declared(t1, k) {
                    let j = choose|j: int| 0 <= j < t1.len() && (#[trigger] t1[j]).name == k;
                    assert(j < i);
                    assert(t0[j] == t1[j]);
                }
                if declared(t0, k) {
                    let j = choose|j: int| 0 <= j < t0.len() && (#[trigger] t0[j]).name == k;
                    assert(t1[j] == t0[j]);
                }
            }
            assert(declared(t1, n)) by {
                assert(t1[i as int].name == n);
            }
        }
        match provided.get(&def.name) {
            Some(v) => {
                let c = copy_value(v);
                bound.insert(def.name.clone(), c);
            },
            None => {
                match &def.default {
                    Some(d) => {
                        let c = bound_value(d);
                        proof {
                            assert(dv[i as int].default == Some(value_view(*d)));
                            assert(default_of(t1, n) == Some(bound_form(value_view(*d))));
                        }
                        bound.insert(def.name.clone(), c);
                    },
                    None => {
                        proof {
                            assert(dv[i as int].default is None);
                            assert(default_of(t1, n) == default_of(t0, n));
                        }
                    },
                }
            },
        }
        i = i + 1;
    }
    proof {
        assert(dv.take(dv.len() as int) =~= dv);
        provided.lemma_view();
    }
    let mut j: usize = 0;
    while j < provided.entry_count()
        invariant
            provided.wf(),
            bound.wf(),
            dv == var_defs_view(operation.variable_definitions@),
            j <= provided.key_seq().len(),
            provided@.dom() == provided.key_seq().to_set(),
            provided.key_seq().len() == provided.entry_seq().len(),
            forall|a: int| 0 <= a < provided.entry_seq().len() ==> #[trigger] provided@.contains_key(provided.entry_seq()[a].0@)
                && provided@[provided.entry_seq()[a].0@] == provided.entry_seq()[a].1,
            forall|k: Seq<char>|
                #[trigger] bound@.contains_key(k) == if provided@.contains_key(k) {
                    declared(dv, k) || provided.key_seq().take(j as int).contains(k)
                } else {
                    default_of(dv, k) is Some
                },
            forall|k: Seq<char>|
                #[trigger] bound@.contains_key(k) ==> if provided@.contains_key(k) {
                    value_view(bound@[k]) == value_view(provided@[k])
                } else {
                    default_of(dv, k) == Some(value_view(bound@[k]))
                },
        decreases provided.key_seq().len() - j,
    {
        let k = provided.key_at(j);
        let v = provided.value_at(j);
        let ghost kv = k@;
        let ghost ks = provided.key_seq();
        proof {
            assert(provided.entry_seq()[j as int].0@ == kv);
            assert(provided@.contains_key(provided.entry_seq()[j as int].0@));
            assert(ks[j as int] == kv);
            assert(ks.take(j + 1) =~= ks.take(j as int).push(kv));
            assert(provided@.contains_key(kv) && provided@[kv] == *v);
            assert(ks.take(j + 1).contains(kv)) by {
                assert(ks.take(j + 1)[j as int] == kv);
            }
            let t0 = ks.take(j as int);
            let t1 = ks.take(j + 1);
            assert forall|x: Seq<char>| x != kv implies t1.contains(x) == t0.contains(x) by {
                if t1.contains(x) {
                    let a = choose|a: int| 0 <= a < t1.len() && #[trigger] t1[a] == x;
                    assert(a < j);
                    assert(t0[a] == x);
                }
                if t0.contains(x) {
                    let a = choose|a: int| 0 <= a < t0.len() && #[trigger] t0[a] == x;
                    assert(t1[a] == x);
                }
            }
        }
        if !bound.contains_key(k) {
            let c = copy_value(v);
            bound.insert(k.clone(), c);
        }
        j = j + 1;
    }
    proof {
        assert(provided.key_seq().take(provided.key_seq().len() as int) =~= provided.key_seq());
        assert forall|k: Seq<char>| #[trigger] provided@.contains_key(k) implies bound@.contains_key(k) by {
            assert(provided.key_seq().to_set().contains(k));
        }
        assert forall|k: Seq<char>| #[trigger] bound@.dom().contains(k) == provided@.dom().union(
            Set::new(|k: Seq<char>| default_of(dv, k) is Some),
        ).contains(k) by {
            lemma_default_declared(dv, k);
        }
        assert(bound@.dom() =~= provided@.dom().union(Set::new(|k: Seq<char>| default_of(dv, k) is Some)));
    }
    bound
}

/// Whether the GraphQL endpoint is served.
#[derive(Debug, Clone, Copy, PartialEq, Eq, Structural)]
pub struct GraphQLConfig {
    pub enabled: bool,
}

impl Default for GraphQLConfig {
    fn default() -> (c: Self)
        ensures
            c.enabled,
    {
        GraphQLConfig { enabled: true }
    }
}

/// The schema the endpoint answers for, in SDL, with the supported subset.
pub const SCHEMA_SDL: &'static str = "schema { query: Query, mutation: Mutation }

type Query {
  engines: [EngineInfo!]!
  table(storageType: String!, name: String!): Table!
  tables(storageType: String!): [Table!]!
  search(query: String, queryVector: String, mode: String, storageTypes: [String], tables: [String], limit: Int, offset: Int): SearchResponse!
}

type Mutation {
  insert(storageType: String!, table: String!, data: JSON!): Int!
  update(storageType: String!, table: String!, data: JSON!, conditions: JSON): Int!
  delete(storageType: String!, table: String!, conditions: JSON): Int!
}

type EngineInfo { name: String!, tables: [String!]! }
type Table { name: String!, count: Int!, records(limit: Int, offset: Int, conditions: JSON): [Record!]!, record(id: String!): Record }
type Record { id: String!, data: JSON!, metadata: JSON! }
type SearchResponse { query: String!, total: Int!, hits: [SearchHit!]! }
type SearchHit { engine: String!, table: String!, id: String!, score: Float!, similarity: Float, record: JSON! }

scalar JSON

# Supported subset: queries, mutations, fields, aliases, arguments, variables.
# Not supported: fragments, directives, subscriptions, interfaces, unions,
# full introspection (only __typename).
";

} // verus!
