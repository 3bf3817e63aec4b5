//! The mathematical model of the interpreter: given an abstract description
//! of the query adapter's answers for one document (`QueryEnv`), `eval` and
//! `eval_many` say what single- and multi-value extraction return, in the
//! sense of `Scheme::process` and `Scheme::process_many`. The general laws of
//! the engine are proved of this model in `laws`.

use vstd::prelude::*;
use crate::scheme::{KVPair, Scheme};

verus! {

/// Model of an extracted value.
pub enum ValModel {
    String(Seq<char>),
    Array(Seq<ValModel>),
    Object(Seq<(Seq<char>, ValModel)>),
}

/// Model of an extraction failure.
pub enum ErrModel {
    NotImplemented(Seq<char>),
    InvalidPath(Seq<char>),
    NoElementFound(Seq<char>),
    MismatchedFieldCount { field: Seq<char>, expected: nat, found: nat },
}

/// The query adapter's answers for one document: which selector paths
/// compile, which descendants of a node match a path (in document order),
/// and each node's inner content. Nodes are named by integers.
pub struct QueryEnv {
    /// The selector paths that compile into a matcher.
    pub valid: Set<Seq<char>>,
    /// For an anchor node and a path: the matching descendants of the
    /// anchor, in document order.
    pub found: Map<(int, Seq<char>), Seq<int>>,
    /// The inner content of each node.
    pub content: Map<int, Seq<char>>,
}

impl QueryEnv {
    /// The environment answers every query.
    pub open spec fn total(self) -> bool {
        &&& self.found.dom() == Set::<(int, Seq<char>)>::full()
        &&& self.content.dom() == Set::<int>::full()
    }
}

/// The value has the shape that single extraction of the scheme promises: a
/// string leaf for a string scheme, an object for an object scheme, and for
/// a list scheme an array whose entries each have the shape of one aligned
/// result of the element scheme, however deep the nesting.
pub open spec fn fits_one(s: Scheme, v: ValModel) -> bool
    decreases s, 0int, 0int,
{
    match s {
        Scheme::Object(_) => v is Object,
        Scheme::List(l) => v matches ValModel::Array(items) && (forall|i: int|
            0 <= i < items.len() ==> fits_each(*l.element_scheme, #[trigger] items[i])),
        Scheme::String(_) => v is String,
    }
}

/// The value has the shape of one aligned result of multi-extraction of the
/// scheme: a string leaf for a string scheme, an object for an object
/// scheme, and for a list scheme an array of values of this same shape for
/// the element scheme, however deep the nesting.
pub open spec fn fits_each(s: Scheme, v: ValModel) -> bool
    decreases s, 1int, 0int,
{
    match s {
        Scheme::Object(_) => v is Object,
        Scheme::List(l) => v matches ValModel::Array(items) && (forall|i: int|
            0 <= i < items.len() ==> fits_each(*l.element_scheme, #[trigger] items[i])),
        Scheme::String(_) => v is String,
    }
}

/// Inserts a key into an ordered object model: replaces the value in place
/// when the key is present, else appends the entry.
pub open spec fn obj_update(
    entries: Seq<(Seq<char>, ValModel)>,
    key: Seq<char>,
    value: ValModel,
) -> Seq<(Seq<char>, ValModel)>
    decreases entries.len(),
{
    if entries.len() == 0 {
        seq![(key, value)]
    } else if entries[0].0 == key {
        seq![(key, value)] + entries.drop_first()
    } else {
        seq![entries[0]] + obj_update(entries.drop_first(), key, value)
    }
}

/// The value under `key` in an ordered object model.
pub open spec fn obj_lookup(entries: Seq<(Seq<char>, ValModel)>, key: Seq<char>) -> Option<
    ValModel,
>
    decreases entries.len(),
{
    if entries.len() == 0 {
        None
    } else if entries[0].0 == key {
        Some(entries[0].1)
    } else {
        obj_lookup(entries.drop_first(), key)
    }
}

/// The first failure among the fields of an object scheme under single
/// extraction, scanning in declared order.
pub open spec fn first_err(fields: Seq<KVPair>, env: QueryEnv, node: int) -> Option<ErrModel>
    decreases fields, 0int, 0int,
{
    if fields.len() == 0 {
        None
    } else {
        match eval(fields[0].value, env, node) {
            Err(e) => Some(e),
            Ok(_) => first_err(fields.drop_first(), env, node),
        }
    }
}

/// The entries of the object that single extraction builds, inserting each
/// field's result under its key in declared order (so a later duplicate key
/// overwrites an earlier one in place). Meaningful when no field fails.
pub open spec fn obj_entries(fields: Seq<KVPair>, env: QueryEnv, node: int) -> Seq<
    (Seq<char>, ValModel),
>
    decreases fields, 0int, 0int,
{
    if fields.len() == 0 {
        Seq::empty()
    } else {
        obj_update(
            obj_entries(fields.drop_last(), env, node),
            fields.last().key@,
            eval(fields.last().value, env, node)->Ok_0,
        )
    }
}

/// Single-value extraction: what `Scheme::process` returns on an anchor
/// node, given the query adapter's answers.
pub open spec fn eval(s: Scheme, env: QueryEnv, node: int) -> Result<ValModel, ErrModel>
    decreases s, 1int, 0int,
{
    match s {
        Scheme::Object(o) => match first_err(o.fields@, env, node) {
            Some(e) => Err(e),
            None => Ok(ValModel::Object(obj_entries(o.fields@, env, node))),
        },
        Scheme::String(st) => if !env.valid.contains(st.path@) {
            Err(ErrModel::InvalidPath(st.path@))
        } else {
            let ms = env.found[(node, st.path@)];
            if ms.len() == 0 {
                Err(ErrModel::NoElementFound(st.path@))
            } else {
                Ok(ValModel::String(env.content[ms[0]]))
            }
        },
        Scheme::List(l) => if !env.valid.contains(l.path@) {
            Err(ErrModel::InvalidPath(l.path@))
        } else {
            let ms = env.found[(node, l.path@)];
            if ms.len() == 0 {
                Err(ErrModel::NoElementFound(l.path@))
            } else {
                match eval_many(*l.element_scheme, env, ms[0]) {
                    Err(e) => Err(e),
                    Ok(vs) => Ok(ValModel::Array(vs)),
                }
            }
        },
    }
}

/// The per-field value sequences of an object scheme under multi-extraction,
/// scanning fields in declared order: a field's failure propagates, and a
/// field whose count differs from the count fixed by the first field fails
/// with a mismatch naming that field.
pub open spec fn eval_cols(
    fields: Seq<KVPair>,
    env: QueryEnv,
    node: int,
    expected: Option<nat>,
) -> Result<Seq<Seq<ValModel>>, ErrModel>
    decreases fields, 0int, 0int,
{
    if fields.len() == 0 {
        Ok(Seq::empty())
    } else {
        match eval_many(fields[0].value, env, node) {
            Err(e) => Err(e),
            Ok(col) => if expected matches Some(n) && col.len() != n {
                Err(
                    ErrModel::MismatchedFieldCount {
                        field: fields[0].key@,
                        expected: expected->0,
                        found: col.len(),
                    },
                )
            } else {
                let n = if expected is Some {
                    expected
                } else {
                    Some(col.len())
                };
                match eval_cols(fields.drop_first(), env, node, n) {
                    Err(e) => Err(e),
                    Ok(rest) => Ok(seq![col] + rest),
                }
            },
        }
    }
}

/// The object entries built by inserting, in declared order, each field's
/// key with a value given for it: a later duplicate key overwrites in place.
pub open spec fn obj_fold(fields: Seq<KVPair>, vals: Seq<ValModel>) -> Seq<(Seq<char>, ValModel)>
    decreases fields.len(),
{
    if fields.len() == 0 {
        Seq::empty()
    } else {
        obj_update(
            obj_fold(fields.drop_last(), vals.drop_last()),
            fields.last().key@,
            vals.last(),
        )
    }
}

/// The object built for one aligned position: every field key paired with
/// that field's value at the position, inserted in declared order.
pub open spec fn row_obj(fields: Seq<KVPair>, cols: Seq<Seq<ValModel>>, i: int) -> Seq<
    (Seq<char>, ValModel),
>
    decreases fields.len(),
{
    if fields.len() == 0 {
        Seq::empty()
    } else {
        obj_update(
            row_obj(fields.drop_last(), cols.drop_last(), i),
            fields.last().key@,
            cols.last()[i],
        )
    }
}

/// The aligned objects built from equally long per-field value sequences.
pub open spec fn zip_rows(fields: Seq<KVPair>, cols: Seq<Seq<ValModel>>) -> Seq<ValModel> {
    let rows = if cols.len() == 0 {
        0
    } else {
        cols[0].len()
    };
    Seq::new(rows, |i: int| ValModel::Object(row_obj(fields, cols, i)))
}

/// Multi-extraction of one element scheme at each node of `nodes` in turn,
/// each result wrapped as one array entry; a failure propagates.
pub open spec fn eval_list(elem: Scheme, env: QueryEnv, nodes: Seq<int>) -> Result<
    Seq<ValModel>,
    ErrModel,
>
    decreases elem, 2int, nodes.len(),
{
    if nodes.len() == 0 {
        Ok(Seq::empty())
    } else {
        match eval_many(elem, env, nodes[0]) {
            Err(e) => Err(e),
            Ok(vs) => match eval_list(elem, env, nodes.drop_first()) {
                Err(e) => Err(e),
                Ok(rest) => Ok(seq![ValModel::Array(vs)] + rest),
            },
        }
    }
}

/// Multi-value extraction: what `Scheme::process_many` returns on an anchor
/// node, given the query adapter's answers.
pub open spec fn eval_many(s: Scheme, env: QueryEnv, node: int) -> Result<Seq<ValModel>, ErrModel>
    decreases s, 1int, 0int,
{
    match s {
        Scheme::Object(o) => match eval_cols(o.fields@, env, node, None) {
            Err(e) => Err(e),
            Ok(cols) => Ok(zip_rows(o.fields@, cols)),
        },
        Scheme::String(st) => if !env.valid.contains(st.path@) {
            Err(ErrModel::InvalidPath(st.path@))
        } else {
            let ms = env.found[(node, st.path@)];
            Ok(Seq::new(ms.len(), |i: int| ValModel::String(env.content[ms[i]])))
        },
        Scheme::List(l) => if !env.valid.contains(l.path@) {
            Err(ErrModel::InvalidPath(l.path@))
        } else {
            eval_list(*l.element_scheme, env, env.found[(node, l.path@)])
        },
    }
}

} // verus!
