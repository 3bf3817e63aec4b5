//! The output value: a JSON-like tree of strings, arrays and ordered objects.
//! The engine never produces numbers, booleans or nulls.

use vstd::prelude::*;
use crate::semantics::{obj_update, ValModel};

verus! {

/// An extracted value, built bottom-up during interpretation.
#[derive(Debug)]
pub enum Value {
    /// A string leaf: the inner content of a matched node.
    String(String),
    /// An ordered sequence of values.
    Array(Vec<Value>),
    /// An ordered mapping with string keys. Keys are unique: inserting an
    /// existing key overwrites its value in place.
    Object(Vec<(String, Value)>),
}

impl Value {
    /// The mathematical model of the value.
    pub open spec fn model(self) -> ValModel
        decreases self, 1int,
    {
        match self {
            Value::String(s) => ValModel::String(s@),
            Value::Array(vs) => ValModel::Array(models_of(vs@)),
            Value::Object(entries) => ValModel::Object(entry_models_of(entries@)),
        }
    }
}

/// The models of a sequence of values, in order.
pub open spec fn models_of(vs: Seq<Value>) -> Seq<ValModel>
    decreases vs, 0int,
{
    if vs.len() == 0 {
        Seq::empty()
    } else {
        seq![vs[0].model()] + models_of(vs.drop_first())
    }
}

/// The models of a sequence of per-field columns.
pub open spec fn col_models(columns: Seq<Vec<Value>>) -> Seq<Seq<ValModel>> {
    Seq::new(columns.len(), |j: int| models_of(columns[j]@))
}

/// The models of a sequence of object entries, in order.
pub open spec fn entry_models_of(entries: Seq<(String, Value)>) -> Seq<(Seq<char>, ValModel)>
    decreases entries, 0int,
{
    if entries.len() == 0 {
        Seq::empty()
    } else {
        seq![(entries[0].0@, entries[0].1.model())] + entry_models_of(entries.drop_first())
    }
}

/// `models_of` maps each value to its model, position by position.
pub proof fn lemma_models_of(vs: Seq<Value>)
    ensures
        models_of(vs).len() == vs.len(),
        forall|i: int| 0 <= i < vs.len() ==> #[trigger] models_of(vs)[i] == vs[i].model(),
    decreases vs.len(),
{
    if vs.len() > 0 {
        lemma_models_of(vs.drop_first());
        assert forall|i: int| 0 <= i < vs.len() implies #[trigger] models_of(vs)[i]
            == vs[i].model() by {
            let m = seq![vs[0].model()] + models_of(vs.drop_first());
            assert(models_of(vs) == m);
            if i == 0 {
                assert(m[0] == vs[0].model());
            } else {
                assert(m[i] == models_of(vs.drop_first())[i - 1]);
                assert(vs.drop_first()[i - 1] == vs[i]);
            }
        }
    }
}

/// Appending an entry whose key is absent folds as an insertion of its
/// model.
proof fn lemma_entry_fold_push(entries: Seq<(String, Value)>, pair: (String, Value))
    requires
        forall|k: int| 0 <= k < entries.len() ==> (#[trigger] entries[k]).0@ != pair.0@,
    ensures
        entry_models_of(entries.push(pair)) == obj_update(
            entry_models_of(entries),
            pair.0@,
            pair.1.model(),
        ),
    decreases entries.len(),
{
    let p = entries.push(pair);
    if entries.len() == 0 {
        assert(p[0] == pair);
        assert(p.drop_first() =~= Seq::<(String, Value)>::empty());
        assert(entry_models_of(entries) == Seq::<(Seq<char>, ValModel)>::empty());
        assert(obj_update(entry_models_of(entries), pair.0@, pair.1.model()) == seq![
            (pair.0@, pair.1.model()),
        ]);
        assert(entry_models_of(p) == seq![(p[0].0@, p[0].1.model())] + entry_models_of(
            p.drop_first(),
        ));
        assert(entry_models_of(p.drop_first()) == Seq::<(Seq<char>, ValModel)>::empty());
        assert(entry_models_of(p) =~= obj_update(
            entry_models_of(entries),
            pair.0@,
            pair.1.model(),
        ));
    } else {
        assert(p[0] == entries[0]);
        assert(p.drop_first() =~= entries.drop_first().push(pair));
        assert(forall|k: int|
            0 <= k < entries.drop_first().len() ==> (#[trigger] entries.drop_first()[k]).0@
                != pair.0@) by {
            assert(forall|k: int| 0 <= k < entries.len() - 1 ==> entries.drop_first()[k]
                == entries[k + 1]);
        }
        lemma_entry_fold_push(entries.drop_first(), pair);
        let m0 = (entries[0].0@, entries[0].1.model());
        let rest = entry_models_of(entries.drop_first());
        assert(entry_models_of(entries) == seq![m0] + rest);
        assert((seq![m0] + rest)[0] == m0);
        assert((seq![m0] + rest).drop_first() =~= rest);
        assert(entry_models_of(p) == seq![m0] + entry_models_of(p.drop_first()));
        assert(entry_models_of(entries.push(pair)) =~= obj_update(
            entry_models_of(entries),
            pair.0@,
            pair.1.model(),
        ));
    }
}

/// Replacing the first entry that carries a key folds as an insertion of its
/// model.
proof fn lemma_entry_fold_update(entries: Seq<(String, Value)>, i: int, pair: (String, Value))
    requires
        0 <= i < entries.len(),
        forall|k: int| 0 <= k < i ==> (#[trigger] entries[k]).0@ != pair.0@,
        entries[i].0@ == pair.0@,
    ensures
        entry_models_of(entries.update(i, pair)) == obj_update(
            entry_models_of(entries),
            pair.0@,
            pair.1.model(),
        ),
    decreases i,
{
    let u = entries.update(i, pair);
    let m0 = (entries[0].0@, entries[0].1.model());
    let rest = entry_models_of(entries.drop_first());
    assert(entry_models_of(entries) == seq![m0] + rest);
    assert((seq![m0] + rest)[0] == m0);
    assert((seq![m0] + rest).drop_first() =~= rest);
    if i == 0 {
        assert(u[0] == pair);
        assert(u.drop_first() =~= entries.drop_first());
        assert(entry_models_of(u) == seq![(pair.0@, pair.1.model())] + entry_models_of(
            u.drop_first(),
        ));
        assert(entry_models_of(u) =~= obj_update(
            entry_models_of(entries),
            pair.0@,
            pair.1.model(),
        ));
    } else {
        assert(u[0] == entries[0]);
        assert(u.drop_first() =~= entries.drop_first().update(i - 1, pair));
        assert(forall|k: int| 0 <= k < entries.len() - 1 ==> entries.drop_first()[k] == entries[k
            + 1]);
        lemma_entry_fold_update(entries.drop_first(), i - 1, pair);
        assert(entry_models_of(u) == seq![m0] + entry_models_of(u.drop_first()));
        assert(entry_models_of(u) =~= obj_update(
            entry_models_of(entries),
            pair.0@,
            pair.1.model(),
        ));
    }
}

/// Inserts `(key, value)` into an ordered object: if the key is already
/// present its value is replaced in place, otherwise the entry is appended —
/// exactly `obj_update` of the model: keys stay unique, a later insertion
/// under the same key overwrites in place, and declared order is kept.
#[verifier::loop_isolation(false)]
pub fn obj_insert(entries: &mut Vec<(String, Value)>, key: String, value: Value)
    ensures
        entry_models_of(final(entries)@) == obj_update(
            entry_models_of(old(entries)@),
            key@,
            value.model(),
        ),
{
    let pair = (key, value);
    let ghost gp = pair;
    let ghost orig = entries@;
    let mut i: usize = 0;
    while i < entries.len()
        invariant
            i <= entries@.len(),
            entries@ == orig,
            forall|k: int| 0 <= k < i ==> (#[trigger] orig[k]).0@ != gp.0@,
        decreases entries@.len() - i,
    {
        if entries[i].0 == pair.0 {
            entries.set(i, pair);
            proof {
                lemma_entry_fold_update(orig, i as int, gp);
            }
            return ;
        }
        i += 1;
    }
    entries.push(pair);
    proof {
        lemma_entry_fold_push(orig, gp);
    }
}

} // verus!
