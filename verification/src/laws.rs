//! The general laws of the scheme interpreter, proved of the model in
//! `semantics`: each law holds for every query environment, every anchor
//! node and every scheme of the stated shape.

use vstd::prelude::*;
use crate::scheme::{KVPair, ListScheme, ObjectScheme, Scheme, StringScheme};
use crate::semantics::{eval, eval_cols, eval_list, eval_many, first_err, fits_each, fits_one,
    obj_entries, obj_fold, obj_lookup, obj_update, row_obj, zip_rows, ErrModel, QueryEnv,
    ValModel};

verus! {

/// For a string scheme whose path compiles, single extraction on a node with
/// exactly one matching descendant returns that descendant's content as a
/// string leaf; with zero matching descendants it fails with "no element
/// found" naming the path.
pub proof fn law_string_single(s: StringScheme, env: QueryEnv, node: int, m: int)
    requires
        env.valid.contains(s.path@),
    ensures
        env.found[(node, s.path@)] == seq![m] ==> eval(Scheme::String(s), env, node)
            == Ok::<ValModel, ErrModel>(ValModel::String(env.content[m])),
        env.found[(node, s.path@)].len() == 0 ==> eval(Scheme::String(s), env, node)
            == Err::<ValModel, ErrModel>(ErrModel::NoElementFound(s.path@)),
{
    if env.found[(node, s.path@)] == seq![m] {
        assert(env.found[(node, s.path@)][0] == m);
    }
}

/// For a string scheme whose path compiles, multi-extraction returns one
/// string per matched descendant, in document order — and an empty sequence,
/// not a failure, when there are no matches.
pub proof fn law_string_many(s: StringScheme, env: QueryEnv, node: int)
    requires
        env.valid.contains(s.path@),
    ensures
        ({
            let ms = env.found[(node, s.path@)];
            eval_many(Scheme::String(s), env, node) == Ok::<Seq<ValModel>, ErrModel>(
                Seq::new(ms.len(), |i: int| ValModel::String(env.content[ms[i]])),
            )
        }),
{
}

/// An invalid path at the head of a string scheme fails immediately with
/// "invalid path" naming it, under single and multi extraction alike,
/// whatever the document holds.
pub proof fn law_invalid_path_string(s: StringScheme, env: QueryEnv, node: int)
    requires
        !env.valid.contains(s.path@),
    ensures
        eval(Scheme::String(s), env, node) == Err::<ValModel, ErrModel>(
            ErrModel::InvalidPath(s.path@),
        ),
        eval_many(Scheme::String(s), env, node) == Err::<Seq<ValModel>, ErrModel>(
            ErrModel::InvalidPath(s.path@),
        ),
{
}

/// An invalid path at the head of a list scheme fails immediately with
/// "invalid path" naming it, under single and multi extraction alike,
/// whatever the document holds.
pub proof fn law_invalid_path_list(l: ListScheme, env: QueryEnv, node: int)
    requires
        !env.valid.contains(l.path@),
    ensures
        eval(Scheme::List(l), env, node) == Err::<ValModel, ErrModel>(
            ErrModel::InvalidPath(l.path@),
        ),
        eval_many(Scheme::List(l), env, node) == Err::<Seq<ValModel>, ErrModel>(
            ErrModel::InvalidPath(l.path@),
        ),
{
}

/// The first failing field of an object scheme decides the outcome of single
/// extraction: when the fields before `j` succeed and field `j` fails, the
/// object fails with field `j`'s failure — a failing field is never silently
/// skipped, however well the others would do.
pub proof fn law_object_first_failure(o: ObjectScheme, env: QueryEnv, node: int, j: int)
    requires
        0 <= j < o.fields@.len(),
        forall|i: int| 0 <= i < j ==> eval((#[trigger] o.fields@[i]).value, env, node) is Ok,
        eval(o.fields@[j].value, env, node) is Err,
    ensures
        eval(Scheme::Object(o), env, node) == Err::<ValModel, ErrModel>(
            eval(o.fields@[j].value, env, node)->Err_0,
        ),
{
    lemma_first_err_at(o.fields@, env, node, j);
}

/// The first failure among an object's fields is what `first_err` returns.
proof fn lemma_first_err_at(fields: Seq<KVPair>, env: QueryEnv, node: int, j: int)
    requires
        0 <= j < fields.len(),
        forall|i: int| 0 <= i < j ==> eval((#[trigger] fields[i]).value, env, node) is Ok,
        eval(fields[j].value, env, node) is Err,
    ensures
        first_err(fields, env, node) == Some(eval(fields[j].value, env, node)->Err_0),
    decreases j,
{
    if j > 0 {
        assert(forall|i: int| 0 <= i < j - 1 ==> eval(
            (#[trigger] fields.drop_first()[i]).value,
            env,
            node,
        ) is Ok) by {
            assert(forall|i: int| 0 <= i < j - 1 ==> fields.drop_first()[i] == fields[i + 1]);
        }
        assert(fields.drop_first()[j - 1] == fields[j]);
        lemma_first_err_at(fields.drop_first(), env, node, j - 1);
    }
}

/// Looking an inserted key up finds the inserted value.
proof fn lemma_obj_update_same(
    entries: Seq<(Seq<char>, ValModel)>,
    key: Seq<char>,
    value: ValModel,
)
    ensures
        obj_lookup(obj_update(entries, key, value), key) == Some(value),
    decreases entries.len(),
{
    if entries.len() == 0 {
        let u = obj_update(entries, key, value);
        assert(u == seq![(key, value)]);
        assert(u[0] == (key, value));
    } else if entries[0].0 == key {
        let u = seq![(key, value)] + entries.drop_first();
        assert(obj_update(entries, key, value) == u);
        assert(u[0] == (key, value));
    } else {
        lemma_obj_update_other_entry(entries, key, value);
        lemma_obj_update_same(entries.drop_first(), key, value);
    }
}

/// Helper: when the head entry differs from the inserted key, lookups of the
/// inserted key pass the head.
proof fn lemma_obj_update_other_entry(
    entries: Seq<(Seq<char>, ValModel)>,
    key: Seq<char>,
    value: ValModel,
)
    requires
        entries.len() > 0,
        entries[0].0 != key,
    ensures
        obj_update(entries, key, value) == seq![entries[0]] + obj_update(
            entries.drop_first(),
            key,
            value,
        ),
        obj_lookup(obj_update(entries, key, value), key) == obj_lookup(
            obj_update(entries.drop_first(), key, value),
            key,
        ),
{
    let u = seq![entries[0]] + obj_update(entries.drop_first(), key, value);
    assert(u[0] == entries[0]);
    assert(u.drop_first() =~= obj_update(entries.drop_first(), key, value));
}

/// Looking any other key up is unchanged by an insertion.
proof fn lemma_obj_update_preserves(
    entries: Seq<(Seq<char>, ValModel)>,
    key: Seq<char>,
    value: ValModel,
    other: Seq<char>,
)
    requires
        other != key,
    ensures
        obj_lookup(obj_update(entries, key, value), other) == obj_lookup(entries, other),
    decreases entries.len(),
{
    if entries.len() == 0 {
        reveal_with_fuel(obj_lookup, 3);
        let u = obj_update(entries, key, value);
        assert(u == seq![(key, value)]);
        assert(u[0] == (key, value));
        assert(u.drop_first() =~= Seq::<(Seq<char>, ValModel)>::empty());
        assert(obj_lookup(obj_update(entries, key, value), other) == obj_lookup(entries, other));
    } else if entries[0].0 == key {
        let u = seq![(key, value)] + entries.drop_first();
        assert(obj_update(entries, key, value) == u);
        assert(u[0] == (key, value));
        assert(u.drop_first() =~= entries.drop_first());
        assert(obj_lookup(u, other) == obj_lookup(entries.drop_first(), other));
        assert(obj_lookup(entries, other) == obj_lookup(entries.drop_first(), other));
    } else {
        lemma_obj_update_other_entry(entries, key, value);
        let u = seq![entries[0]] + obj_update(entries.drop_first(), key, value);
        assert(obj_update(entries, key, value) == u);
        assert(u[0] == entries[0]);
        assert(u.drop_first() =~= obj_update(entries.drop_first(), key, value));
        lemma_obj_update_preserves(entries.drop_first(), key, value, other);
        assert(obj_lookup(entries, other) == if entries[0].0 == other {
            Some(entries[0].1)
        } else {
            obj_lookup(entries.drop_first(), other)
        });
    }
}

/// Every key that an insertion leaves present was the inserted key or was
/// already present.
proof fn lemma_obj_update_domain(
    entries: Seq<(Seq<char>, ValModel)>,
    key: Seq<char>,
    value: ValModel,
    other: Seq<char>,
)
    ensures
        obj_lookup(obj_update(entries, key, value), other) is Some <==> (other == key
            || obj_lookup(entries, other) is Some),
{
    if other == key {
        lemma_obj_update_same(entries, key, value);
    } else {
        lemma_obj_update_preserves(entries, key, value, other);
    }
}

/// When every field of an object scheme succeeds, no first failure exists.
proof fn lemma_first_err_none(fields: Seq<KVPair>, env: QueryEnv, node: int)
    requires
        forall|i: int| 0 <= i < fields.len() ==> eval(
            (#[trigger] fields[i]).value,
            env,
            node,
        ) is Ok,
    ensures
        first_err(fields, env, node) is None,
    decreases fields.len(),
{
    if fields.len() > 0 {
        assert(forall|i: int| 0 <= i < fields.len() - 1 ==> fields.drop_first()[i] == fields[i
            + 1]);
        lemma_first_err_none(fields.drop_first(), env, node);
    }
}

/// In the object built from fields with pairwise distinct keys, each key
/// holds its own field's extracted value.
proof fn lemma_obj_entries_lookup(fields: Seq<KVPair>, env: QueryEnv, node: int, j: int)
    requires
        0 <= j < fields.len(),
        forall|i1: int, i2: int| 0 <= i1 < i2 < fields.len() ==> (#[trigger] fields[i1]).key@
            != (#[trigger] fields[i2]).key@,
    ensures
        obj_lookup(obj_entries(fields, env, node), fields[j].key@) == Some(
            eval(fields[j].value, env, node)->Ok_0,
        ),
    decreases fields.len(),
{
    let prefix = fields.drop_last();
    let last = fields.last();
    if j == fields.len() - 1 {
        lemma_obj_update_same(
            obj_entries(prefix, env, node),
            last.key@,
            eval(last.value, env, node)->Ok_0,
        );
    } else {
        assert(fields[j].key@ != last.key@);
        lemma_obj_update_preserves(
            obj_entries(prefix, env, node),
            last.key@,
            eval(last.value, env, node)->Ok_0,
            fields[j].key@,
        );
        assert(forall|i: int| 0 <= i < prefix.len() ==> prefix[i] == fields[i]);
        lemma_obj_entries_lookup(prefix, env, node, j);
    }
}

/// Every key present in the built object is one of the field keys.
proof fn lemma_obj_entries_domain(fields: Seq<KVPair>, env: QueryEnv, node: int, key: Seq<char>)
    requires
        obj_lookup(obj_entries(fields, env, node), key) is Some,
    ensures
        exists|i: int| 0 <= i < fields.len() && (#[trigger] fields[i]).key@ == key,
    decreases fields.len(),
{
    if fields.len() == 0 {
    } else {
        let prefix = fields.drop_last();
        let last = fields.last();
        lemma_obj_update_domain(
            obj_entries(prefix, env, node),
            last.key@,
            eval(last.value, env, node)->Ok_0,
            key,
        );
        if key == last.key@ {
            assert(fields[fields.len() - 1].key@ == key);
        } else {
            lemma_obj_entries_domain(prefix, env, node, key);
            let i = choose|i: int| 0 <= i < prefix.len() && (#[trigger] prefix[i]).key@ == key;
            assert(fields[i].key@ == key);
        }
    }
}

/// Single extraction of an object scheme with pairwise distinct keys whose
/// fields all succeed returns an object whose key set is exactly the field
/// keys, the value under each key being that field's own single extraction —
/// fields are independent, and output order plays no part in the per-key
/// claim.
pub proof fn law_object_single(o: ObjectScheme, env: QueryEnv, node: int)
    requires
        forall|i1: int, i2: int| 0 <= i1 < i2 < o.fields@.len() ==> (#[trigger] o.fields@[i1]).key@
            != (#[trigger] o.fields@[i2]).key@,
        forall|i: int| 0 <= i < o.fields@.len() ==> eval(
            (#[trigger] o.fields@[i]).value,
            env,
            node,
        ) is Ok,
    ensures
        eval(Scheme::Object(o), env, node) == Ok::<ValModel, ErrModel>(
            ValModel::Object(obj_entries(o.fields@, env, node)),
        ),
        forall|j: int| 0 <= j < o.fields@.len() ==> obj_lookup(
            obj_entries(o.fields@, env, node),
            (#[trigger] o.fields@[j]).key@,
        ) == Some(eval(o.fields@[j].value, env, node)->Ok_0),
        forall|key: Seq<char>| #[trigger] obj_lookup(obj_entries(o.fields@, env, node), key)
            is Some ==> exists|i: int| 0 <= i < o.fields@.len() && (#[trigger] o.fields@[i]).key@
            == key,
{
    lemma_first_err_none(o.fields@, env, node);
    assert forall|j: int| 0 <= j < o.fields@.len() implies obj_lookup(
        obj_entries(o.fields@, env, node),
        (#[trigger] o.fields@[j]).key@,
    ) == Some(eval(o.fields@[j].value, env, node)->Ok_0) by {
        lemma_obj_entries_lookup(o.fields@, env, node, j);
    }
    assert forall|key: Seq<char>| #[trigger] obj_lookup(obj_entries(o.fields@, env, node), key)
        is Some implies exists|i: int| 0 <= i < o.fields@.len()
        && (#[trigger] o.fields@[i]).key@ == key by {
        lemma_obj_entries_domain(o.fields@, env, node, key);
    }
}

/// Within multi-extraction of an object scheme of two fields, when the first
/// field produces one count of values and the second another, the extraction
/// fails with a mismatched field count naming the second field, the first
/// count as expected and the second as found — and produces no output at all.
pub proof fn law_mismatched_counts(
    o: ObjectScheme,
    env: QueryEnv,
    node: int,
    c0: Seq<ValModel>,
    c1: Seq<ValModel>,
)
    requires
        o.fields@.len() == 2,
        eval_many(o.fields@[0].value, env, node) == Ok::<Seq<ValModel>, ErrModel>(c0),
        eval_many(o.fields@[1].value, env, node) == Ok::<Seq<ValModel>, ErrModel>(c1),
        c0.len() != c1.len(),
    ensures
        eval_many(Scheme::Object(o), env, node) == Err::<Seq<ValModel>, ErrModel>(
            ErrModel::MismatchedFieldCount {
                field: o.fields@[1].key@,
                expected: c0.len(),
                found: c1.len(),
            },
        ),
{
    reveal_with_fuel(eval_cols, 3);
    let rest = o.fields@.drop_first();
    assert(rest[0] == o.fields@[1]);
    let e = ErrModel::MismatchedFieldCount {
        field: o.fields@[1].key@,
        expected: c0.len(),
        found: c1.len(),
    };
    assert(rest.len() == 1);
    assert(eval_many(rest[0].value, env, node) == Ok::<Seq<ValModel>, ErrModel>(c1));
    assert(eval_cols(rest, env, node, Some(c0.len())) == Err::<Seq<Seq<ValModel>>, ErrModel>(e));
    assert(eval_cols(o.fields@, env, node, None) == Err::<Seq<Seq<ValModel>>, ErrModel>(e));
}

/// When every field of an object scheme produces exactly the values of its
/// column, all columns `n` long, the per-field scan returns those columns.
proof fn lemma_eval_cols_ok(
    fields: Seq<KVPair>,
    env: QueryEnv,
    node: int,
    cols: Seq<Seq<ValModel>>,
    n: nat,
    expected: Option<nat>,
)
    requires
        cols.len() == fields.len(),
        forall|j: int| 0 <= j < fields.len() ==> eval_many((#[trigger] fields[j]).value, env, node)
            == Ok::<Seq<ValModel>, ErrModel>(cols[j]),
        forall|j: int| 0 <= j < cols.len() ==> (#[trigger] cols[j]).len() == n,
        expected is None || expected == Some(n),
    ensures
        eval_cols(fields, env, node, expected) == Ok::<Seq<Seq<ValModel>>, ErrModel>(cols),
    decreases fields.len(),
{
    if fields.len() == 0 {
        assert(cols =~= Seq::<Seq<ValModel>>::empty());
    } else {
        let rest = fields.drop_first();
        let crest = cols.drop_first();
        assert(forall|j: int| 0 <= j < rest.len() ==> rest[j] == fields[j + 1]);
        assert(forall|j: int| 0 <= j < crest.len() ==> crest[j] == cols[j + 1]);
        lemma_eval_cols_ok(rest, env, node, crest, n, Some(n));
        assert(seq![cols[0]] + crest =~= cols);
    }
}

/// In the object built for one aligned position from fields with pairwise
/// distinct keys, each key holds its own field's value at that position.
proof fn lemma_row_lookup(fields: Seq<KVPair>, cols: Seq<Seq<ValModel>>, i: int, j: int)
    requires
        cols.len() == fields.len(),
        0 <= j < fields.len(),
        forall|i1: int, i2: int| 0 <= i1 < i2 < fields.len() ==> (#[trigger] fields[i1]).key@
            != (#[trigger] fields[i2]).key@,
    ensures
        obj_lookup(row_obj(fields, cols, i), fields[j].key@) == Some(cols[j][i]),
    decreases fields.len(),
{
    let prefix = fields.drop_last();
    let cprefix = cols.drop_last();
    if j == fields.len() - 1 {
        lemma_obj_update_same(row_obj(prefix, cprefix, i), fields.last().key@, cols.last()[i]);
        assert(cols.last() == cols[j]);
    } else {
        assert(fields[j].key@ != fields.last().key@);
        lemma_obj_update_preserves(
            row_obj(prefix, cprefix, i),
            fields.last().key@,
            cols.last()[i],
            fields[j].key@,
        );
        assert(forall|k: int| 0 <= k < prefix.len() ==> prefix[k] == fields[k]);
        assert(forall|k: int| 0 <= k < cprefix.len() ==> cprefix[k] == cols[k]);
        lemma_row_lookup(prefix, cprefix, i, j);
    }
}

/// Multi-extraction of an object scheme with pairwise distinct keys whose
/// fields all produce exactly `n` values returns exactly `n` objects, and the
/// i-th object holds, under every field's key, the i-th value of that field's
/// own sequence: alignment is by position, never by value.
pub proof fn law_aligned_object_many(
    o: ObjectScheme,
    env: QueryEnv,
    node: int,
    cols: Seq<Seq<ValModel>>,
    n: nat,
)
    requires
        o.fields@.len() > 0,
        cols.len() == o.fields@.len(),
        forall|j: int| 0 <= j < o.fields@.len() ==> eval_many(
            (#[trigger] o.fields@[j]).value,
            env,
            node,
        ) == Ok::<Seq<ValModel>, ErrModel>(cols[j]),
        forall|j: int| 0 <= j < cols.len() ==> (#[trigger] cols[j]).len() == n,
        forall|i1: int, i2: int| 0 <= i1 < i2 < o.fields@.len() ==> (#[trigger] o.fields@[i1]).key@
            != (#[trigger] o.fields@[i2]).key@,
    ensures
        eval_many(Scheme::Object(o), env, node) == Ok::<Seq<ValModel>, ErrModel>(
            zip_rows(o.fields@, cols),
        ),
        zip_rows(o.fields@, cols).len() == n,
        forall|i: int| 0 <= i < n ==> zip_rows(o.fields@, cols)[i] == ValModel::Object(
            row_obj(o.fields@, cols, i),
        ),
        forall|i: int, j: int|
            #![trigger obj_lookup(row_obj(o.fields@, cols, i), o.fields@[j].key@)]
            0 <= i < n && 0 <= j < o.fields@.len() ==> obj_lookup(
                row_obj(o.fields@, cols, i),
                o.fields@[j].key@,
            ) == Some(cols[j][i]),
{
    lemma_eval_cols_ok(o.fields@, env, node, cols, n, None);
    assert forall|i: int, j: int| 0 <= i < n && 0 <= j < o.fields@.len() implies obj_lookup(
        row_obj(o.fields@, cols, i),
        o.fields@[j].key@,
    ) == Some(cols[j][i]) by {
        lemma_row_lookup(o.fields@, cols, i, j);
    }
}

/// In the object folded from fields with pairwise distinct keys and one
/// value per field, each key holds its own field's value.
proof fn lemma_obj_fold_lookup_at(fields: Seq<KVPair>, vals: Seq<ValModel>, j: int)
    requires
        vals.len() == fields.len(),
        0 <= j < fields.len(),
        forall|i1: int, i2: int| 0 <= i1 < i2 < fields.len() ==> (#[trigger] fields[i1]).key@
            != (#[trigger] fields[i2]).key@,
    ensures
        obj_lookup(obj_fold(fields, vals), fields[j].key@) == Some(vals[j]),
    decreases fields.len(),
{
    let prefix = fields.drop_last();
    let vprefix = vals.drop_last();
    if j == fields.len() - 1 {
        lemma_obj_update_same(obj_fold(prefix, vprefix), fields.last().key@, vals.last());
        assert(vals.last() == vals[j]);
    } else {
        assert(fields[j].key@ != fields.last().key@);
        lemma_obj_update_preserves(
            obj_fold(prefix, vprefix),
            fields.last().key@,
            vals.last(),
            fields[j].key@,
        );
        assert(forall|k: int| 0 <= k < prefix.len() ==> prefix[k] == fields[k]);
        assert(forall|k: int| 0 <= k < vprefix.len() ==> vprefix[k] == vals[k]);
        lemma_obj_fold_lookup_at(prefix, vprefix, j);
    }
}

/// Every key present in a folded object is one of the field keys.
proof fn lemma_obj_fold_domain(fields: Seq<KVPair>, vals: Seq<ValModel>, key: Seq<char>)
    requires
        obj_lookup(obj_fold(fields, vals), key) is Some,
    ensures
        exists|j: int| 0 <= j < fields.len() && (#[trigger] fields[j]).key@ == key,
    decreases fields.len(),
{
    if fields.len() == 0 {
    } else {
        let prefix = fields.drop_last();
        let vprefix = vals.drop_last();
        lemma_obj_update_domain(obj_fold(prefix, vprefix), fields.last().key@, vals.last(), key);
        if key == fields.last().key@ {
            assert(fields[fields.len() - 1].key@ == key);
        } else {
            lemma_obj_fold_domain(prefix, vprefix, key);
            let j = choose|j: int| 0 <= j < prefix.len() && (#[trigger] prefix[j]).key@ == key;
            assert(fields[j].key@ == key);
        }
    }
}

/// The object folded from fields with pairwise distinct keys and one value
/// per field — the object that single extraction of an object scheme builds
/// from its fields' results — holds exactly the field keys, and under each
/// key that field's own value.
pub proof fn law_obj_fold(fields: Seq<KVPair>, vals: Seq<ValModel>)
    requires
        vals.len() == fields.len(),
        forall|i1: int, i2: int| 0 <= i1 < i2 < fields.len() ==> (#[trigger] fields[i1]).key@
            != (#[trigger] fields[i2]).key@,
    ensures
        forall|j: int| 0 <= j < fields.len() ==> obj_lookup(
            obj_fold(fields, vals),
            (#[trigger] fields[j]).key@,
        ) == Some(vals[j]),
        forall|key: Seq<char>| #[trigger] obj_lookup(obj_fold(fields, vals), key) is Some
            ==> exists|j: int| 0 <= j < fields.len() && (#[trigger] fields[j]).key@ == key,
{
    assert forall|j: int| 0 <= j < fields.len() implies obj_lookup(
        obj_fold(fields, vals),
        (#[trigger] fields[j]).key@,
    ) == Some(vals[j]) by {
        lemma_obj_fold_lookup_at(fields, vals, j);
    }
    assert forall|key: Seq<char>| #[trigger] obj_lookup(obj_fold(fields, vals), key)
        is Some implies exists|j: int| 0 <= j < fields.len() && (#[trigger] fields[j]).key@
        == key by {
        lemma_obj_fold_domain(fields, vals, key);
    }
}

/// Multi-extraction of one element scheme at each of a sequence of nodes
/// yields one array entry per node, in order, each the element scheme's own
/// multi-extraction there.
proof fn lemma_eval_list_map(elem: Scheme, env: QueryEnv, nodes: Seq<int>)
    requires
        forall|i: int| 0 <= i < nodes.len() ==> eval_many(elem, env, #[trigger] nodes[i]) is Ok,
    ensures
        eval_list(elem, env, nodes) == Ok::<Seq<ValModel>, ErrModel>(
            Seq::new(
                nodes.len(),
                |i: int| ValModel::Array(eval_many(elem, env, nodes[i])->Ok_0),
            ),
        ),
    decreases nodes.len(),
{
    let mapped = Seq::new(
        nodes.len(),
        |i: int| ValModel::Array(eval_many(elem, env, nodes[i])->Ok_0),
    );
    if nodes.len() == 0 {
        assert(mapped =~= Seq::<ValModel>::empty());
    } else {
        let rest = nodes.drop_first();
        assert(forall|i: int| 0 <= i < rest.len() ==> rest[i] == nodes[i + 1]);
        lemma_eval_list_map(elem, env, rest);
        let vs = eval_many(elem, env, nodes[0])->Ok_0;
        assert(seq![ValModel::Array(vs)] + Seq::new(
            rest.len(),
            |i: int| ValModel::Array(eval_many(elem, env, rest[i])->Ok_0),
        ) =~= mapped);
    }
}

/// Round trip through nested lists: single extraction of a list-of-list
/// scheme over string leaves returns one array per inner-path match under
/// the outer anchor, the i-th holding one extracted leaf per innermost match
/// within that container, all in document order.
pub proof fn law_list_of_lists(
    outer: ListScheme,
    inner: ListScheme,
    leaf: StringScheme,
    env: QueryEnv,
    node: int,
)
    requires
        *outer.element_scheme == Scheme::List(inner),
        *inner.element_scheme == Scheme::String(leaf),
        env.valid.contains(outer.path@),
        env.valid.contains(inner.path@),
        env.valid.contains(leaf.path@),
        env.found[(node, outer.path@)].len() > 0,
    ensures
        ({
            let anchor = env.found[(node, outer.path@)][0];
            let containers = env.found[(anchor, inner.path@)];
            eval(Scheme::List(outer), env, node) == Ok::<ValModel, ErrModel>(
                ValModel::Array(
                    Seq::new(
                        containers.len(),
                        |i: int| ValModel::Array(
                            {
                                let leaves = env.found[(containers[i], leaf.path@)];
                                Seq::new(
                                    leaves.len(),
                                    |k: int| ValModel::String(env.content[leaves[k]]),
                                )
                            },
                        ),
                    ),
                ),
            )
        }),
{
    let anchor = env.found[(node, outer.path@)][0];
    let containers = env.found[(anchor, inner.path@)];
    lemma_eval_list_map(Scheme::String(leaf), env, containers);
    let mapped = Seq::new(
        containers.len(),
        |i: int| ValModel::Array(eval_many(Scheme::String(leaf), env, containers[i])->Ok_0),
    );
    let want = Seq::new(
        containers.len(),
        |i: int| ValModel::Array(
            {
                let leaves = env.found[(containers[i], leaf.path@)];
                Seq::new(leaves.len(), |k: int| ValModel::String(env.content[leaves[k]]))
            },
        ),
    );
    assert forall|i: int| 0 <= i < containers.len() implies mapped[i] == want[i] by {
        assert(eval_many(Scheme::String(leaf), env, containers[i]) == Ok::<
            Seq<ValModel>,
            ErrModel,
        >(
            Seq::new(
                env.found[(containers[i], leaf.path@)].len(),
                |k: int| ValModel::String(env.content[env.found[(containers[i], leaf.path@)][k]]),
            ),
        ));
    }
    assert(mapped =~= want);
}

/// Every value of a successful multi-extraction has the shape of one aligned
/// result of the scheme.
pub proof fn law_eval_many_fits(s: Scheme, env: QueryEnv, node: int)
    requires
        eval_many(s, env, node) is Ok,
    ensures
        forall|i: int| 0 <= i < eval_many(s, env, node)->Ok_0.len() ==> fits_each(
            s,
            #[trigger] eval_many(s, env, node)->Ok_0[i],
        ),
    decreases s, 1int, 0int,
{
    match s {
        Scheme::Object(_) => {
        }
        Scheme::String(_) => {
        }
        Scheme::List(l) => {
            lemma_eval_list_fits(*l.element_scheme, env, env.found[(node, l.path@)]);
        }
    }
}

/// Each entry that multi-extraction of a list scheme builds from a sequence
/// of anchor nodes is an array of values that fit the element scheme.
proof fn lemma_eval_list_fits(elem: Scheme, env: QueryEnv, nodes: Seq<int>)
    requires
        eval_list(elem, env, nodes) is Ok,
    ensures
        forall|i: int| 0 <= i < eval_list(elem, env, nodes)->Ok_0.len()
            ==> ((#[trigger] eval_list(elem, env, nodes)->Ok_0[i]) matches ValModel::Array(vs)
            && (forall|k: int| 0 <= k < vs.len() ==> fits_each(elem, #[trigger] vs[k]))),
    decreases elem, 2int, nodes.len(),
{
    if nodes.len() > 0 {
        law_eval_many_fits(elem, env, nodes[0]);
        lemma_eval_list_fits(elem, env, nodes.drop_first());
        let vs0 = eval_many(elem, env, nodes[0])->Ok_0;
        let rest = eval_list(elem, env, nodes.drop_first())->Ok_0;
        assert(eval_list(elem, env, nodes)->Ok_0 == seq![ValModel::Array(vs0)] + rest);
        assert(forall|i: int| 1 <= i < rest.len() + 1 ==> (seq![ValModel::Array(vs0)] + rest)[i]
            == rest[i - 1]);
    }
}

/// Single extraction never produces malformed output: a successful value has
/// the shape the scheme promises, at every nesting depth.
pub proof fn law_eval_fits(s: Scheme, env: QueryEnv, node: int)
    requires
        eval(s, env, node) is Ok,
    ensures
        fits_one(s, eval(s, env, node)->Ok_0),
    decreases s, 1int, 0int,
{
    match s {
        Scheme::Object(_) => {
        }
        Scheme::String(_) => {
        }
        Scheme::List(l) => {
            let ms = env.found[(node, l.path@)];
            law_eval_many_fits(*l.element_scheme, env, ms[0]);
        }
    }
}

} // verus!
