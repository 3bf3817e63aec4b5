//! The scheme interpreter: `process` extracts a single value rooted at one
//! document node, `process_many` extracts a position-aligned sequence of
//! values. The two are mutually recursive exactly at list boundaries: a list
//! scheme is the one place where "exactly one" becomes "however many".

use vstd::prelude::*;
use scraper::ElementRef;
use crate::errors::Error;
use crate::query::{compile_path, inner_html, parse_document, path_compiles, root_element,
    select_all};
use crate::scheme::{KVPair, Scheme};
use crate::semantics::{fits_each, fits_one, obj_fold, row_obj, zip_rows, ValModel};
use crate::value::{col_models, entry_models_of, lemma_models_of, models_of, obj_insert, Value};

verus! {

/// Validates one field's value count against the count the first field
/// fixed: equality passes, and anything else is exactly the "mismatched
/// field count" failure naming the field, the fixed count and the found
/// count.
fn mismatch_check(key: &String, expected: usize, found: usize) -> (r: Option<Error>)
    ensures
        r is None <==> expected == found,
        r matches Some(e) ==> (e matches Error::MismatchedFieldCount {
            field,
            expected: want,
            found: got,
        } && field@ == key@ && want == expected && got == found),
{
    if expected != found {
        Some(Error::MismatchedFieldCount { field: key.clone(), expected, found })
    } else {
        None
    }
}

/// The mandatory-match rule of single extraction: zero matches for a path is
/// exactly the "no element found" failure naming that path, and any match at
/// all satisfies the requirement.
fn require_match(path: &String, count: usize) -> (r: Option<Error>)
    ensures
        r is None <==> count > 0,
        r matches Some(e) ==> (e matches Error::NoElementFound { path: p } && p@ == path@),
{
    if count == 0 {
        Some(Error::NoElementFound { path: path.clone() })
    } else {
        None
    }
}

/// The inner content of each matched node, one string per match, in match
/// order.
#[verifier::loop_isolation(false)]
fn contents_of(matches: &Vec<ElementRef<'_>>) -> (r: Vec<String>)
    ensures
        r@.len() == matches@.len(),
{
    let mut r: Vec<String> = Vec::new();
    let mut i: usize = 0;
    while i < matches.len()
        invariant
            i <= matches@.len(),
            r@.len() == i,
        decreases matches@.len() - i,
    {
        r.push(inner_html(&matches[i]));
        i += 1;
    }
    r
}

/// One string leaf per content, in order: entry i is exactly content i.
#[verifier::loop_isolation(false)]
fn leaf_values(contents: Vec<String>) -> (r: Vec<Value>)
    ensures
        r@.len() == contents@.len(),
        forall|i: int| 0 <= i < r@.len() ==> #[trigger] r@[i] == Value::String(contents@[i]),
{
    let ghost orig = contents@;
    let mut contents = contents;
    let mut r: Vec<Value> = Vec::new();
    proof {
        assert(orig.skip(0) =~= orig);
    }
    while contents.len() > 0
        invariant
            r@.len() + contents@.len() == orig.len(),
            contents@ == orig.skip(r@.len() as int),
            forall|i: int| 0 <= i < r@.len() ==> #[trigger] r@[i] == Value::String(orig[i]),
        decreases contents@.len(),
    {
        let ghost k = r@.len() as int;
        let s = contents.remove(0);
        proof {
            assert(s == orig.skip(k)[0]);
            assert(orig.skip(k)[0] == orig[k]);
        }
        r.push(Value::String(s));
        proof {
            assert(contents@ =~= orig.skip(k + 1));
        }
    }
    r
}

/// Builds one output object per aligned position from equally long per-field
/// columns: exactly `row_obj` of the model — the i-th object holds, under
/// every field's key in declared order (a later duplicate key overwriting in
/// place), the i-th value of that field's column.
#[verifier::loop_isolation(false)]
fn zip_columns(fields: &Vec<KVPair>, columns: Vec<Vec<Value>>) -> (objects: Vec<Value>)
    requires
        columns@.len() == fields@.len(),
        columns@.len() > 0,
        forall|j: int| 0 <= j < columns@.len() ==> (#[trigger] columns@[j])@.len()
            == columns@[0]@.len(),
    ensures
        objects@.len() == columns@[0]@.len(),
        forall|i: int| 0 <= i < objects@.len() ==> (#[trigger] objects@[i]).model()
            == ValModel::Object(row_obj(fields@, col_models(columns@), i)),
{
    let ghost cm = col_models(columns@);
    let row_count = columns[0].len();
    proof {
        assert forall|j: int| 0 <= j < cm.len() implies (#[trigger] cm[j]).len() == row_count by {
            lemma_models_of(columns@[j]@);
        }
        assert forall|j: int| 0 <= j < columns@.len() implies models_of(
            (#[trigger] columns@[j])@,
        ) == cm[j].skip(0) by {
            assert(cm[j].skip(0) =~= cm[j]);
        }
    }
    let mut columns = columns;
    let mut objects: Vec<Value> = Vec::new();
    let mut i: usize = 0;
    while i < row_count
        invariant
            i <= row_count,
            columns@.len() == fields@.len(),
            cm.len() == fields@.len(),
            forall|j: int| 0 <= j < cm.len() ==> (#[trigger] cm[j]).len() == row_count,
            forall|j: int| 0 <= j < columns@.len() ==> models_of((#[trigger] columns@[j])@)
                == cm[j].skip(i as int),
            objects@.len() == i,
            forall|r: int| 0 <= r < i ==> (#[trigger] objects@[r]).model() == ValModel::Object(
                row_obj(fields@, cm, r),
            ),
        decreases row_count - i,
    {
        let mut entries: Vec<(String, Value)> = Vec::new();
        let mut j2: usize = 0;
        proof {
            assert(fields@.take(0) =~= Seq::<KVPair>::empty());
            assert(cm.take(0) =~= Seq::<Seq<ValModel>>::empty());
            assert(entry_models_of(entries@) =~= row_obj(fields@.take(0), cm.take(0), i as int));
        }
        while j2 < columns.len()
            invariant
                j2 <= columns@.len(),
                i < row_count,
                columns@.len() == fields@.len(),
                cm.len() == fields@.len(),
                forall|j: int| 0 <= j < cm.len() ==> (#[trigger] cm[j]).len() == row_count,
                forall|j: int| 0 <= j < j2 ==> models_of((#[trigger] columns@[j])@) == cm[j].skip(
                    i as int + 1,
                ),
                forall|j: int| j2 <= j < columns@.len() ==> models_of((#[trigger] columns@[j])@)
                    == cm[j].skip(i as int),
                entry_models_of(entries@) == row_obj(
                    fields@.take(j2 as int),
                    cm.take(j2 as int),
                    i as int,
                ),
            decreases columns@.len() - j2,
        {
            let ghost colv = columns@[j2 as int]@;
            let v = columns[j2].remove(0);
            proof {
                lemma_models_of(colv);
                assert(v.model() == models_of(colv)[0]);
                assert(models_of(colv) == cm[j2 as int].skip(i as int));
                assert(cm[j2 as int].skip(i as int)[0] == cm[j2 as int][i as int]);
                let ncol = columns@[j2 as int]@;
                assert(ncol =~= colv.drop_first());
                assert(models_of(colv) == seq![colv[0].model()] + models_of(colv.drop_first()));
                assert(models_of(ncol) =~= models_of(colv).drop_first());
                assert(models_of(ncol) =~= cm[j2 as int].skip(i as int + 1));
            }
            obj_insert(&mut entries, fields[j2].key.clone(), v);
            proof {
                assert(fields@.take(j2 as int + 1).drop_last() =~= fields@.take(j2 as int));
                assert(cm.take(j2 as int + 1).drop_last() =~= cm.take(j2 as int));
                assert(fields@.take(j2 as int + 1).last() == fields@[j2 as int]);
                assert(cm.take(j2 as int + 1).last() == cm[j2 as int]);
                assert(entry_models_of(entries@) == row_obj(
                    fields@.take(j2 as int + 1),
                    cm.take(j2 as int + 1),
                    i as int,
                ));
            }
            j2 += 1;
        }
        proof {
            assert(fields@.take(fields@.len() as int) =~= fields@);
            assert(cm.take(cm.len() as int) =~= cm);
        }
        let row = Value::Object(entries);
        proof {
            assert(row.model() == ValModel::Object(row_obj(fields@, cm, i as int)));
        }
        objects.push(row);
        i += 1;
    }
    objects
}

impl Scheme {
    /// Parses `html` as a document and extracts a single value rooted at its
    /// root element.
    pub fn process_string(&self, html: &str) -> (r: Result<Value, Error>)
        requires
            self.wf(),
        ensures
            r matches Err(e) ==> !(e is NotImplemented),
            r matches Err(Error::InvalidPath { path }) ==> self.contains_path(path@)
                && !path_compiles(path@),
            r matches Err(Error::NoElementFound { path }) ==> self.contains_path(path@)
                && path_compiles(path@),
            r matches Err(Error::MismatchedFieldCount { field, expected, found })
                ==> self.has_object_key(field@) && expected != found,
            self.doomed() ==> r is Err,
            self.first_path_invalid() ==> (r matches Err(Error::InvalidPath { path })
                && self.first_path() == Some(path@)),
            r matches Ok(v) ==> fits_one(*self, v.model()),
            self matches Scheme::String(st) ==> (path_compiles(st.path@) ==> (r matches Err(e)
                ==> (e matches Error::NoElementFound { path } && path@ == st.path@))),
            r matches Ok(v) ==> (self matches Scheme::Object(o) ==> exists|vals: Seq<ValModel>|
                vals.len() == o.fields@.len() && (forall|j: int|
                    0 <= j < vals.len() ==> fits_one(o.fields@[j].value, #[trigger] vals[j]))
                    && v.model() == ValModel::Object(#[trigger] obj_fold(o.fields@, vals))),
    {
        let doc = parse_document(html);
        let root = root_element(&doc);
        self.process(&root)
    }

    /// Single-value extraction, anchored at one document node, by structural
    /// recursion on the scheme:
    /// - an object scheme evaluates each field in declared order against the
    ///   same anchor and collects the results under the field keys;
    /// - a string scheme takes the first descendant matching its path and
    ///   yields that node's inner content, failing when there is none;
    /// - a list scheme takes the first descendant matching its path and
    ///   yields one array entry per aligned result of its element scheme
    ///   under that node, failing when there is none.
    ///
    /// Any selector path named in an `InvalidPath` failure is a path of the
    /// scheme that does not compile; when the first mandatory path in
    /// evaluation order does not compile, the result is exactly that path's
    /// `InvalidPath`, before the document can matter; and a scheme with any
    /// mandatory path that does not compile fails on every document
    /// (`doomed`). A successful object result is exactly the in-order
    /// insertion fold (`obj_fold`) of one fitting value per field: the key
    /// set, declared order and last-write-wins overwriting are pinned. The
    /// reserved `NotImplemented` failure is never produced.
    #[verifier::loop_isolation(false)]
    pub fn process(&self, element: &ElementRef<'_>) -> (r: Result<Value, Error>)
        requires
            self.wf(),
        ensures
            r matches Err(e) ==> !(e is NotImplemented),
            r matches Err(Error::InvalidPath { path }) ==> self.contains_path(path@)
                && !path_compiles(path@),
            r matches Err(Error::NoElementFound { path }) ==> self.contains_path(path@)
                && path_compiles(path@),
            r matches Err(Error::MismatchedFieldCount { field, expected, found })
                ==> self.has_object_key(field@) && expected != found,
            self.doomed() ==> r is Err,
            self.first_path_invalid() ==> (r matches Err(Error::InvalidPath { path })
                && self.first_path() == Some(path@)),
            r matches Ok(v) ==> fits_one(*self, v.model()),
            self matches Scheme::String(st) ==> (path_compiles(st.path@) ==> (r matches Err(e)
                ==> (e matches Error::NoElementFound { path } && path@ == st.path@))),
            r matches Ok(v) ==> (self matches Scheme::Object(o) ==> exists|vals: Seq<ValModel>|
                vals.len() == o.fields@.len() && (forall|j: int|
                    0 <= j < vals.len() ==> fits_one(o.fields@[j].value, #[trigger] vals[j]))
                    && v.model() == ValModel::Object(#[trigger] obj_fold(o.fields@, vals))),
        decreases self,
    {
        match self {
            Scheme::Object(o) => {
                let mut entries: Vec<(String, Value)> = Vec::new();
                let ghost mut vals: Seq<ValModel> = Seq::empty();
                let mut j: usize = 0;
                proof {
                    assert(o.fields@.take(0) =~= Seq::<KVPair>::empty());
                    assert(entry_models_of(entries@) =~= obj_fold(o.fields@.take(0), vals));
                }
                while j < o.fields.len()
                    invariant
                        j <= o.fields@.len(),
                        forall|i: int| 0 <= i < j ==> !(#[trigger] o.fields@[i].value).doomed(),
                        j > 0 ==> !self.first_path_invalid(),
                        vals.len() == j,
                        forall|jj: int| 0 <= jj < j ==> fits_one(
                            o.fields@[jj].value,
                            #[trigger] vals[jj],
                        ),
                        entry_models_of(entries@) == obj_fold(o.fields@.take(j as int), vals),
                    decreases o.fields@.len() - j,
                {
                    match o.fields[j].value.process(element) {
                        Err(e) => {
                            return Err(e);
                        }
                        Ok(v) => {
                            let ghost vm = v.model();
                            obj_insert(&mut entries, o.fields[j].key.clone(), v);
                            proof {
                                let prev_vals = vals;
                                vals = vals.push(vm);
                                assert(vals.drop_last() =~= prev_vals);
                                assert(vals.last() == vm);
                                assert(o.fields@.take(j as int + 1).drop_last() =~= o.fields@.take(
                                    j as int,
                                ));
                                assert(o.fields@.take(j as int + 1).last() == o.fields@[j as int]);
                                assert(entry_models_of(entries@) == obj_fold(
                                    o.fields@.take(j as int + 1),
                                    vals,
                                ));
                            }
                        }
                    }
                    j += 1;
                }
                proof {
                    assert(o.fields@.take(o.fields@.len() as int) =~= o.fields@);
                }
                let result = Value::Object(entries);
                proof {
                    assert(result.model() == ValModel::Object(obj_fold(o.fields@, vals)));
                }
                Ok(result)
            }
            Scheme::String(s) => {
                match compile_path(&s.path) {
                    None => Err(Error::InvalidPath { path: s.path.clone() }),
                    Some(selector) => {
                        let matches = select_all(element, &selector);
                        match require_match(&s.path, matches.len()) {
                            Some(e) => Err(e),
                            None => Ok(Value::String(inner_html(&matches[0]))),
                        }
                    }
                }
            }
            Scheme::List(l) => {
                match compile_path(&l.path) {
                    None => Err(Error::InvalidPath { path: l.path.clone() }),
                    Some(selector) => {
                        let matches = select_all(element, &selector);
                        match require_match(&l.path, matches.len()) {
                            Some(e) => Err(e),
                            None => match l.element_scheme.process_many(&matches[0]) {
                                Err(e) => Err(e),
                                Ok(vs) => {
                                    proof {
                                        lemma_models_of(vs@);
                                        assert(fits_one(*self, Value::Array(vs).model()));
                                    }
                                    Ok(Value::Array(vs))
                                }
                            },
                        }
                    }
                }
            }
        }
    }

    /// Multi-value extraction, anchored at one document node:
    /// - a string scheme yields the inner content of every descendant
    ///   matching its path, in document order — zero matches is an empty
    ///   result, not a failure;
    /// - a list scheme yields one array per descendant matching its path,
    ///   each holding the aligned results of its element scheme under that
    ///   descendant;
    /// - an object scheme evaluates every field against the same anchor; all
    ///   fields must yield equally many values — the count is fixed by the
    ///   first field and checked against each later field — and the i-th
    ///   output object pairs every field key with the i-th value of that
    ///   field.
    ///
    /// A string scheme succeeds exactly when its path compiles, and a
    /// mandatory-match failure (`NoElementFound`) can never arise here: set
    /// queries are allowed to be empty. A successful object extraction is
    /// exactly `zip_rows` of the model over equally long per-field columns:
    /// the i-th output object pairs every field key with that field's i-th
    /// value.
    #[verifier::loop_isolation(false)]
    pub fn process_many(&self, element: &ElementRef<'_>) -> (r: Result<Vec<Value>, Error>)
        requires
            self.wf(),
        ensures
            r matches Err(e) ==> !(e is NotImplemented),
            r matches Err(e) ==> !(e is NoElementFound),
            r matches Err(Error::InvalidPath { path }) ==> self.contains_path(path@)
                && !path_compiles(path@),
            r matches Err(Error::MismatchedFieldCount { field, expected, found })
                ==> self.has_object_key(field@) && expected != found,
            self.doomed_many() ==> r is Err,
            self.first_path_invalid() ==> (r matches Err(Error::InvalidPath { path })
                && self.first_path() == Some(path@)),
            self matches Scheme::String(s) ==> (r is Ok <==> path_compiles(s.path@)),
            r matches Ok(vs) ==> forall|i: int| 0 <= i < vs@.len() ==> fits_each(
                *self,
                (#[trigger] vs@[i]).model(),
            ),
            r matches Ok(vs) ==> (self matches Scheme::Object(o) ==> exists|
                cols: Seq<Seq<ValModel>>,
            |
                cols.len() == o.fields@.len() && (forall|j: int|
                    0 <= j < cols.len() ==> (#[trigger] cols[j]).len() == vs@.len())
                    && models_of(vs@) == #[trigger] zip_rows(o.fields@, cols)),
        decreases self,
    {
        match self {
            Scheme::Object(o) => {
                let mut columns: Vec<Vec<Value>> = Vec::new();
                let mut j: usize = 0;
                while j < o.fields.len()
                    invariant
                        j <= o.fields@.len(),
                        columns@.len() == j,
                        forall|i: int| 0 <= i < j
                            ==> !(#[trigger] o.fields@[i].value).doomed_many(),
                        forall|i: int| 0 <= i < j
                            ==> (#[trigger] columns@[i])@.len() == columns@[0]@.len(),
                        j > 0 ==> !self.first_path_invalid(),
                    decreases o.fields@.len() - j,
                {
                    match o.fields[j].value.process_many(element) {
                        Err(e) => {
                            return Err(e);
                        }
                        Ok(values) => {
                            if columns.len() > 0 {
                                match mismatch_check(&o.fields[j].key, columns[0].len(), values.len()) {
                                    Some(e) => {
                                        return Err(e);
                                    }
                                    None => {},
                                }
                            }
                            columns.push(values);
                        }
                    }
                    j += 1;
                }
                let objects = zip_columns(&o.fields, columns);
                proof {
                    assert forall|i: int| 0 <= i < objects@.len() implies fits_each(
                        *self,
                        (#[trigger] objects@[i]).model(),
                    ) by {
                        assert(objects@[i].model() is Object);
                    }
                    let cm = col_models(columns@);
                    assert forall|jj: int| 0 <= jj < cm.len() implies (#[trigger] cm[jj]).len()
                        == objects@.len() by {
                        lemma_models_of(columns@[jj]@);
                    }
                    lemma_models_of(objects@);
                    assert(zip_rows(o.fields@, cm).len() == objects@.len());
                    assert forall|i: int| 0 <= i < objects@.len() implies models_of(objects@)[i]
                        == zip_rows(o.fields@, cm)[i] by {
                        assert(models_of(objects@)[i] == objects@[i].model());
                    }
                    assert(models_of(objects@) =~= zip_rows(o.fields@, cm));
                }
                Ok(objects)
            }
            Scheme::String(s) => {
                match compile_path(&s.path) {
                    None => Err(Error::InvalidPath { path: s.path.clone() }),
                    Some(selector) => {
                        let matches = select_all(element, &selector);
                        let contents = contents_of(&matches);
                        let ghost c = contents@;
                        let out = leaf_values(contents);
                        proof {
                            assert forall|i2: int| 0 <= i2 < out@.len() implies fits_each(
                                *self,
                                (#[trigger] out@[i2]).model(),
                            ) by {
                                assert(out@[i2] == Value::String(c[i2]));
                            }
                        }
                        Ok(out)
                    }
                }
            }
            Scheme::List(l) => {
                match compile_path(&l.path) {
                    None => Err(Error::InvalidPath { path: l.path.clone() }),
                    Some(selector) => {
                        let matches = select_all(element, &selector);
                        let mut out: Vec<Value> = Vec::new();
                        let mut i: usize = 0;
                        while i < matches.len()
                            invariant
                                i <= matches@.len(),
                                forall|i2: int| 0 <= i2 < out@.len() ==> fits_each(
                                    *self,
                                    (#[trigger] out@[i2]).model(),
                                ),
                            decreases matches@.len() - i,
                        {
                            match l.element_scheme.process_many(&matches[i]) {
                                Err(e) => {
                                    return Err(e);
                                }
                                Ok(vs) => {
                                    proof {
                                        lemma_models_of(vs@);
                                        assert(fits_each(*self, Value::Array(vs).model()));
                                    }
                                    out.push(Value::Array(vs));
                                }
                            }
                            i += 1;
                        }
                        Ok(out)
                    }
                }
            }
        }
    }
}

} // verus!
