//! The scheme model: a closed, recursively composable description of what to
//! extract from a document and from where.

use vstd::prelude::*;
use crate::query::path_compiles;

verus! {

/// One named field of an object scheme.
#[derive(Debug)]
pub struct KVPair {
    pub key: String,
    pub value: Scheme,
}

/// Extracts one output object per position: every field is evaluated against
/// the same anchor node.
#[derive(Debug)]
pub struct ObjectScheme {
    pub fields: Vec<KVPair>,
}

/// Extracts an array: `path` selects the anchor(s), and `element_scheme` is
/// evaluated against each anchor.
#[derive(Debug)]
pub struct ListScheme {
    pub element_scheme: Box<Scheme>,
    pub path: String,
}

/// Extracts a string leaf: the inner content of the node(s) that `path`
/// selects.
#[derive(Debug, Clone)]
pub struct StringScheme {
    pub path: String,
}

/// The extraction scheme: a closed set of three shapes, recursively
/// composable.
#[derive(Debug)]
pub enum Scheme {
    Object(ObjectScheme),
    List(ListScheme),
    String(StringScheme),
}

impl Scheme {
    /// A scheme is well formed when no object scheme anywhere inside it has an
    /// empty field list: with zero fields there is no first field to fix the
    /// number of aligned results, so multi-extraction is undefined for it.
    pub open spec fn wf(self) -> bool
        decreases self,
    {
        match self {
            Scheme::Object(o) => o.fields@.len() > 0
                && forall|i: int| 0 <= i < o.fields@.len() ==> (#[trigger] o.fields@[i].value).wf(),
            Scheme::List(l) => l.element_scheme.wf(),
            Scheme::String(_) => true,
        }
    }

    /// Whether `path` occurs as a selector path anywhere in the scheme.
    pub open spec fn contains_path(self, path: Seq<char>) -> bool
        decreases self,
    {
        match self {
            Scheme::Object(o) => exists|i: int|
                0 <= i < o.fields@.len() && (#[trigger] o.fields@[i].value).contains_path(path),
            Scheme::List(l) => l.path@ == path || l.element_scheme.contains_path(path),
            Scheme::String(s) => s.path@ == path,
        }
    }

    /// Whether `key` names a field of some object scheme inside the scheme.
    pub open spec fn has_object_key(self, key: Seq<char>) -> bool
        decreases self,
    {
        match self {
            Scheme::Object(o) => exists|i: int|
                0 <= i < o.fields@.len() && ((#[trigger] o.fields@[i]).key@ == key
                    || o.fields@[i].value.has_object_key(key)),
            Scheme::List(l) => l.element_scheme.has_object_key(key),
            Scheme::String(_) => false,
        }
    }

    /// Single-value extraction surely fails, whatever the document: some path
    /// that every run must compile does not compile.
    pub open spec fn doomed(self) -> bool
        decreases self,
    {
        match self {
            Scheme::Object(o) => exists|i: int|
                0 <= i < o.fields@.len() && (#[trigger] o.fields@[i].value).doomed(),
            Scheme::List(l) => !path_compiles(l.path@) || l.element_scheme.doomed_many(),
            Scheme::String(s) => !path_compiles(s.path@),
        }
    }

    /// Multi-value extraction surely fails, whatever the document. Under a
    /// list scheme only the list's own path is mandatory: with zero matches
    /// the element scheme is never entered.
    pub open spec fn doomed_many(self) -> bool
        decreases self,
    {
        match self {
            Scheme::Object(o) => exists|i: int|
                0 <= i < o.fields@.len() && (#[trigger] o.fields@[i].value).doomed_many(),
            Scheme::List(l) => !path_compiles(l.path@),
            Scheme::String(s) => !path_compiles(s.path@),
        }
    }

    /// The selector path whose compilation every run attempts first: the
    /// leftmost mandatory path in evaluation order. Only an object scheme
    /// with no fields has none.
    pub open spec fn first_path(self) -> Option<Seq<char>>
        decreases self,
    {
        match self {
            Scheme::Object(o) => if o.fields@.len() == 0 {
                None
            } else {
                o.fields@[0].value.first_path()
            },
            Scheme::List(l) => Some(l.path@),
            Scheme::String(s) => Some(s.path@),
        }
    }

    /// The first selector path that every run must compile does not compile:
    /// extraction then fails with exactly that path's "invalid path", before
    /// anything in the document can be consulted.
    pub open spec fn first_path_invalid(self) -> bool {
        match self.first_path() {
            Some(p) => !path_compiles(p),
            None => false,
        }
    }

    /// Decides well-formedness, so that a caller can establish `wf` before
    /// extraction.
    #[verifier::loop_isolation(false)]
    pub fn check_wf(&self) -> (r: bool)
        ensures
            r == self.wf(),
        decreases self,
    {
        match self {
            Scheme::Object(o) => {
                if o.fields.len() == 0 {
                    return false;
                }
                let mut j: usize = 0;
                while j < o.fields.len()
                    invariant
                        j <= o.fields@.len(),
                        forall|i: int| 0 <= i < j ==> (#[trigger] o.fields@[i].value).wf(),
                    decreases o.fields@.len() - j,
                {
                    if !o.fields[j].value.check_wf() {
                        return false;
                    }
                    j += 1;
                }
                true
            }
            Scheme::List(l) => l.element_scheme.check_wf(),
            Scheme::String(_) => true,
        }
    }
}

} // verus!
