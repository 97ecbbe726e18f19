//! The identity of the process that makes the observations.

use crate::ambient::{fresh_uuid, is_uuid_text, now_seconds};
use vstd::prelude::*;

verus! {

/// An identity: an identifier and the time at which it was made.
#[derive(Clone, Debug)]
pub struct Source {
    pub id: String,
    pub created_at: i64,
}

/// What an identity holds, as mathematical values.
pub struct SourceView {
    pub id: Seq<char>,
    pub created_at: i64,
}

impl View for Source {
    type V = SourceView;

    open spec fn view(&self) -> SourceView {
        SourceView { id: self.id@, created_at: self.created_at }
    }
}

impl Source {
    /// The identity with the identifier `id`, made at the time `created_at`.
    pub fn assemble(id: String, created_at: i64) -> (r: Source)
        ensures
            r@ == (SourceView { id: id@, created_at }),
    {
        Source { id, created_at }
    }

    /// A new identity, with a fresh UUID and the current time.
    pub fn new() -> (r: Source)
        ensures
            is_uuid_text(r@.id),
    {
        Source::assemble(fresh_uuid(), now_seconds())
    }

    /// The stored identity where there is one, else a new one. The flag tells whether the
    /// identity is new, and so still has to be stored.
    pub fn load_or_create(stored: Option<Source>) -> (r: (Source, bool))
        ensures
            stored is Some ==> r.0 == stored->0 && !r.1,
            stored is None ==> r.1 && is_uuid_text(r.0@.id),
    {
        match stored {
            Some(source) => (source, false),
            None => (Source::new(), true),
        }
    }
}

} // verus!
