use vstd::prelude::*;

verus! {

/// The mathematical value of a [`Movie`].
pub struct MovieView {
    pub id: Seq<char>,
    pub name: Seq<char>,
    pub year: u16,
    pub was_good: bool,
}

/// One record of the store, keyed by `id`.
#[derive(Clone, Debug, PartialEq, Eq)]
pub struct Movie {
    pub id: String,
    pub name: String,
    pub year: u16,
    pub was_good: bool,
}

impl View for Movie {
    type V = MovieView;

    open spec fn view(&self) -> MovieView {
        MovieView { id: self.id@, name: self.name@, year: self.year, was_good: self.was_good }
    }
}

/// A write was refused: a record with the same identifier is already stored.
#[derive(Clone, Copy, Debug, PartialEq, Eq, Structural)]
pub struct DuplicateId;

/// A read found no record under the requested identifier.
#[derive(Clone, Copy, Debug, PartialEq, Eq, Structural)]
pub struct NotFound;

/// The view of an optional record.
pub open spec fn opt_view(m: Option<Movie>) -> Option<MovieView> {
    match m {
        Some(x) => Some(x@),
        None => None,
    }
}

/// The view of the outcome of a read.
pub open spec fn fetched_view(r: Result<Movie, NotFound>) -> Result<MovieView, NotFound> {
    match r {
        Ok(x) => Ok(x@),
        Err(e) => Err(e),
    }
}

impl Movie {
    pub fn new(id: String, name: String, year: u16, was_good: bool) -> (r: Movie)
        ensures
            r@ == (MovieView { id: id@, name: name@, year, was_good }),
    {
        Movie { id, name, year, was_good }
    }

    /// A copy of this record, field for field.
    pub fn duplicate(&self) -> (r: Movie)
        ensures
            r@ == self@,
    {
        Movie {
            id: self.id.clone(),
            name: self.name.clone(),
            year: self.year,
            was_good: self.was_good,
        }
    }
}

} // verus!
