//! Printing simplified paths.
use crate::simple_path::{simplify_outcome, view_of, SimplePath};
use vstd::prelude::*;

verus! {

/// A path with the `SimplePath` that prints it; see [`SimplePath::display`].
#[derive(Debug)]
pub struct Display<'a> {
    simple: &'a SimplePath,
    path: &'a str,
}

impl<'a> Display<'a> {
    pub closed spec fn simple(self) -> &'a SimplePath {
        self.simple
    }

    pub closed spec fn path(self) -> &'a str {
        self.path
    }

    pub fn new(simple: &'a SimplePath, path: &'a str) -> (r: Display<'a>)
        ensures
            r.simple() == simple,
            r.path()@ == path@,
    {
        Display { simple, path }
    }

    /// The path, simplified when a simplification applies.
    pub fn to_string(&self) -> (r: String)
        ensures
            ({
                let s = self.simple();
                let p = self.path()@;
                // What `simplify` may return, or the path itself where
                // `simplify` may return nothing.
                ||| simplify_outcome(s.options(), s.known_volumes(), p, Some(r@))
                ||| simplify_outcome(s.options(), s.known_volumes(), p, None) && r@ == p
            }),
    {
        self.to_string_given(self.simple.simplify(self.path))
    }

    /// What is printed for the result `simplified` of simplifying the path:
    /// the simplified path, or the path itself when there is none.
    pub fn to_string_given(&self, simplified: Option<String>) -> (r: String)
        ensures
            r@ == match view_of(simplified) {
                Some(t) => t,
                None => self.path()@,
            },
    {
        match simplified {
            Some(simplified) => simplified,
            None => self.path.to_owned(),
        }
    }
}

} // verus!
