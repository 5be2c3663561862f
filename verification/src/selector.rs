//! The mutable selection cell of a `select` combinator.

use vstd::prelude::*;

use crate::errors::Error;
use crate::types::{contains_str, str_eq};

verus! {

/// The view of an optional string as an optional character sequence.
pub open spec fn opt_str_view(o: Option<String>) -> Option<Seq<char>> {
    match o {
        Some(s) => Some(s@),
        None => None,
    }
}

/// Names the active actor of a `select` combinator; the selection is
/// set at runtime and persists across reloads by tag.
#[derive(Debug)]
pub struct OutboundSelector {
    pub tag: String,
    pub actors: Vec<String>,
    pub selected: Option<String>,
}

impl OutboundSelector {
    /// The selection, when set, names one of the actors.
    pub open spec fn wf(self) -> bool {
        match self.selected {
            Some(s) => exists|i: int| 0 <= i < self.actors@.len() && self.actors@[i]@ == s@,
            None => true,
        }
    }

    pub fn new(tag: String, actors: Vec<String>) -> (s: Self)
        ensures
            s.tag@ == tag@,
            s.actors@ == actors@,
            s.selected is None,
            s.wf(),
    {
        OutboundSelector { tag, actors, selected: None }
    }

    pub fn get_selected_tag(&self) -> (r: Option<String>)
        ensures
            opt_str_view(r) == opt_str_view(self.selected),
    {
        match &self.selected {
            Some(s) => Some(s.clone()),
            None => None,
        }
    }

    /// Selects an actor by tag; fails, leaving the selection unchanged,
    /// when the tag names no actor of this selector.
    pub fn set_selected(&mut self, tag: &String) -> (r: Result<(), Error>)
        ensures
            final(self).tag == old(self).tag,
            final(self).actors == old(self).actors,
            r is Ok <==> exists|i: int|
                0 <= i < old(self).actors@.len() && old(self).actors@[i]@ == tag@,
            r is Ok ==> opt_str_view(final(self).selected) == Some(tag@),
            r is Err ==> *final(self) == *old(self),
            old(self).wf() ==> final(self).wf(),
    {
        if contains_str(&self.actors, tag) {
            self.selected = Some(tag.clone());
            Ok(())
        } else {
            Err(Error::Config(String::new()))
        }
    }
}

} // verus!
