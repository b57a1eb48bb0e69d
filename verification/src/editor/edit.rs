//! What a frame of the editor changed: the undo description and what has to be
//! brought up to date.

use vstd::prelude::*;
use vstd::string::*;

verus! {

pub struct Edit {
    /// Described for the undo history; `None` if nothing was edited.
    pub description: Option<String>,
    /// The renderer's copy of the model is stale.
    pub needs_upload: bool,
    /// The dynamics model is stale.
    pub rebuild: bool,
}

impl Edit {
    /// The description as a value of contracts.
    pub open spec fn text(&self) -> Option<Seq<char>> {
        match self.description {
            Some(d) => Some(d@),
            None => None,
        }
    }

    /// The edit is described as `text`.
    pub open spec fn says(&self, text: Seq<char>) -> bool {
        self.text() == Some(text)
    }

    /// Nothing has been edited.
    pub fn none() -> (r: Edit)
        ensures
            r.text() is None,
            !r.needs_upload,
            !r.rebuild,
    {
        Edit { description: None, needs_upload: false, rebuild: false }
    }

    /// Describes the frame, in place of any earlier description.
    pub fn describe(&mut self, text: String)
        ensures
            *final(self) == (Edit { description: Some(text), ..*old(self) }),
    {
        self.description = Some(text);
    }
}

} // verus!
