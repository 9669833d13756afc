//! The prompt the chat completion boundary is asked with.
//!
//! The completion client itself is an external collaborator; what stands
//! here is the construction of the grounding message: the retrieved
//! notes, laid out under fixed markers, between a fixed preamble and a
//! fixed lead-in to the question.

use vstd::prelude::*;
use crate::entity::models_of;
use crate::notes::{NoteEntity, NoteModel};

verus! {

/// The preamble and the first `j` notes of the grounding message.
pub open spec fn context_prefix(notes: Seq<NoteModel>, j: int) -> Seq<char>
    decreases j,
{
    if j <= 0 {
        "Here comes a list of relevant notes. Derive your answer from these notes\n"@
    } else {
        context_prefix(notes, j - 1) + "TITLE: "@ + notes[j - 1].title + ", BODY: "@ + notes[j
            - 1].body
    }
}

/// The whole grounding message over a list of notes.
pub open spec fn spec_context_message(notes: Seq<NoteModel>) -> Seq<char> {
    context_prefix(notes, notes.len() as int) + "\nHere comes the question:"@
}

/// The chat completion boundary: it grounds a question in the retrieved
/// notes. Building the grounding message is this type's logic; the
/// completion call itself is made outside, with this message.
pub struct ChatGptService {}

impl ChatGptService {
    /// Sets the boundary up.
    pub fn new() -> Self {
        ChatGptService {  }
    }

    /// Builds the grounding message: preamble, each note's title and
    /// body under fixed markers, and the lead-in to the question.
    pub fn context_message(&self, notes: &Vec<NoteEntity>) -> (r: String)
        ensures
            r@ == spec_context_message(models_of(notes@)),
    {
        let ghost views = models_of(notes@);
        let mut r = String::from_str(
            "Here comes a list of relevant notes. Derive your answer from these notes\n",
        );
        let mut j: usize = 0;
        while j < notes.len()
            invariant
                views == models_of(notes@),
                j <= notes@.len(),
                views.len() == notes@.len(),
                r@ == context_prefix(views, j as int),
            decreases notes@.len() - j,
        {
            proof {
                assert(views[j as int] == notes@[j as int]@);
            }
            r.append("TITLE: ");
            r.append(notes[j].title.as_str());
            r.append(", BODY: ");
            r.append(notes[j].body.as_str());
            j = j + 1;
            proof {
                assert(r@ =~= context_prefix(views, j as int));
            }
        }
        r.append("\nHere comes the question:");
        proof {
            assert(r@ =~= spec_context_message(views));
        }
        r
    }
}

} // verus!
