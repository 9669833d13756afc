//! Presentation models of the notes domain: what callers hand in and get
//! back, without the storage-only attributes.

use vstd::prelude::*;
use crate::ids::NoteId;
use crate::notes::{NoteEntity, NoteModel};

verus! {

/// A request to create a note: the caller names no identifier; the
/// service assigns one.
pub struct NewNoteDTO {
    pub title: String,
    pub body: String,
}

/// A note as presented to callers: identifier and text, without the
/// embedding.
pub struct NoteDTO {
    pub id: NoteId,
    pub title: String,
    pub body: String,
}

impl NoteDTO {
    /// Projects a stored note into its presentation, dropping the
    /// embedding.
    pub fn from_entity(note: NoteEntity) -> (r: Self)
        ensures
            r.id == note.id,
            r.title@ == note.title@,
            r.body@ == note.body@,
    {
        NoteDTO { id: note.id, title: note.title, body: note.body }
    }

    /// Rebuilds the un-enriched stored form of the note.
    pub fn to_entity(self) -> (r: NoteEntity)
        ensures
            r@ == (NoteModel { id: self.id.value, title: self.title@, body: self.body@, encoded: None }),
    {
        NoteEntity { id: self.id, title: self.title, body: self.body, encoded: None }
    }
}

} // verus!
