//! The paginating service layer over the notes repository.
//!
//! It exposes the domain operations in terms of records and index
//! specifications, absorbs pagination by draining the continuation
//! cursor, and composes the multi-step writes: create then enrich then
//! re-persist. If enrichment fails, the base record remains persisted in
//! its un-enriched form, and the caller gets a distinct signal.

use vstd::prelude::*;
use crate::attrs::{AttrValueModel, ItemModel};
use crate::entity::{
    key_item, lemma_key_item_key, models_of, spec_serialize_with_indexes, Entity,
};
use crate::errors::{DynamoRepositoryError, NotesServiceError};
use crate::ids::NoteId;
use crate::models::{NewNoteDTO, NoteDTO};
use crate::notes::{
    note_key, note_partition, NoteEntity, NoteModel, NotePrimaryIndex, QueryNoteIndex,
};
use crate::repository::{
    cursor_pos, decode_rows, DynamoRepository, LastEvaluatedKey, QueryData, QueryResult,
    RepositoryIndex,
};
use crate::table::{
    contains_key, matching_from, pk_name, spec_find_row, spec_page, spec_put, TableModel,
};

verus! {

/// The notes repository: the generic single-table repository bound to
/// the notes table.
pub struct DynamoNotesRepository {
    pub store: DynamoRepository,
}

impl View for DynamoNotesRepository {
    type V = TableModel;

    open spec fn view(&self) -> TableModel {
        self.store@
    }
}

impl DynamoNotesRepository {
    /// The repository's invariant.
    pub open spec fn inv(&self) -> bool {
        self.store.inv()
    }

    /// Creates the notes repository over an empty table with the given
    /// page size.
    pub fn new(page_limit: usize) -> (r: Self)
        requires
            page_limit >= 1,
        ensures
            r.inv(),
            r@ == Seq::<ItemModel>::empty(),
            r.store.spec_page_limit() == page_limit,
    {
        DynamoNotesRepository { store: DynamoRepository::new(page_limit) }
    }

    /// The name of the one physical table.
    pub fn get_table_name(&self) -> (r: &'static str)
        ensures
            r@ == "notes"@,
    {
        "notes"
    }
}

/// The condition selecting the whole notes collection.
pub open spec fn all_notes_cond() -> ItemModel {
    seq![(pk_name(), AttrValueModel::Text(note_partition()))]
}

/// The domain service over notes: plain CRUD forwarded to the
/// repository, exhaustive pagination, and the composed enrichment
/// writes.
pub struct NotesService {
    pub repository: DynamoNotesRepository,
}

impl View for NotesService {
    type V = TableModel;

    open spec fn view(&self) -> TableModel {
        self.repository@
    }
}

impl NotesService {
    /// The service's invariant.
    pub open spec fn inv(&self) -> bool {
        self.repository.inv()
    }

    /// The configured page size.
    pub open spec fn spec_page_limit(&self) -> int {
        self.repository.store.spec_page_limit()
    }

    /// Wraps the repository.
    pub fn new(repository: DynamoNotesRepository) -> (r: Self)
        ensures
            r.repository == repository,
    {
        NotesService { repository }
    }

    /// Conditional create, forwarded to the repository.
    pub fn create(&mut self, entity: &NoteEntity) -> (r: Result<(), DynamoRepositoryError>)
        requires
            old(self).inv(),
        ensures
            final(self).inv(),
            final(self).spec_page_limit() == old(self).spec_page_limit(),
            if contains_key(old(self)@, note_key(entity@.id)) {
                r == Err::<(), DynamoRepositoryError>(DynamoRepositoryError::ConflictError)
                    && final(self)@ == old(self)@
            } else {
                r == Ok::<(), DynamoRepositoryError>(()) && final(self)@ == old(self)@.push(
                    spec_serialize_with_indexes::<NoteEntity>(entity@),
                )
            },
    {
        self.repository.store.create(entity)
    }

    /// Unconditional write, forwarded to the repository.
    pub fn upsert(&mut self, entity: &NoteEntity) -> (r: Result<(), DynamoRepositoryError>)
        requires
            old(self).inv(),
        ensures
            final(self).inv(),
            final(self).spec_page_limit() == old(self).spec_page_limit(),
            r == Ok::<(), DynamoRepositoryError>(()),
            final(self)@ == spec_put(
                old(self)@,
                spec_serialize_with_indexes::<NoteEntity>(entity@),
            ),
    {
        self.repository.store.upsert(entity)
    }

    /// Idempotent delete, forwarded to the repository.
    pub fn delete(&mut self, entity: &NoteEntity) -> (r: Result<(), DynamoRepositoryError>)
        requires
            old(self).inv(),
        ensures
            final(self).inv(),
            final(self).spec_page_limit() == old(self).spec_page_limit(),
            r == Ok::<(), DynamoRepositoryError>(()),
            !contains_key(final(self)@, note_key(entity@.id)),
    {
        self.repository.store.delete(entity)
    }

    /// Exact-key lookup of one note by its identifier.
    pub fn find_by_id(&self, id: NoteId) -> (r: Result<Option<NoteEntity>, DynamoRepositoryError>)
        requires
            self.inv(),
        ensures
            match spec_find_row(self@, note_key(id.value)) {
                None => r == Ok::<Option<NoteEntity>, DynamoRepositoryError>(None),
                Some(i) => match NoteEntity::spec_deserialize(self@[i]) {
                    Some(m) => match r {
                        Ok(Some(e)) => e@ == m,
                        _ => false,
                    },
                    None => r == Err::<Option<NoteEntity>, DynamoRepositoryError>(
                        DynamoRepositoryError::DeserializationError,
                    ),
                },
            },
    {
        let index = NotePrimaryIndex::find_by_id(id);
        proof {
            lemma_key_item_key(note_key(id.value));
        }
        self.repository.store.find::<NoteEntity, NotePrimaryIndex>(&index)
    }

    /// One page of the whole collection, resumed from the echoed cursor.
    pub fn find_all_paged(&self, last_evaluated_key: Option<LastEvaluatedKey>) -> (r: Result<
        QueryResult<NoteEntity>,
        DynamoRepositoryError,
    >)
        requires
            self.inv(),
            cursor_pos(last_evaluated_key) >= 0,
        ensures
            ({
                let (page_rows, cur) = spec_page(
                    self@,
                    all_notes_cond(),
                    cursor_pos(last_evaluated_key),
                    self.spec_page_limit(),
                );
                match (r, decode_rows::<NoteEntity>(page_rows)) {
                    (Ok(qr), Some(es)) => models_of(qr.items@) == es && (qr.last_evaluated_key
                        is Some <==> cur is Some) && cursor_pos(qr.last_evaluated_key) == match cur {
                        Some(j) => j,
                        None => 0,
                    },
                    (Err(e), None) => e == DynamoRepositoryError::DeserializationError,
                    _ => false,
                }
            }),
    {
        let query_data = QueryData::new(QueryNoteIndex::find_all(), last_evaluated_key);
        self.repository.store.query::<NoteEntity, QueryNoteIndex>(&query_data)
    }

    /// Every note of the collection, fully drained across pages in store
    /// order.
    pub fn find_all(&self) -> (r: Result<Vec<NoteEntity>, DynamoRepositoryError>)
        requires
            self.inv(),
        ensures
            ({
                let all = matching_from(self@, all_notes_cond(), 0);
                match (r, decode_rows::<NoteEntity>(all)) {
                    (Ok(v), Some(es)) => models_of(v@) == es,
                    (Err(e), None) => e == DynamoRepositoryError::DeserializationError,
                    _ => false,
                }
            }),
    {
        let index = QueryNoteIndex::find_all();
        self.repository.store.query_all::<NoteEntity, QueryNoteIndex>(&index)
    }

    /// Creates a note, then enriches it: the base record is written
    /// conditionally under the fresh identifier; with an embedding in
    /// hand the enriched record replaces it. A missing embedding leaves
    /// the base record persisted and signals the partial enrichment.
    pub fn create_note(&mut self, note: &NewNoteDTO, id: NoteId, embedding: Option<Vec<u32>>) -> (r:
        Result<NoteEntity, NotesServiceError>)
        requires
            old(self).inv(),
        ensures
            final(self).inv(),
            final(self).spec_page_limit() == old(self).spec_page_limit(),
            ({
                let base = NoteModel { id: id.value, title: note.title@, body: note.body@, encoded: None };
                if contains_key(old(self)@, note_key(id.value)) {
                    r == Err::<NoteEntity, NotesServiceError>(
                        NotesServiceError::Repository(DynamoRepositoryError::ConflictError),
                    ) && final(self)@ == old(self)@
                } else {
                    match embedding {
                        None => r == Err::<NoteEntity, NotesServiceError>(
                            NotesServiceError::PartialEnrichmentError,
                        ) && final(self)@ == old(self)@.push(
                            spec_serialize_with_indexes::<NoteEntity>(base),
                        ),
                        Some(emb) => {
                            let enriched = NoteModel { encoded: Some(emb@), ..base };
                            &&& final(self)@ == spec_put(
                                old(self)@.push(spec_serialize_with_indexes::<NoteEntity>(base)),
                                spec_serialize_with_indexes::<NoteEntity>(enriched),
                            )
                            &&& match r {
                                Ok(e) => e@ == enriched,
                                _ => false,
                            }
                        },
                    }
                }
            }),
    {
        let entity = NoteEntity::from_new(note.title.clone(), note.body.clone(), id);
        match self.repository.store.create(&entity) {
            Err(e) => Err(NotesServiceError::Repository(e)),
            Ok(()) => match embedding {
                None => Err(NotesServiceError::PartialEnrichmentError),
                Some(emb) => {
                    let enriched = entity.with_embedding(emb);
                    match self.repository.store.upsert(&enriched) {
                        Err(e) => Err(NotesServiceError::Repository(e)),
                        Ok(()) => Ok(enriched),
                    }
                },
            },
        }
    }

    /// Replaces an existing note, then enriches it: absence of the
    /// identifier is `NotFoundError`; the un-enriched replacement is
    /// written first, and with an embedding in hand the enriched record
    /// replaces it in turn. The caller gets the replacement it asked
    /// for.
    pub fn update_note(&mut self, note_id: NoteId, note: &NoteDTO, embedding: Option<Vec<u32>>) -> (
        r: Result<NoteEntity, NotesServiceError>)
        requires
            old(self).inv(),
        ensures
            final(self).inv(),
            final(self).spec_page_limit() == old(self).spec_page_limit(),
            ({
                let base = NoteModel {
                    id: note_id.value,
                    title: note.title@,
                    body: note.body@,
                    encoded: None,
                };
                match spec_find_row(old(self)@, note_key(note_id.value)) {
                    None => r == Err::<NoteEntity, NotesServiceError>(
                        NotesServiceError::Repository(DynamoRepositoryError::NotFoundError),
                    ) && final(self)@ == old(self)@,
                    Some(i) => match NoteEntity::spec_deserialize(old(self)@[i]) {
                        None => r == Err::<NoteEntity, NotesServiceError>(
                            NotesServiceError::Repository(
                                DynamoRepositoryError::DeserializationError,
                            ),
                        ) && final(self)@ == old(self)@,
                        Some(_) => match embedding {
                            None => r == Err::<NoteEntity, NotesServiceError>(
                                NotesServiceError::PartialEnrichmentError,
                            ) && final(self)@ == spec_put(
                                old(self)@,
                                spec_serialize_with_indexes::<NoteEntity>(base),
                            ),
                            Some(emb) => {
                                let enriched = NoteModel { encoded: Some(emb@), ..base };
                                &&& final(self)@ == spec_put(
                                    spec_put(
                                        old(self)@,
                                        spec_serialize_with_indexes::<NoteEntity>(base),
                                    ),
                                    spec_serialize_with_indexes::<NoteEntity>(enriched),
                                )
                                &&& match r {
                                    Ok(e) => e@ == base,
                                    _ => false,
                                }
                            },
                        },
                    },
                }
            }),
    {
        let index = NotePrimaryIndex::find_by_id(note_id);
        proof {
            lemma_key_item_key(note_key(note_id.value));
        }
        match self.repository.store.find::<NoteEntity, NotePrimaryIndex>(&index) {
            Err(e) => {
                return Err(NotesServiceError::Repository(e));
            },
            Ok(None) => {
                return Err(NotesServiceError::Repository(DynamoRepositoryError::NotFoundError));
            },
            Ok(Some(_)) => {},
        }
        let entity = NoteEntity::from_new(note.title.clone(), note.body.clone(), note_id);
        match self.repository.store.upsert(&entity) {
            Err(e) => {
                return Err(NotesServiceError::Repository(e));
            },
            Ok(()) => {},
        }
        match embedding {
            None => Err(NotesServiceError::PartialEnrichmentError),
            Some(emb) => {
                let enriched = entity.with_embedding(emb);
                match self.repository.store.upsert(&enriched) {
                    Err(e) => Err(NotesServiceError::Repository(e)),
                    Ok(()) => Ok(entity),
                }
            },
        }
    }
}

} // verus!
