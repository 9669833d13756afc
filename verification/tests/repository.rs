use notes_orm::errors::{DynamoRepositoryError, NotesServiceError};
use notes_orm::ids::NoteId;
use notes_orm::models::{NewNoteDTO, NoteDTO};
use notes_orm::notes::{NoteEntity, NotePrimaryIndex, QueryNoteIndex};
use notes_orm::repository::{QueryData, RepositoryIndex};
use notes_orm::service::{DynamoNotesRepository, NotesService};

fn note(id: u128, title: &str, body: &str) -> NoteEntity {
    NoteEntity {
        id: NoteId { value: id },
        title: title.to_string(),
        body: body.to_string(),
        encoded: None,
    }
}

fn service(page_limit: usize) -> NotesService {
    NotesService::new(DynamoNotesRepository::new(page_limit))
}

#[test]
fn create_then_create_conflicts() {
    let mut svc = service(10);
    assert!(svc.create(&note(1, "a", "b")).is_ok());
    let second = svc.create(&note(1, "other", "text"));
    assert!(matches!(second, Err(DynamoRepositoryError::ConflictError)));
}

#[test]
fn upsert_then_find_returns_last_value() {
    let mut svc = service(10);
    assert!(svc.upsert(&note(3, "first", "one")).is_ok());
    assert!(svc.upsert(&note(3, "second", "two")).is_ok());
    let found = svc.find_by_id(NoteId { value: 3 }).unwrap().unwrap();
    assert_eq!(found.title, "second");
    assert_eq!(found.body, "two");
    assert_eq!(found.id, NoteId { value: 3 });
}

#[test]
fn delete_of_absent_key_is_not_an_error() {
    let mut svc = service(10);
    assert!(svc.delete(&note(77, "x", "y")).is_ok());
    assert!(svc.find_by_id(NoteId { value: 77 }).unwrap().is_none());
    assert!(svc.upsert(&note(77, "x", "y")).is_ok());
    assert!(svc.delete(&note(77, "x", "y")).is_ok());
    assert!(svc.find_by_id(NoteId { value: 77 }).unwrap().is_none());
}

#[test]
fn query_all_drains_five_pages_of_one() {
    let mut svc = service(1);
    for i in 0..5u128 {
        assert!(svc.create(&note(i, "t", "b")).is_ok());
    }
    let index = QueryNoteIndex::find_all();
    let (items, pages) = svc.repository.store.query_all_counted::<NoteEntity, _>(&index).unwrap();
    assert_eq!(items.len(), 5);
    assert_eq!(pages, 5);
    for (i, item) in items.iter().enumerate() {
        assert_eq!(item.id, NoteId { value: i as u128 });
    }
}

#[test]
fn three_records() {
    let mut svc = service(10);
    assert!(svc.create(&note(1, "one", "first body")).is_ok());
    assert!(svc.create(&note(2, "two", "second body")).is_ok());
    let all = svc.find_all().unwrap();
    assert_eq!(all.len(), 2);
    assert_eq!(all[0].id, NoteId { value: 1 });
    assert_eq!(all[1].id, NoteId { value: 2 });
    let second = svc.find_by_id(NoteId { value: 2 }).unwrap().unwrap();
    assert_eq!(second.id, NoteId { value: 2 });
    assert_eq!(second.title, "two");
    assert_eq!(second.body, "second body");
    assert!(svc.find_by_id(NoteId { value: 99 }).unwrap().is_none());
}

#[test]
fn paged_scan_echoes_the_cursor() {
    let mut svc = service(1);
    assert!(svc.create(&note(1, "a", "x")).is_ok());
    assert!(svc.create(&note(2, "b", "y")).is_ok());
    let first = svc.find_all_paged(None).unwrap();
    assert_eq!(first.items.len(), 1);
    assert_eq!(first.items[0].id, NoteId { value: 1 });
    let cursor = first.last_evaluated_key;
    assert!(cursor.is_some());
    let second = svc.find_all_paged(cursor).unwrap();
    assert_eq!(second.items.len(), 1);
    assert_eq!(second.items[0].id, NoteId { value: 2 });
    assert!(second.last_evaluated_key.is_none());
}

#[test]
fn expression_data_joins_equality_clauses() {
    let data = QueryData::new(NotePrimaryIndex::find_by_id(NoteId { value: 1 }), None);
    let expr = data.get_expression_data();
    assert_eq!(expr.key_condition_expression, "pk = :pk AND sk = :sk");
    let values = expr.expression_attribute_values;
    assert_eq!(values.len(), 2);
    assert!(values.get(":pk").is_some());
    assert!(values.get(":sk").is_some());

    let all = QueryData::new(QueryNoteIndex::find_all(), None);
    let expr = all.get_expression_data();
    assert_eq!(expr.key_condition_expression, "pk = :pk");
}

#[test]
fn get_turns_absence_into_not_found() {
    let svc = service(10);
    let index = NotePrimaryIndex::find_by_id(NoteId { value: 4 });
    let r = svc.repository.store.get::<NoteEntity, _>(&index);
    assert!(matches!(r, Err(DynamoRepositoryError::NotFoundError)));
}

#[test]
fn create_note_enriches_and_persists() {
    let mut svc = service(10);
    let new = NewNoteDTO { title: "title".to_string(), body: "content".to_string() };
    let created = svc.create_note(&new, NoteId { value: 8 }, Some(vec![5, 6])).unwrap();
    assert_eq!(created.id, NoteId { value: 8 });
    assert_eq!(created.encoded, Some(vec![5, 6]));
    let stored = svc.find_by_id(NoteId { value: 8 }).unwrap().unwrap();
    assert_eq!(stored.encoded, Some(vec![5, 6]));
}

#[test]
fn create_note_without_embedding_keeps_base_record() {
    let mut svc = service(10);
    let new = NewNoteDTO { title: "title".to_string(), body: "content".to_string() };
    let r = svc.create_note(&new, NoteId { value: 9 }, None);
    assert!(matches!(r, Err(NotesServiceError::PartialEnrichmentError)));
    let stored = svc.find_by_id(NoteId { value: 9 }).unwrap().unwrap();
    assert_eq!(stored.title, "title");
    assert!(stored.encoded.is_none());
}

#[test]
fn create_note_on_occupied_key_is_a_conflict() {
    let mut svc = service(10);
    assert!(svc.create(&note(10, "held", "here")).is_ok());
    let new = NewNoteDTO { title: "t".to_string(), body: "b".to_string() };
    let r = svc.create_note(&new, NoteId { value: 10 }, Some(vec![1]));
    assert!(matches!(
        r,
        Err(NotesServiceError::Repository(DynamoRepositoryError::ConflictError))
    ));
}

#[test]
fn update_note_replaces_and_enriches() {
    let mut svc = service(10);
    assert!(svc.create(&note(11, "old", "old body")).is_ok());
    let dto = NoteDTO {
        id: NoteId { value: 11 },
        title: "new".to_string(),
        body: "new body".to_string(),
    };
    let returned = svc.update_note(NoteId { value: 11 }, &dto, Some(vec![9])).unwrap();
    assert_eq!(returned.title, "new");
    assert!(returned.encoded.is_none());
    let stored = svc.find_by_id(NoteId { value: 11 }).unwrap().unwrap();
    assert_eq!(stored.title, "new");
    assert_eq!(stored.encoded, Some(vec![9]));
}

#[test]
fn update_note_on_absent_key_is_not_found() {
    let mut svc = service(10);
    let dto = NoteDTO { id: NoteId { value: 12 }, title: "t".to_string(), body: "b".to_string() };
    let r = svc.update_note(NoteId { value: 12 }, &dto, Some(vec![1]));
    assert!(matches!(
        r,
        Err(NotesServiceError::Repository(DynamoRepositoryError::NotFoundError))
    ));
}

#[test]
fn table_name_is_fixed() {
    let repo = DynamoNotesRepository::new(10);
    assert_eq!(repo.get_table_name(), "notes");
}

#[test]
fn index_specifications_clone_cheaply() {
    let index = QueryNoteIndex::find_all();
    let copy = index.clone_index();
    assert_eq!(
        copy.to_key().get("pk").is_some(),
        index.to_key().get("pk").is_some()
    );
}
