use notes_orm::chat::ChatGptService;
use notes_orm::helpers::{Truncatable, TruncatedString};
use notes_orm::ids::NoteId;
use notes_orm::notes::NoteEntity;
use notes_orm::service::{DynamoNotesRepository, NotesService};
use notes_orm::vector_index::{
    beacon_note_id, needs_note_class, weaviate_url, ExploreQueryResult,
};

fn note(id: u128, title: &str, body: &str) -> NoteEntity {
    NoteEntity {
        id: NoteId { value: id },
        title: title.to_string(),
        body: body.to_string(),
        encoded: None,
    }
}

#[test]
fn truncation_appends_dots_only_when_cutting() {
    let long = TruncatedString::new("hello world".to_string(), 5);
    assert_eq!(long.get(), "hello...");
    let short = TruncatedString::new("hey".to_string(), 5);
    assert_eq!(short.get(), "hey");
    let exact = TruncatedString::new("exact".to_string(), 5);
    assert_eq!(exact.get(), "exact");
    assert_eq!("hello world".to_string().truncate_with_dots(5), "hello...");
}

#[test]
fn weaviate_url_is_host_and_port() {
    assert_eq!(weaviate_url("localhost", "8080"), "http://localhost:8080");
}

#[test]
fn note_class_is_created_only_when_missing() {
    assert!(needs_note_class(&vec!["Article".to_string(), "User".to_string()]));
    assert!(!needs_note_class(&vec!["Article".to_string(), "Note".to_string()]));
    assert!(needs_note_class(&vec![]));
}

#[test]
fn beacon_resolves_to_its_last_segment() {
    let id = NoteId { value: 0x5e9177dcfd5b4db5b1e5f108cd84a93c };
    let beacon = format!("weaviate://localhost/{}", id.to_canonical());
    assert_eq!(beacon_note_id(&beacon), Some(id));
    assert_eq!(beacon_note_id("weaviate://localhost/garbage"), None);
    assert_eq!(beacon_note_id(&id.to_canonical()), Some(id));
}

#[test]
fn explore_result_resolves_notes_in_index_order() {
    let mut svc = NotesService::new(DynamoNotesRepository::new(10));
    let a = note(1, "first", "aa");
    let b = note(2, "second", "bb");
    assert!(svc.create(&a).is_ok());
    assert!(svc.create(&b).is_ok());
    let result = ExploreQueryResult {
        beacons: vec![
            format!("weaviate://localhost/{}", b.id.to_canonical()),
            format!("weaviate://localhost/{}", a.id.to_canonical()),
        ],
    };
    let notes = result.get_notes(&svc).unwrap();
    assert_eq!(notes.len(), 2);
    assert_eq!(notes[0].id, NoteId { value: 2 });
    assert_eq!(notes[1].id, NoteId { value: 1 });

    let unknown = ExploreQueryResult {
        beacons: vec![format!(
            "weaviate://localhost/{}",
            NoteId { value: 99 }.to_canonical()
        )],
    };
    assert!(unknown.get_notes(&svc).is_err());
}

#[test]
fn grounding_message_lists_the_notes() {
    let service = ChatGptService::new();
    let message = service.context_message(&vec![note(1, "A", "B")]);
    assert_eq!(
        message,
        "Here comes a list of relevant notes. Derive your answer from these notes\nTITLE: A, BODY: B\nHere comes the question:"
    );
}
