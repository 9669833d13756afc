use notes_orm::attrs::{AttrMap, AttrValue, Indexes};
use notes_orm::entity::{serialize_with_indexes, Entity, Model};
use notes_orm::errors::DynamoRepositoryError;
use notes_orm::ids::NoteId;
use notes_orm::notes::{NoteEntity, NewNoteEntity};

struct UserModel {
    id: i32,
    name: String,
}

struct UserEntity {
    id: i32,
    name: String,
}

impl Model for UserModel {
    type Entity = UserEntity;

    fn to_entity(self) -> Self::Entity {
        UserEntity { id: self.id, name: self.name }
    }

    fn from_entity(entity: Self::Entity) -> Self {
        UserModel { id: entity.id, name: entity.name }
    }
}

#[test]
fn it_maps() {
    let entity = UserEntity { id: 1, name: "name".to_string() };
    let model = UserModel { id: 1, name: "name".to_string() };
    let mapped_model = UserModel::from_entity(entity);
    assert_eq!(mapped_model.id, model.id);
    assert_eq!(mapped_model.name, model.name);
}

fn sample_note(id: u128) -> NoteEntity {
    NoteEntity {
        id: NoteId { value: id },
        title: "Hello".to_string(),
        body: "World".to_string(),
        encoded: None,
    }
}

#[test]
fn bla() {
    let entity = NoteEntity {
        id: NoteId { value: 1 },
        title: "Hello".to_string(),
        body: "World".to_string(),
        encoded: None,
    };
    let _item = entity.serialize();
}

#[test]
fn note_round_trips_through_attributes() {
    let note = sample_note(7);
    let item = note.serialize();
    let back = NoteEntity::from_attribute_values(&item).unwrap();
    assert_eq!(back.id, note.id);
    assert_eq!(back.title, note.title);
    assert_eq!(back.body, note.body);
    assert!(back.encoded.is_none());
}

#[test]
fn enriched_note_round_trips_through_attributes() {
    let mut note = sample_note(9);
    note.encoded = Some(vec![1, 2, 3]);
    let item = note.serialize();
    let back = NoteEntity::from_attribute_values(&item).unwrap();
    assert_eq!(back.encoded, Some(vec![1, 2, 3]));
}

#[test]
fn primary_key_stable_across_round_trip() {
    let note = sample_note(42);
    let key_before = note.get_primary_key();
    let key_again = note.get_primary_key();
    assert_eq!(key_before.pk, key_again.pk);
    assert_eq!(key_before.sk, key_again.sk);
    let stored = serialize_with_indexes(&note);
    let back = NoteEntity::from_attribute_values(&stored).unwrap();
    let key_after = back.get_primary_key();
    assert_eq!(key_before.pk, key_after.pk);
    assert_eq!(key_before.sk, key_after.sk);
}

#[test]
fn malformed_item_is_a_deserialization_error() {
    let mut item = AttrMap::new();
    item.insert("id".to_string(), AttrValue::Text("not-an-identifier".to_string()));
    let r = NoteEntity::from_attribute_values(&item);
    assert!(matches!(r, Err(DynamoRepositoryError::DeserializationError)));
}

#[test]
fn new_note_entity_takes_the_assigned_id() {
    let fresh = NewNoteEntity { title: "t".to_string(), body: "b".to_string() };
    let entity = fresh.to_entity(NoteId { value: 5 });
    assert_eq!(entity.id, NoteId { value: 5 });
    assert_eq!(entity.title, "t");
    assert!(entity.encoded.is_none());
}

#[test]
fn canonical_id_renders_and_parses() {
    let id = NoteId { value: 0x5e9177dcfd5b4db5b1e5f108cd84a93c };
    let text = id.to_canonical();
    assert_eq!(text, "5e9177dc-fd5b-4db5-b1e5-f108cd84a93c");
    let parsed = NoteId::parse(&text).unwrap();
    assert_eq!(parsed, id);
    assert!(NoteId::parse("not-a-canonical-identifier").is_none());
    assert!(NoteId::parse("5E9177DC-FD5B-4DB5-B1E5-F108CD84A93C").is_none());
}

#[test]
fn index_bundle_serializes_its_populated_attributes() {
    let full = Indexes {
        pk: "NOTE".to_string(),
        sk: "NOTE_ID#1".to_string(),
        gsi_1_pk: Some("USER".to_string()),
        gsi_1_sk: Some("USER_ID#2".to_string()),
    };
    let item = full.dynamo_serialize();
    assert_eq!(item.len(), 4);
    assert!(matches!(item.get("pk"), Some(AttrValue::Text(p)) if p == "NOTE"));
    assert!(matches!(item.get("gsi_1_sk"), Some(AttrValue::Text(s)) if s == "USER_ID#2"));

    let bare = Indexes {
        pk: "NOTE".to_string(),
        sk: "NOTE_ID#1".to_string(),
        gsi_1_pk: None,
        gsi_1_sk: None,
    };
    let item = bare.dynamo_serialize();
    assert_eq!(item.len(), 2);
    assert!(item.get("gsi_1_pk").is_none());
}

#[test]
fn errors_describe_themselves() {
    assert_eq!(
        DynamoRepositoryError::ConflictError.describe(),
        "an item already occupies this primary key"
    );
    assert_eq!(
        DynamoRepositoryError::NotFoundError.describe(),
        "the item was not found"
    );
    assert_eq!(
        DynamoRepositoryError::DeserializationError.describe(),
        "the stored item could not be deserialized"
    );
}

#[test]
fn attribute_map_insert_replaces_in_place() {
    let mut item = AttrMap::new();
    item.insert("a".to_string(), AttrValue::Int(1));
    item.insert("b".to_string(), AttrValue::Int(2));
    item.insert("a".to_string(), AttrValue::Int(3));
    assert_eq!(item.len(), 2);
    assert!(matches!(item.get("a"), Some(AttrValue::Int(3))));
    assert!(matches!(item.get("b"), Some(AttrValue::Int(2))));
    assert!(item.get("c").is_none());
}
