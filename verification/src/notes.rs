//! The notes domain: the record type, its storage mapping, and its index
//! specifications.
//!
//! A note's partition key is the constant collection discriminator
//! `NOTE`; its sort key embeds the note's identifier with the type prefix
//! `NOTE_ID#`. An enriched note additionally carries its embedding
//! vector.

use vstd::prelude::*;
use crate::attrs::{
    item_get, item_insert, lemma_item_extend_get, lemma_item_insert_fresh, AttrMap, AttrValue,
    AttrValueModel, ItemModel,
};
use crate::entity::{key_item, lemma_key_item_key, Entity};
use crate::errors::DynamoRepositoryError;
use crate::ids::{id_seq, lemma_id_round_trip, spec_parse_id, NoteId};
use crate::repository::RepositoryIndex;
use crate::table::{pk_name, sk_name, KeyModel};

verus! {

/// The constant partition discriminator of the notes collection.
pub open spec fn note_partition() -> Seq<char> {
    "NOTE"@
}

/// The sort key of a note: the type prefix followed by the identifier in
/// canonical form.
pub open spec fn note_sort_key(id: u128) -> Seq<char> {
    "NOTE_ID#"@ + id_seq(id)
}

/// The composite primary key of a note.
pub open spec fn note_key(id: u128) -> KeyModel {
    KeyModel { pk: note_partition(), sk: note_sort_key(id) }
}

/// The ghost shape of a note.
pub struct NoteModel {
    pub id: u128,
    pub title: Seq<char>,
    pub body: Seq<char>,
    pub encoded: Option<Seq<u32>>,
}

/// A stored note: a stable identifier, its text, and optionally the
/// embedding vector the encoding worker produced for it.
pub struct NoteEntity {
    pub id: NoteId,
    pub title: String,
    pub body: String,
    pub encoded: Option<Vec<u32>>,
}

impl View for NoteEntity {
    type V = NoteModel;

    open spec fn view(&self) -> NoteModel {
        NoteModel {
            id: self.id.value,
            title: self.title@,
            body: self.body@,
            encoded: match self.encoded {
                Some(v) => Some(v@),
                None => None,
            },
        }
    }
}

impl Clone for NoteEntity {
    fn clone(&self) -> (r: Self)
        ensures
            r@ == self@,
    {
        let encoded = match &self.encoded {
            Some(v) => Some(crate::attrs::u32_vec_clone(v)),
            None => None,
        };
        let r = NoteEntity {
            id: self.id,
            title: self.title.clone(),
            body: self.body.clone(),
            encoded,
        };
        proof {
            assert(r@ == self@);
        }
        r
    }
}

/// A note's own serialized attributes, before the embedding.
pub open spec fn note_base_item(m: NoteModel) -> ItemModel {
    seq![
        ("id"@, AttrValueModel::Text(id_seq(m.id))),
        ("title"@, AttrValueModel::Text(m.title)),
        ("body"@, AttrValueModel::Text(m.body)),
    ]
}

/// A note's full serialized attributes: the embedding attribute is
/// present exactly when the note is enriched.
pub open spec fn note_item(m: NoteModel) -> ItemModel {
    match m.encoded {
        None => note_base_item(m),
        Some(e) => note_base_item(m).push(("encoded"@, AttrValueModel::Vector(e))),
    }
}

/// What shape a stored item deserializes to: the identifier must be
/// canonical, the text attributes must be text, and the embedding, when
/// present, must be a vector.
pub open spec fn note_of_item(item: ItemModel) -> Option<NoteModel> {
    match (item_get(item, "id"@), item_get(item, "title"@), item_get(item, "body"@)) {
        (
            Some(AttrValueModel::Text(ids)),
            Some(AttrValueModel::Text(t)),
            Some(AttrValueModel::Text(b)),
        ) => match spec_parse_id(ids) {
            None => None,
            Some(v) => match item_get(item, "encoded"@) {
                None => Some(NoteModel { id: v, title: t, body: b, encoded: None }),
                Some(AttrValueModel::Vector(e)) => Some(
                    NoteModel { id: v, title: t, body: b, encoded: Some(e) },
                ),
                Some(_) => None,
            },
        },
        _ => None,
    }
}

/// The four attribute names of a note are pairwise distinct, and distinct
/// from the key attribute names.
proof fn lemma_note_names_distinct()
    ensures
        "id"@ != "title"@ && "id"@ != "body"@ && "id"@ != "encoded"@,
        "title"@ != "body"@ && "title"@ != "encoded"@,
        "body"@ != "encoded"@,
        pk_name() != "id"@ && pk_name() != "title"@ && pk_name() != "body"@ && pk_name()
            != "encoded"@,
        sk_name() != "id"@ && sk_name() != "title"@ && sk_name() != "body"@ && sk_name()
            != "encoded"@,
{
    reveal_strlit("id");
    reveal_strlit("title");
    reveal_strlit("body");
    reveal_strlit("encoded");
    reveal_strlit("pk");
    reveal_strlit("sk");
    assert("id"@[0] == 'i' && "title"@[0] == 't' && "body"@[0] == 'b' && "encoded"@[0] == 'e');
    assert(pk_name()[0] == 'p' && sk_name()[0] == 's');
}

/// What each of a note's four attribute names reads back as from its
/// serialized form.
proof fn lemma_note_item_gets(m: NoteModel)
    ensures
        item_get(note_item(m), "id"@) == Some(AttrValueModel::Text(id_seq(m.id))),
        item_get(note_item(m), "title"@) == Some(AttrValueModel::Text(m.title)),
        item_get(note_item(m), "body"@) == Some(AttrValueModel::Text(m.body)),
        item_get(note_item(m), "encoded"@) == match m.encoded {
            None => None::<AttrValueModel>,
            Some(e) => Some(AttrValueModel::Vector(e)),
        },
{
    lemma_note_names_distinct();
    let base = note_base_item(m);
    lemma_note_base_gets(m);
    match m.encoded {
        None => {},
        Some(e) => {
            let entry = ("encoded"@, AttrValueModel::Vector(e));
            assert(note_item(m) == base.push(entry));
            crate::attrs::lemma_item_get_push(base, entry, "id"@);
            crate::attrs::lemma_item_get_push(base, entry, "title"@);
            crate::attrs::lemma_item_get_push(base, entry, "body"@);
            crate::attrs::lemma_item_get_push(base, entry, "encoded"@);
        },
    }
}

/// What each attribute name reads back as from the un-enriched part of a
/// note's serialized form.
proof fn lemma_note_base_gets(m: NoteModel)
    ensures
        item_get(note_base_item(m), "id"@) == Some(AttrValueModel::Text(id_seq(m.id))),
        item_get(note_base_item(m), "title"@) == Some(AttrValueModel::Text(m.title)),
        item_get(note_base_item(m), "body"@) == Some(AttrValueModel::Text(m.body)),
        item_get(note_base_item(m), "encoded"@) is None,
{
    lemma_note_names_distinct();
    let base = note_base_item(m);
    let one = base.drop_first();
    let two = one.drop_first();
    let three = two.drop_first();
    assert(base[0] == ("id"@, AttrValueModel::Text(id_seq(m.id))));
    assert(one =~= seq![
        ("title"@, AttrValueModel::Text(m.title)),
        ("body"@, AttrValueModel::Text(m.body)),
    ]);
    assert(one[0] == ("title"@, AttrValueModel::Text(m.title)));
    assert(two =~= seq![("body"@, AttrValueModel::Text(m.body))]);
    assert(two[0] == ("body"@, AttrValueModel::Text(m.body)));
    assert(three.len() == 0);
    assert(item_get(three, "encoded"@) is None);
    assert(item_get(two, "encoded"@) == item_get(three, "encoded"@));
    assert(item_get(one, "encoded"@) == item_get(two, "encoded"@));
    assert(item_get(base, "encoded"@) == item_get(one, "encoded"@));
    assert(item_get(two, "body"@) == Some(AttrValueModel::Text(m.body)));
    assert(item_get(one, "body"@) == item_get(two, "body"@));
    assert(item_get(base, "body"@) == item_get(one, "body"@));
    assert(item_get(one, "title"@) == Some(AttrValueModel::Text(m.title)));
    assert(item_get(base, "title"@) == item_get(one, "title"@));
    assert(item_get(base, "id"@) == Some(AttrValueModel::Text(id_seq(m.id))));
}

/// A name other than the two key attribute names finds nothing in a
/// serialized key bundle.
proof fn lemma_key_item_get_other(k: KeyModel, name: Seq<char>)
    requires
        name != pk_name(),
        name != sk_name(),
    ensures
        item_get(key_item(k), name) is None,
{
    let ki = key_item(k);
    let one = ki.drop_first();
    assert(ki[0] == (pk_name(), AttrValueModel::Text(k.pk)));
    assert(one =~= seq![(sk_name(), AttrValueModel::Text(k.sk))]);
    assert(one[0] == (sk_name(), AttrValueModel::Text(k.sk)));
    assert(one.drop_first().len() == 0);
    assert(item_get(one.drop_first(), name) is None);
    assert(item_get(one, name) == item_get(one.drop_first(), name));
    assert(item_get(ki, name) == item_get(one, name));
}

impl Entity for NoteEntity {
    type Model = NoteModel;

    open spec fn wf(&self) -> bool {
        true
    }

    open spec fn model(&self) -> NoteModel {
        self@
    }

    open spec fn model_wf(m: NoteModel) -> bool {
        true
    }

    open spec fn spec_primary_key(m: NoteModel) -> KeyModel {
        note_key(m.id)
    }

    open spec fn spec_index_fields(m: NoteModel) -> ItemModel {
        Seq::empty()
    }

    open spec fn spec_serialize(m: NoteModel) -> ItemModel {
        note_item(m)
    }

    open spec fn spec_deserialize(item: ItemModel) -> Option<NoteModel> {
        note_of_item(item)
    }

    proof fn lemma_model_wf(&self) {
    }

    proof fn lemma_round_trip(m: NoteModel) {
        lemma_note_item_gets(m);
        lemma_id_round_trip(m.id);
    }

    proof fn lemma_stored_round_trip(m: NoteModel) {
        let base = note_item(m);
        let with_index = crate::attrs::item_extend(base, Seq::empty());
        assert(with_index == base);
        let ki = key_item(note_key(m.id));
        let stored = crate::attrs::item_extend(with_index, ki);
        lemma_key_item_key(note_key(m.id));
        lemma_note_names_distinct();
        lemma_item_extend_get(with_index, ki, "id"@);
        lemma_item_extend_get(with_index, ki, "title"@);
        lemma_item_extend_get(with_index, ki, "body"@);
        lemma_item_extend_get(with_index, ki, "encoded"@);
        lemma_key_item_get_other(note_key(m.id), "id"@);
        lemma_key_item_get_other(note_key(m.id), "title"@);
        lemma_key_item_get_other(note_key(m.id), "body"@);
        lemma_key_item_get_other(note_key(m.id), "encoded"@);
        lemma_note_item_gets(m);
        lemma_id_round_trip(m.id);
    }

    proof fn lemma_deserialize_wf(item: ItemModel) {
    }

    fn serialize_primary_key(&self) -> (r: AttrMap) {
        let key = self.get_primary_key();
        let mut r = AttrMap::new();
        let ghost empty = r@;
        r.insert(String::from_str("pk"), AttrValue::Text(key.pk));
        proof {
            lemma_item_insert_fresh(empty, pk_name(), AttrValueModel::Text(note_partition()));
        }
        let ghost one = r@;
        r.insert(String::from_str("sk"), AttrValue::Text(key.sk));
        proof {
            reveal_strlit("pk");
            reveal_strlit("sk");
            assert(pk_name()[0] == 'p' && sk_name()[0] == 's');
            assert(forall|j: int| 0 <= j < one.len() ==> one[j].0 != sk_name());
            lemma_item_insert_fresh(
                one,
                sk_name(),
                AttrValueModel::Text(note_sort_key(self@.id)),
            );
            assert(r@ =~= key_item(note_key(self@.id)));
        }
        r
    }

    fn serialize_index_fields(&self) -> (r: AttrMap) {
        let r = AttrMap::new();
        proof {
            assert(r@ =~= Seq::<(Seq<char>, AttrValueModel)>::empty());
        }
        r
    }

    fn serialize(&self) -> (r: AttrMap) {
        let mut r = AttrMap::new();
        proof {
            lemma_note_names_distinct();
        }
        let ghost s0 = r@;
        r.insert(String::from_str("id"), AttrValue::Text(self.id.to_canonical()));
        proof {
            lemma_item_insert_fresh(s0, "id"@, AttrValueModel::Text(id_seq(self@.id)));
        }
        let ghost s1 = r@;
        r.insert(String::from_str("title"), AttrValue::Text(self.title.clone()));
        proof {
            assert(forall|j: int| 0 <= j < s1.len() ==> s1[j].0 != "title"@);
            lemma_item_insert_fresh(s1, "title"@, AttrValueModel::Text(self@.title));
        }
        let ghost s2 = r@;
        r.insert(String::from_str("body"), AttrValue::Text(self.body.clone()));
        proof {
            assert(forall|j: int| 0 <= j < s2.len() ==> s2[j].0 != "body"@);
            lemma_item_insert_fresh(s2, "body"@, AttrValueModel::Text(self@.body));
        }
        match &self.encoded {
            None => {
                proof {
                    assert(r@ =~= note_item(self@));
                }
                r
            },
            Some(v) => {
                let ghost s3 = r@;
                let copy = crate::attrs::u32_vec_clone(v);
                r.insert(String::from_str("encoded"), AttrValue::Vector(copy));
                proof {
                    assert(forall|j: int| 0 <= j < s3.len() ==> s3[j].0 != "encoded"@);
                    lemma_item_insert_fresh(
                        s3,
                        "encoded"@,
                        AttrValueModel::Vector(self@.encoded->Some_0),
                    );
                    assert(r@ =~= note_item(self@));
                }
                r
            },
        }
    }

    fn from_attribute_values(values: &AttrMap) -> (r: Result<Self, DynamoRepositoryError>) {
        let id = match values.get("id") {
            Some(AttrValue::Text(s)) => match NoteId::parse(s.as_str()) {
                Some(id) => id,
                None => {
                    return Err(DynamoRepositoryError::DeserializationError);
                },
            },
            _ => {
                return Err(DynamoRepositoryError::DeserializationError);
            },
        };
        let title = match values.get("title") {
            Some(AttrValue::Text(t)) => t.clone(),
            _ => {
                return Err(DynamoRepositoryError::DeserializationError);
            },
        };
        let body = match values.get("body") {
            Some(AttrValue::Text(b)) => b.clone(),
            _ => {
                return Err(DynamoRepositoryError::DeserializationError);
            },
        };
        let encoded = match values.get("encoded") {
            None => None,
            Some(av) => match av.clone() {
                AttrValue::Vector(v) => Some(v),
                _ => {
                    return Err(DynamoRepositoryError::DeserializationError);
                },
            },
        };
        Ok(NoteEntity { id, title, body, encoded })
    }
}

/// The typed composite key of a note, as two key attributes.
pub struct NotePrimaryKey {
    pub pk: String,
    pub sk: String,
}

impl View for NotePrimaryKey {
    type V = KeyModel;

    open spec fn view(&self) -> KeyModel {
        KeyModel { pk: self.pk@, sk: self.sk@ }
    }
}

/// A note has no secondary-index attributes.
pub struct NoteIndex {}

impl NoteEntity {
    /// Derives the note's composite primary key from its own fields.
    pub fn get_primary_key(&self) -> (r: NotePrimaryKey)
        ensures
            r@ == note_key(self@.id),
    {
        let pk = String::from_str("NOTE");
        let mut sk = String::from_str("NOTE_ID#");
        let canonical = self.id.to_canonical();
        sk.append(canonical.as_str());
        NotePrimaryKey { pk, sk }
    }

    /// A note populates no secondary index.
    pub fn get_index_fields(&self) -> NoteIndex {
        NoteIndex {  }
    }

    /// Builds the un-enriched note a new-note request describes, under a
    /// fresh identifier.
    pub fn from_new(title: String, body: String, id: NoteId) -> (r: Self)
        ensures
            r@ == (NoteModel { id: id.value, title: title@, body: body@, encoded: None }),
    {
        NoteEntity { id, title, body, encoded: None }
    }

    /// The note enriched with an embedding vector, all else unchanged.
    pub fn with_embedding(&self, embedding: Vec<u32>) -> (r: Self)
        ensures
            r@ == (NoteModel { encoded: Some(embedding@), ..self@ }),
    {
        let base = self.clone();
        NoteEntity { id: base.id, title: base.title, body: base.body, encoded: Some(embedding) }
    }
}

/// A note as it arrives to be created: its text, before an identifier is
/// assigned.
pub struct NewNoteEntity {
    pub title: String,
    pub body: String,
}

impl NewNoteEntity {
    /// The un-enriched note this request describes, under the assigned
    /// identifier.
    pub fn to_entity(self, id: NoteId) -> (r: NoteEntity)
        ensures
            r@ == (NoteModel { id: id.value, title: self.title@, body: self.body@, encoded: None }),
    {
        NoteEntity { id, title: self.title, body: self.body, encoded: None }
    }
}

/// The exact-match lookup key of one note.
pub struct NotePrimaryIndex {
    pk: String,
    sk: String,
}

impl NotePrimaryIndex {
    /// The lookup key of the note with an identifier.
    pub fn find_by_id(id: NoteId) -> (r: Self)
        ensures
            r.spec_key() == key_item(note_key(id.value)),
    {
        let pk = String::from_str("NOTE");
        let mut sk = String::from_str("NOTE_ID#");
        let canonical = id.to_canonical();
        sk.append(canonical.as_str());
        let r = NotePrimaryIndex { pk, sk };
        proof {
            assert(r.spec_key() =~= key_item(note_key(id.value)));
        }
        r
    }
}

impl RepositoryIndex for NotePrimaryIndex {
    closed spec fn spec_key(&self) -> ItemModel {
        key_item(KeyModel { pk: self.pk@, sk: self.sk@ })
    }

    fn to_key(&self) -> (r: AttrMap) {
        let mut r = AttrMap::new();
        let ghost empty = r@;
        r.insert(String::from_str("pk"), AttrValue::Text(self.pk.clone()));
        proof {
            lemma_item_insert_fresh(empty, pk_name(), AttrValueModel::Text(self.pk@));
        }
        let ghost one = r@;
        r.insert(String::from_str("sk"), AttrValue::Text(self.sk.clone()));
        proof {
            reveal_strlit("pk");
            reveal_strlit("sk");
            assert(pk_name()[0] == 'p' && sk_name()[0] == 's');
            assert(forall|j: int| 0 <= j < one.len() ==> one[j].0 != sk_name());
            lemma_item_insert_fresh(one, sk_name(), AttrValueModel::Text(self.sk@));
            assert(r@ =~= self.spec_key());
        }
        r
    }

    fn clone_index(&self) -> (r: Self) {
        NotePrimaryIndex { pk: self.pk.clone(), sk: self.sk.clone() }
    }
}

/// The query condition that selects the whole notes collection.
pub struct QueryNoteIndex {
    pk: String,
}

impl QueryNoteIndex {
    /// The condition matching every note: equality on the shared
    /// partition discriminator.
    pub fn find_all() -> (r: Self)
        ensures
            r.spec_key() == seq![(pk_name(), AttrValueModel::Text(note_partition()))],
    {
        let r = QueryNoteIndex { pk: String::from_str("NOTE") };
        proof {
            assert(r.spec_key() =~= seq![(pk_name(), AttrValueModel::Text(note_partition()))]);
        }
        r
    }
}

impl RepositoryIndex for QueryNoteIndex {
    closed spec fn spec_key(&self) -> ItemModel {
        seq![(pk_name(), AttrValueModel::Text(self.pk@))]
    }

    fn to_key(&self) -> (r: AttrMap) {
        let mut r = AttrMap::new();
        let ghost empty = r@;
        r.insert(String::from_str("pk"), AttrValue::Text(self.pk.clone()));
        proof {
            lemma_item_insert_fresh(empty, pk_name(), AttrValueModel::Text(self.pk@));
            assert(r@ =~= self.spec_key());
        }
        r
    }

    fn clone_index(&self) -> (r: Self) {
        QueryNoteIndex { pk: self.pk.clone() }
    }
}

/// The identifier of a note survives storage: serializing a note and
/// deserializing it yields the same shape, so the primary key derived
/// before the round trip equals the one derived after it. The key is a
/// pure function of the shape, so repeated derivations agree as well.
pub proof fn lemma_primary_key_stable(m: NoteModel)
    ensures
        note_of_item(note_item(m)) == Some(m),
        NoteEntity::spec_primary_key(note_of_item(note_item(m))->Some_0) == NoteEntity::spec_primary_key(m),
{
    NoteEntity::lemma_round_trip(m);
}

} // verus!
