//! The record contract.
//!
//! A stored record derives its composite primary key and its
//! secondary-index attributes from its own fields, and maps structurally
//! to and from the store's attribute representation. Both sides of the
//! mapping are stated over the record's ghost shape (its model): a
//! well-formed record's shape survives the round trip unchanged, also
//! after the key and index attributes are attached for a write.

use vstd::prelude::*;
use crate::attrs::{item_extend, AttrMap, AttrValueModel, ItemModel};
use crate::errors::DynamoRepositoryError;
use crate::table::{key_of, pk_name, sk_name, KeyModel};

verus! {

/// The serialized form of a composite primary key: its two key
/// attributes.
pub open spec fn key_item(k: KeyModel) -> ItemModel {
    seq![(pk_name(), AttrValueModel::Text(k.pk)), (sk_name(), AttrValueModel::Text(k.sk))]
}

/// A domain record that can live in the single table.
pub trait Entity: Sized {
    /// The ghost shape of the record: what its contracts speak of.
    type Model;

    /// Whether the record is well formed.
    spec fn wf(&self) -> bool;

    /// The record's ghost shape.
    spec fn model(&self) -> Self::Model;

    /// Whether a ghost shape is one a well-formed record can have.
    spec fn model_wf(m: Self::Model) -> bool;

    /// The composite primary key, a pure function of the record's shape.
    spec fn spec_primary_key(m: Self::Model) -> KeyModel;

    /// The secondary-index attributes attached at write time.
    spec fn spec_index_fields(m: Self::Model) -> ItemModel;

    /// The record's own serialized attributes.
    spec fn spec_serialize(m: Self::Model) -> ItemModel;

    /// What shape deserializing an item yields, if any.
    spec fn spec_deserialize(item: ItemModel) -> Option<Self::Model>;

    /// A well-formed record has a well-formed shape.
    proof fn lemma_model_wf(&self)
        requires
            self.wf(),
        ensures
            Self::model_wf(self.model()),
    ;

    /// A well-formed shape deserializes from its own serialization.
    proof fn lemma_round_trip(m: Self::Model)
        requires
            Self::model_wf(m),
        ensures
            Self::spec_deserialize(Self::spec_serialize(m)) == Some(m),
    ;

    /// Attaching the index and key attributes does not disturb
    /// deserialization.
    proof fn lemma_stored_round_trip(m: Self::Model)
        requires
            Self::model_wf(m),
        ensures
            Self::spec_deserialize(
                item_extend(
                    item_extend(Self::spec_serialize(m), Self::spec_index_fields(m)),
                    key_item(Self::spec_primary_key(m)),
                ),
            ) == Some(m),
    ;

    /// Whatever deserializes is a well-formed shape.
    proof fn lemma_deserialize_wf(item: ItemModel)
        ensures
            Self::spec_deserialize(item) matches Some(m) ==> Self::model_wf(m),
    ;

    /// Serializes the composite primary key into its two key attributes.
    fn serialize_primary_key(&self) -> (r: AttrMap)
        requires
            self.wf(),
        ensures
            r@ == key_item(Self::spec_primary_key(self.model())),
    ;

    /// Serializes the secondary-index attributes.
    fn serialize_index_fields(&self) -> (r: AttrMap)
        requires
            self.wf(),
        ensures
            r@ == Self::spec_index_fields(self.model()),
    ;

    /// Serializes the record's own attributes.
    fn serialize(&self) -> (r: AttrMap)
        requires
            self.wf(),
        ensures
            r@ == Self::spec_serialize(self.model()),
    ;

    /// Deserializes a record from stored attributes; an item of the wrong
    /// shape is a `DeserializationError`, never silently coerced.
    fn from_attribute_values(values: &AttrMap) -> (r: Result<Self, DynamoRepositoryError>)
        ensures
            match Self::spec_deserialize(values@) {
                Some(m) => match r {
                    Ok(e) => e.wf() && e.model() == m,
                    Err(_) => false,
                },
                None => r == Err::<Self, DynamoRepositoryError>(
                    DynamoRepositoryError::DeserializationError,
                ),
            },
    ;
}

/// The full stored shape of a record: its own attributes, extended by the
/// secondary-index attributes, extended by the primary-key attributes.
pub open spec fn spec_serialize_with_indexes<E: Entity>(m: E::Model) -> ItemModel {
    item_extend(
        item_extend(E::spec_serialize(m), E::spec_index_fields(m)),
        key_item(E::spec_primary_key(m)),
    )
}

/// A serialized key bundle reads back as exactly its own key.
pub proof fn lemma_key_item_key(k: KeyModel)
    ensures
        key_of(key_item(k)) == Some(k),
        crate::attrs::distinct_names(key_item(k)),
{
    reveal_strlit("pk");
    reveal_strlit("sk");
    assert(pk_name()[0] == 'p' && sk_name()[0] == 's');
    assert(pk_name() != sk_name());
    let ki = key_item(k);
    assert(ki[0] == (pk_name(), AttrValueModel::Text(k.pk)));
    assert(ki.drop_first() =~= seq![(sk_name(), AttrValueModel::Text(k.sk))]);
    assert(crate::attrs::item_get(ki, pk_name()) == Some(AttrValueModel::Text(k.pk)));
    assert(crate::attrs::item_get(ki.drop_first(), sk_name()) == Some(
        AttrValueModel::Text(k.sk),
    ));
    assert(crate::attrs::item_get(ki, sk_name()) == Some(AttrValueModel::Text(k.sk)));
}

/// The stored shape of a record sits at the record's own primary key.
pub proof fn lemma_stored_key<E: Entity>(m: E::Model)
    ensures
        key_of(spec_serialize_with_indexes::<E>(m)) == Some(E::spec_primary_key(m)),
{
    let k = E::spec_primary_key(m);
    let base = item_extend(E::spec_serialize(m), E::spec_index_fields(m));
    lemma_key_item_key(k);
    crate::attrs::lemma_item_extend_get(base, key_item(k), pk_name());
    crate::attrs::lemma_item_extend_get(base, key_item(k), sk_name());
    let ki = key_item(k);
    assert(ki[0] == (pk_name(), AttrValueModel::Text(k.pk)));
    assert(ki.drop_first() =~= seq![(sk_name(), AttrValueModel::Text(k.sk))]);
    assert(crate::attrs::item_get(ki, pk_name()) == Some(AttrValueModel::Text(k.pk)));
    assert(crate::attrs::item_get(ki.drop_first(), sk_name()) == Some(
        AttrValueModel::Text(k.sk),
    ));
    assert(crate::attrs::item_get(ki, sk_name()) == Some(AttrValueModel::Text(k.sk)));
}

/// Serializes a record together with its index and key attributes: what a
/// write stores under the record's primary key.
pub fn serialize_with_indexes<E: Entity>(e: &E) -> (r: AttrMap)
    requires
        e.wf(),
    ensures
        r@ == spec_serialize_with_indexes::<E>(e.model()),
        key_of(r@) == Some(E::spec_primary_key(e.model())),
{
    let mut item = e.serialize();
    let index_fields = e.serialize_index_fields();
    let key_fields = e.serialize_primary_key();
    item.extend(&index_fields);
    item.extend(&key_fields);
    proof {
        lemma_stored_key::<E>(e.model());
    }
    item
}

/// The ghost shapes of a sequence of records.
pub open spec fn models_of<E: Entity>(s: Seq<E>) -> Seq<E::Model> {
    s.map(|i: int, e: E| e.model())
}

/// Whether every record of a sequence is well formed.
pub open spec fn all_wf<E: Entity>(s: Seq<E>) -> bool {
    forall|i: int| 0 <= i < s.len() ==> (#[trigger] s[i]).wf()
}

/// A two-way mapping between a presentation model and its entity.
pub trait Model: Sized {
    /// The entity this model maps onto.
    type Entity;

    /// Converts the model into its entity.
    fn to_entity(self) -> Self::Entity;

    /// Builds the model back from an entity.
    fn from_entity(entity: Self::Entity) -> Self;
}

} // verus!
