//! Attribute values and attribute maps: the store's item representation.
//!
//! An item is an ordered list of `(name, value)` pairs with first-match
//! lookup; serialization of records and index specifications produces such
//! maps, and the table model stores them.

use vstd::prelude::*;

verus! {

/// The ghost shape of one stored attribute value.
pub enum AttrValueModel {
    /// A string attribute.
    Text(Seq<char>),
    /// A numeric attribute.
    Int(int),
    /// A fixed-length embedding vector, carried as the bit patterns of its
    /// 32-bit components.
    Vector(Seq<u32>),
}

/// One attribute value as stored in an item.
pub enum AttrValue {
    Text(String),
    Int(i64),
    Vector(Vec<u32>),
}

impl View for AttrValue {
    type V = AttrValueModel;

    open spec fn view(&self) -> AttrValueModel {
        match self {
            AttrValue::Text(s) => AttrValueModel::Text(s@),
            AttrValue::Int(i) => AttrValueModel::Int(*i as int),
            AttrValue::Vector(v) => AttrValueModel::Vector(v@),
        }
    }
}

impl Clone for AttrValue {
    fn clone(&self) -> (r: Self)
        ensures
            r@ == self@,
    {
        match self {
            AttrValue::Text(s) => AttrValue::Text(s.clone()),
            AttrValue::Int(i) => AttrValue::Int(*i),
            AttrValue::Vector(v) => AttrValue::Vector(u32_vec_clone(v)),
        }
    }
}

/// Copies a `u32` vector, preserving its view.
pub fn u32_vec_clone(v: &Vec<u32>) -> (r: Vec<u32>)
    ensures
        r@ == v@,
{
    let mut copy: Vec<u32> = Vec::new();
    let mut i: usize = 0;
    while i < v.len()
        invariant
            i <= v.len(),
            copy@ == v@.subrange(0, i as int),
        decreases v.len() - i,
    {
        copy.push(v[i]);
        i = i + 1;
    }
    proof {
        assert(copy@ =~= v@);
    }
    copy
}

/// Compares two `u32` vectors for equality of their views.
pub fn u32_vec_eq(a: &Vec<u32>, b: &Vec<u32>) -> (r: bool)
    ensures
        r <==> a@ == b@,
{
    if a.len() != b.len() {
        proof {
            assert(a@.len() != b@.len());
        }
        return false;
    }
    let mut i: usize = 0;
    while i < a.len()
        invariant
            i <= a.len(),
            a@.len() == b@.len(),
            forall|j: int| 0 <= j < i ==> a@[j] == b@[j],
        decreases a.len() - i,
    {
        if a[i] != b[i] {
            return false;
        }
        i = i + 1;
    }
    proof {
        assert(a@ =~= b@);
    }
    true
}

/// Compares two attribute values for equality of their views.
pub fn attr_value_eq(a: &AttrValue, b: &AttrValue) -> (r: bool)
    ensures
        r <==> a@ == b@,
{
    match (a, b) {
        (AttrValue::Text(x), AttrValue::Text(y)) => x.eq(y),
        (AttrValue::Int(x), AttrValue::Int(y)) => x == y,
        (AttrValue::Vector(x), AttrValue::Vector(y)) => u32_vec_eq(x, y),
        _ => {
            proof {
                assert(a@ != b@);
            }
            false
        },
    }
}

/// The ghost shape of one item: attribute entries in insertion order.
pub type ItemModel = Seq<(Seq<char>, AttrValueModel)>;

/// First-match lookup of a name in an item model.
pub open spec fn item_get(item: ItemModel, name: Seq<char>) -> Option<AttrValueModel>
    decreases item.len(),
{
    if item.len() == 0 {
        None
    } else if item[0].0 == name {
        Some(item[0].1)
    } else {
        item_get(item.drop_first(), name)
    }
}

/// What inserting a binding does to an item model: the first entry with the
/// same name is replaced in place; a fresh name is appended.
pub open spec fn item_insert(item: ItemModel, name: Seq<char>, value: AttrValueModel) -> ItemModel
    decreases item.len(),
{
    if item.len() == 0 {
        seq![(name, value)]
    } else if item[0].0 == name {
        item.update(0, (name, value))
    } else {
        seq![item[0]] + item_insert(item.drop_first(), name, value)
    }
}

/// What extending by another item does: its entries are inserted in order.
pub open spec fn item_extend(item: ItemModel, other: ItemModel) -> ItemModel
    decreases other.len(),
{
    if other.len() == 0 {
        item
    } else {
        item_extend(item_insert(item, other[0].0, other[0].1), other.drop_first())
    }
}

/// Whether every attribute name occurs at most once in an item.
pub open spec fn distinct_names(item: ItemModel) -> bool {
    forall|i: int, j: int| 0 <= i < j < item.len() ==> item[i].0 != item[j].0
}

/// Lookup in an inserted-into item: the inserted binding wins on its own
/// name and every other name is untouched.
pub proof fn lemma_item_insert_get(
    item: ItemModel,
    name: Seq<char>,
    value: AttrValueModel,
    probe: Seq<char>,
)
    ensures
        item_get(item_insert(item, name, value), probe) == if probe == name {
            Some(value)
        } else {
            item_get(item, probe)
        },
    decreases item.len(),
{
    if item.len() == 0 {
        let single = seq![(name, value)];
        assert(single.len() == 1 && single[0] == (name, value));
        assert(single.drop_first().len() == 0);
        assert(item_get(single.drop_first(), probe) is None);
    } else if item[0].0 == name {
        let updated = item.update(0, (name, value));
        assert(updated[0] == (name, value));
        assert(updated.drop_first() =~= item.drop_first());
        if probe != name {
            assert(item_get(updated, probe) == item_get(updated.drop_first(), probe));
            assert(item_get(item, probe) == item_get(item.drop_first(), probe));
        }
    } else {
        let inner = item_insert(item.drop_first(), name, value);
        let whole = seq![item[0]] + inner;
        assert(whole[0] == item[0]);
        assert(whole.len() > 0);
        assert(whole.drop_first() =~= inner);
        lemma_item_insert_get(item.drop_first(), name, value, probe);
        if probe == item[0].0 {
            assert(item_get(whole, probe) == Some(item[0].1));
            assert(item_get(item, probe) == Some(item[0].1));
        } else {
            assert(item_get(whole, probe) == item_get(inner, probe));
            assert(item_get(item, probe) == item_get(item.drop_first(), probe));
        }
    }
}

/// Lookup in an extended item: a name bound by the extension (whose names
/// must be distinct) wins; any other name keeps its old binding.
pub proof fn lemma_item_extend_get(item: ItemModel, other: ItemModel, probe: Seq<char>)
    requires
        distinct_names(other),
    ensures
        item_get(item_extend(item, other), probe) == match item_get(other, probe) {
            Some(v) => Some(v),
            None => item_get(item, probe),
        },
    decreases other.len(),
{
    if other.len() == 0 {
    } else {
        let stepped = item_insert(item, other[0].0, other[0].1);
        let tail = other.drop_first();
        assert(forall|i: int, j: int| 0 <= i < j < tail.len() ==> tail[i].0 != tail[j].0);
        lemma_item_extend_get(stepped, tail, probe);
        lemma_item_insert_get(item, other[0].0, other[0].1, probe);
        if probe == other[0].0 {
            assert(item_get(other, probe) == Some(other[0].1));
            if item_get(tail, probe) is Some {
                lemma_item_get_index(tail, probe);
            }
        }
    }
}

/// Lookup in an item with one entry appended: an existing binding wins;
/// otherwise the appended entry answers for its own name alone.
pub proof fn lemma_item_get_push(
    item: ItemModel,
    entry: (Seq<char>, AttrValueModel),
    probe: Seq<char>,
)
    ensures
        item_get(item.push(entry), probe) == match item_get(item, probe) {
            Some(v) => Some(v),
            None => if entry.0 == probe {
                Some(entry.1)
            } else {
                None
            },
        },
    decreases item.len(),
{
    if item.len() == 0 {
        let single = item.push(entry);
        assert(single.len() == 1 && single[0] == entry);
        assert(single.drop_first().len() == 0);
        assert(item_get(single.drop_first(), probe) is None);
    } else {
        let whole = item.push(entry);
        assert(whole[0] == item[0]);
        assert(whole.drop_first() =~= item.drop_first().push(entry));
        lemma_item_get_push(item.drop_first(), entry, probe);
        if probe == item[0].0 {
        } else {
            assert(item_get(whole, probe) == item_get(item.drop_first().push(entry), probe));
            assert(item_get(item, probe) == item_get(item.drop_first(), probe));
        }
    }
}

/// A successful lookup points at an entry of the item that bears the name.
pub proof fn lemma_item_get_index(item: ItemModel, probe: Seq<char>)
    requires
        item_get(item, probe) is Some,
    ensures
        exists|i: int|
            0 <= i < item.len() && item[i].0 == probe && item[i].1 == item_get(
                item,
                probe,
            )->Some_0,
    decreases item.len(),
{
    if item.len() == 0 {
    } else if item[0].0 == probe {
        assert(item[0].0 == probe && item[0].1 == item_get(item, probe)->Some_0);
    } else {
        lemma_item_get_index(item.drop_first(), probe);
        let i = choose|i: int|
            0 <= i < item.drop_first().len() && item.drop_first()[i].0 == probe
                && item.drop_first()[i].1 == item_get(item.drop_first(), probe)->Some_0;
        assert(item[i + 1].0 == probe && item[i + 1].1 == item_get(item, probe)->Some_0);
    }
}

/// An item: an ordered attribute map with first-match lookup.
pub struct AttrMap {
    entries: Vec<(String, AttrValue)>,
}

impl View for AttrMap {
    type V = ItemModel;

    closed spec fn view(&self) -> ItemModel {
        self.entries@.map(|i: int, e: (String, AttrValue)| (e.0@, e.1@))
    }
}

impl Clone for AttrMap {
    fn clone(&self) -> (r: Self)
        ensures
            r@ == self@,
    {
        let mut entries: Vec<(String, AttrValue)> = Vec::new();
        let mut i: usize = 0;
        while i < self.entries.len()
            invariant
                i <= self.entries.len(),
                entries@.len() == i,
                forall|j: int| #![auto] 0 <= j < i ==> entries@[j].0@ == self.entries@[j].0@
                    && entries@[j].1@ == self.entries@[j].1@,
            decreases self.entries.len() - i,
        {
            let name = self.entries[i].0.clone();
            let value = self.entries[i].1.clone();
            entries.push((name, value));
            i = i + 1;
        }
        let r = AttrMap { entries };
        proof {
            assert(r@ =~= self@);
        }
        r
    }
}

impl AttrMap {
    /// Creates an empty attribute map.
    pub fn new() -> (r: Self)
        ensures
            r@ == Seq::<(Seq<char>, AttrValueModel)>::empty(),
    {
        let r = AttrMap { entries: Vec::new() };
        proof {
            assert(r@ =~= Seq::<(Seq<char>, AttrValueModel)>::empty());
        }
        r
    }

    /// The number of attribute entries.
    pub fn len(&self) -> (r: usize)
        ensures
            r == self@.len(),
    {
        self.entries.len()
    }

    /// The name of the entry at a position.
    pub fn name_at(&self, i: usize) -> (r: &String)
        requires
            i < self@.len(),
        ensures
            r@ == self@[i as int].0,
    {
        &self.entries[i].0
    }

    /// The value of the entry at a position.
    pub fn value_at(&self, i: usize) -> (r: &AttrValue)
        requires
            i < self@.len(),
        ensures
            r@ == self@[i as int].1,
    {
        &self.entries[i].1
    }

    /// First-match lookup of an attribute by name.
    pub fn get(&self, name: &str) -> (r: Option<&AttrValue>)
        ensures
            match r {
                Some(v) => item_get(self@, name@) == Some(v@),
                None => item_get(self@, name@) == None::<AttrValueModel>,
            },
    {
        let probe = name.to_owned();
        proof {
            assert(self@.skip(0) =~= self@);
        }
        let mut i: usize = 0;
        while i < self.entries.len()
            invariant
                probe@ == name@,
                i <= self.entries.len(),
                item_get(self@, name@) == item_get(self@.skip(i as int), name@),
            decreases self.entries.len() - i,
        {
            proof {
                assert(self@.skip(i as int).drop_first() =~= self@.skip(i as int + 1));
                assert(self@.skip(i as int)[0] == self@[i as int]);
            }
            if self.entries[i].0.eq(&probe) {
                return Some(&self.entries[i].1);
            }
            i = i + 1;
        }
        proof {
            assert(self@.skip(i as int).len() == 0);
        }
        None
    }

    /// Inserts a binding: replaces the first entry with the same name in
    /// place, or appends a fresh name.
    pub fn insert(&mut self, name: String, value: AttrValue)
        ensures
            final(self)@ == item_insert(old(self)@, name@, value@),
    {
        let ghost orig = self@;
        let mut i: usize = 0;
        while i < self.entries.len()
            invariant
                i <= self.entries.len(),
                orig == old(self)@,
                self@ == orig,
                forall|j: int| 0 <= j < i ==> orig[j].0 != name@,
            decreases self.entries.len() - i,
        {
            if self.entries[i].0.eq(&name) {
                proof {
                    assert(orig[i as int].0 == name@);
                }
                self.entries.set(i, (name, value));
                proof {
                    lemma_item_insert_prefix_update(orig, name@, value@, i as int);
                    assert(self@ =~= orig.update(i as int, (name@, value@)));
                }
                return;
            }
            i = i + 1;
        }
        self.entries.push((name, value));
        proof {
            lemma_item_insert_fresh(orig, name@, value@);
            assert(self@ =~= orig.push((name@, value@)));
        }
    }

    /// Extends this map by another: the other's entries are inserted in
    /// order, so its bindings win on shared names.
    pub fn extend(&mut self, other: &AttrMap)
        ensures
            final(self)@ == item_extend(old(self)@, other@),
    {
        let ghost orig = self@;
        proof {
            assert(other@.skip(0) =~= other@);
        }
        let mut i: usize = 0;
        while i < other.entries.len()
            invariant
                i <= other.entries.len(),
                orig == old(self)@,
                item_extend(orig, other@) == item_extend(self@, other@.skip(i as int)),
            decreases other.entries.len() - i,
        {
            proof {
                assert(other@.skip(i as int).drop_first() =~= other@.skip(i as int + 1));
                assert(other@.skip(i as int)[0] == other@[i as int]);
            }
            let name = other.entries[i].0.clone();
            let value = other.entries[i].1.clone();
            self.insert(name, value);
            i = i + 1;
        }
        proof {
            assert(other@.skip(i as int).len() == 0);
        }
    }
}

/// The attribute-naming convention of the single-table design: the
/// primary key pair, and the optional secondary-index pair. An absent
/// secondary pair means the item is invisible to that access pattern.
pub struct Indexes {
    pub pk: String,
    pub sk: String,
    pub gsi_1_pk: Option<String>,
    pub gsi_1_sk: Option<String>,
}

impl Indexes {
    /// The serialized form: the primary pair always, each secondary
    /// attribute only when populated.
    pub open spec fn spec_serialized(&self) -> ItemModel {
        let base = seq![
            ("pk"@, AttrValueModel::Text(self.pk@)),
            ("sk"@, AttrValueModel::Text(self.sk@)),
        ];
        let with_gsi_pk = match self.gsi_1_pk {
            Some(p) => base.push(("gsi_1_pk"@, AttrValueModel::Text(p@))),
            None => base,
        };
        match self.gsi_1_sk {
            Some(s) => with_gsi_pk.push(("gsi_1_sk"@, AttrValueModel::Text(s@))),
            None => with_gsi_pk,
        }
    }

    /// Serializes the key bundle into store attributes.
    pub fn dynamo_serialize(&self) -> (r: AttrMap)
        ensures
            r@ == self.spec_serialized(),
    {
        proof {
            reveal_strlit("pk");
            reveal_strlit("sk");
            reveal_strlit("gsi_1_pk");
            reveal_strlit("gsi_1_sk");
            assert("pk"@[0] == 'p' && "sk"@[0] == 's');
            assert("pk"@.len() == 2 && "sk"@.len() == 2);
            assert("gsi_1_pk"@.len() == 8 && "gsi_1_sk"@.len() == 8);
            assert("gsi_1_pk"@[6] == 'p' && "gsi_1_sk"@[6] == 's');
        }
        let mut item = AttrMap::new();
        let ghost s0 = item@;
        item.insert(String::from_str("pk"), AttrValue::Text(self.pk.clone()));
        proof {
            lemma_item_insert_fresh(s0, "pk"@, AttrValueModel::Text(self.pk@));
        }
        let ghost s1 = item@;
        item.insert(String::from_str("sk"), AttrValue::Text(self.sk.clone()));
        proof {
            assert(forall|j: int| 0 <= j < s1.len() ==> s1[j].0 != "sk"@);
            lemma_item_insert_fresh(s1, "sk"@, AttrValueModel::Text(self.sk@));
        }
        if let Some(p) = &self.gsi_1_pk {
            let ghost s2 = item@;
            item.insert(String::from_str("gsi_1_pk"), AttrValue::Text(p.clone()));
            proof {
                assert(forall|j: int| 0 <= j < s2.len() ==> s2[j].0 != "gsi_1_pk"@);
                lemma_item_insert_fresh(s2, "gsi_1_pk"@, AttrValueModel::Text(p@));
            }
        }
        if let Some(s) = &self.gsi_1_sk {
            let ghost s3 = item@;
            item.insert(String::from_str("gsi_1_sk"), AttrValue::Text(s.clone()));
            proof {
                assert(forall|j: int| 0 <= j < s3.len() ==> s3[j].0 != "gsi_1_sk"@);
                lemma_item_insert_fresh(s3, "gsi_1_sk"@, AttrValueModel::Text(s@));
            }
        }
        proof {
            assert(item@ =~= self.spec_serialized());
        }
        item
    }
}

impl Default for Indexes {
    /// An empty key bundle: empty key texts, no secondary pair.
    fn default() -> (r: Self)
        ensures
            r.pk@ == Seq::<char>::empty(),
            r.sk@ == Seq::<char>::empty(),
            r.gsi_1_pk is None,
            r.gsi_1_sk is None,
    {
        Indexes { pk: String::new(), sk: String::new(), gsi_1_pk: None, gsi_1_sk: None }
    }
}

/// Inserting a name that is absent from the whole map appends the binding.
pub proof fn lemma_item_insert_fresh(item: ItemModel, name: Seq<char>, value: AttrValueModel)
    requires
        forall|j: int| 0 <= j < item.len() ==> item[j].0 != name,
    ensures
        item_insert(item, name, value) == item.push((name, value)),
    decreases item.len(),
{
    if item.len() == 0 {
        assert(item_insert(item, name, value) =~= item.push((name, value)));
    } else {
        lemma_item_insert_fresh(item.drop_first(), name, value);
        assert(item.drop_first()[0] == item[1] || item.len() == 1);
        assert(seq![item[0]] + item.drop_first().push((name, value)) =~= item.push(
            (name, value),
        ));
    }
}

/// Inserting a name whose first occurrence is at position `i` updates that
/// position in place.
proof fn lemma_item_insert_prefix_update(
    item: ItemModel,
    name: Seq<char>,
    value: AttrValueModel,
    i: int,
)
    requires
        0 <= i < item.len(),
        item[i].0 == name,
        forall|j: int| 0 <= j < i ==> item[j].0 != name,
    ensures
        item_insert(item, name, value) == item.update(i, (name, value)),
    decreases i,
{
    if i == 0 {
    } else {
        lemma_item_insert_prefix_update(item.drop_first(), name, value, i - 1);
        assert(forall|j: int| 0 <= j < i - 1 ==> item.drop_first()[j].0 != name);
        assert(seq![item[0]] + item.drop_first().update(i - 1, (name, value)) =~= item.update(
            i,
            (name, value),
        ));
    }
}

} // verus!
