//! The single-table store model.
//!
//! One physical table holds items addressed by a composite
//! `{partition, sort}` key kept under the shared attribute names `pk` and
//! `sk`. Writes replace whole items; a query scans in store order, returns
//! at most one page of matching items, and hands back a continuation
//! cursor exactly when a further match exists.

use vstd::prelude::*;
use crate::attrs::{
    attr_value_eq, item_get, AttrMap, AttrValue, AttrValueModel, ItemModel,
};

verus! {

/// The shared attribute name of the partition key.
pub open spec fn pk_name() -> Seq<char> {
    "pk"@
}

/// The shared attribute name of the sort key.
pub open spec fn sk_name() -> Seq<char> {
    "sk"@
}

/// The ghost shape of a composite primary key.
pub struct KeyModel {
    pub pk: Seq<char>,
    pub sk: Seq<char>,
}

/// The composite key stored in an item, when both key attributes are
/// present as text.
pub open spec fn key_of(row: ItemModel) -> Option<KeyModel> {
    match (item_get(row, pk_name()), item_get(row, sk_name())) {
        (Some(AttrValueModel::Text(p)), Some(AttrValueModel::Text(s))) => Some(
            KeyModel { pk: p, sk: s },
        ),
        _ => None,
    }
}

/// The ghost shape of the table: items in store order.
pub type TableModel = Seq<ItemModel>;

/// The position of the first item bearing a key.
pub open spec fn spec_find_row(rows: TableModel, key: KeyModel) -> Option<int>
    decreases rows.len(),
{
    if rows.len() == 0 {
        None
    } else if key_of(rows[0]) == Some(key) {
        Some(0int)
    } else {
        match spec_find_row(rows.drop_first(), key) {
            Some(j) => Some(j + 1),
            None => None,
        }
    }
}

/// Whether some item occupies a key.
pub open spec fn contains_key(rows: TableModel, key: KeyModel) -> bool {
    spec_find_row(rows, key) is Some
}

/// What an unconditional write does: the first item with the same key is
/// replaced in place; a fresh key is appended in store order.
pub open spec fn spec_put(rows: TableModel, item: ItemModel) -> TableModel {
    match spec_find_row(rows, key_of(item)->Some_0) {
        Some(i) => rows.update(i, item),
        None => rows.push(item),
    }
}

/// What a delete does: the item at the key leaves; an absent key changes
/// nothing.
pub open spec fn spec_remove(rows: TableModel, key: KeyModel) -> TableModel {
    match spec_find_row(rows, key) {
        Some(i) => rows.remove(i),
        None => rows,
    }
}

/// Whether an item meets every equality condition of an index
/// specification.
pub open spec fn cond_matches(row: ItemModel, cond: ItemModel) -> bool {
    forall|j: int| 0 <= j < cond.len() ==> item_get(row, #[trigger] cond[j].0) == Some(cond[j].1)
}

/// All items matching a condition from a scan position on, in store order.
pub open spec fn matching_from(rows: TableModel, cond: ItemModel, i: int) -> Seq<ItemModel>
    decreases rows.len() - i,
{
    if i < 0 || i >= rows.len() {
        Seq::empty()
    } else if cond_matches(rows[i], cond) {
        seq![rows[i]] + matching_from(rows, cond, i + 1)
    } else {
        matching_from(rows, cond, i + 1)
    }
}

/// One page of a query: matches are collected from the scan position until
/// the page is full; the continuation cursor is the position of the next
/// match beyond the page, absent when no further match exists.
pub open spec fn spec_page(rows: TableModel, cond: ItemModel, i: int, limit: int) -> (Seq<
    ItemModel,
>, Option<int>)
    decreases rows.len() - i,
{
    if i < 0 || i >= rows.len() {
        (Seq::empty(), None::<int>)
    } else if cond_matches(rows[i], cond) {
        if limit <= 0 {
            (Seq::empty(), Some(i))
        } else {
            let (items, cur) = spec_page(rows, cond, i + 1, limit - 1);
            (seq![rows[i]] + items, cur)
        }
    } else {
        spec_page(rows, cond, i + 1, limit)
    }
}

/// A page plus everything from its continuation cursor makes up everything
/// from the page's own start; a returned cursor strictly advances and is
/// returned only for a full page.
pub proof fn lemma_page_decomposition(rows: TableModel, cond: ItemModel, i: int, limit: int)
    requires
        limit >= 1,
    ensures
        ({
            let (items, cur) = spec_page(rows, cond, i, limit);
            match cur {
                Some(j) => items + matching_from(rows, cond, j) == matching_from(rows, cond, i)
                    && i < j < rows.len() && items.len() == limit,
                None => items == matching_from(rows, cond, i) && items.len() <= limit,
            }
        }),
    decreases rows.len() - i, limit,
{
    if i < 0 || i >= rows.len() {
        let (items, cur) = spec_page(rows, cond, i, limit);
        assert(items =~= matching_from(rows, cond, i));
    } else if cond_matches(rows[i], cond) {
        let (items, cur) = spec_page(rows, cond, i + 1, limit - 1);
        if limit == 1 {
            lemma_page_limit_zero(rows, cond, i + 1);
            match cur {
                Some(j) => {
                    assert(items.len() == 0);
                    assert(matching_from(rows, cond, i + 1) == matching_from(rows, cond, j));
                    assert(seq![rows[i]] + items + matching_from(rows, cond, j) =~= seq![
                        rows[i],
                    ] + matching_from(rows, cond, i + 1));
                },
                None => {
                    assert(items =~= matching_from(rows, cond, i + 1));
                },
            }
        } else {
            lemma_page_decomposition(rows, cond, i + 1, limit - 1);
            match cur {
                Some(j) => {
                    assert((seq![rows[i]] + items) + matching_from(rows, cond, j) =~= seq![
                        rows[i],
                    ] + (items + matching_from(rows, cond, j)));
                },
                None => {},
            }
        }
    } else {
        lemma_page_decomposition(rows, cond, i + 1, limit);
    }
}

/// A page of size zero collects nothing and points at the first match, the
/// whole remainder.
proof fn lemma_page_limit_zero(rows: TableModel, cond: ItemModel, i: int)
    ensures
        ({
            let (items, cur) = spec_page(rows, cond, i, 0);
            match cur {
                Some(j) => items.len() == 0 && i <= j < rows.len() && matching_from(rows, cond, i)
                    == matching_from(rows, cond, j) && matching_from(rows, cond, j).len() > 0,
                None => items.len() == 0 && matching_from(rows, cond, i).len() == 0,
            }
        }),
    decreases rows.len() - i,
{
    if i < 0 || i >= rows.len() {
    } else if cond_matches(rows[i], cond) {
        assert(matching_from(rows, cond, i) == seq![rows[i]] + matching_from(rows, cond, i + 1));
    } else {
        lemma_page_limit_zero(rows, cond, i + 1);
    }
}

/// A returned continuation cursor always points at a match, so the page
/// after it holds at least one item.
pub proof fn lemma_cursor_points_at_match(rows: TableModel, cond: ItemModel, i: int, limit: int)
    requires
        limit >= 1,
        spec_page(rows, cond, i, limit).1 is Some,
    ensures
        matching_from(rows, cond, spec_page(rows, cond, i, limit).1->Some_0).len() > 0,
    decreases rows.len() - i, limit,
{
    let j = spec_page(rows, cond, i, limit).1->Some_0;
    if i < 0 || i >= rows.len() {
    } else if cond_matches(rows[i], cond) {
        if limit == 1 {
            lemma_page_limit_zero(rows, cond, i + 1);
        } else {
            lemma_cursor_points_at_match(rows, cond, i + 1, limit - 1);
        }
    } else {
        lemma_cursor_points_at_match(rows, cond, i + 1, limit);
    }
}

/// There are never more matches from a position than items beyond it.
pub proof fn lemma_matching_from_len(rows: TableModel, cond: ItemModel, i: int)
    requires
        0 <= i,
    ensures
        i <= rows.len() ==> matching_from(rows, cond, i).len() <= rows.len() - i,
        i > rows.len() ==> matching_from(rows, cond, i).len() == 0,
    decreases rows.len() - i,
{
    if i >= rows.len() {
    } else {
        lemma_matching_from_len(rows, cond, i + 1);
    }
}

/// Whether every item carries a key and no two items share one: the
/// table's own invariant.
pub open spec fn table_wf(rows: TableModel) -> bool {
    &&& forall|i: int| 0 <= i < rows.len() ==> key_of(#[trigger] rows[i]) is Some
    &&& forall|i: int, j: int|
        0 <= i < j < rows.len() ==> key_of(rows[i]) != key_of(rows[j])
}

/// The view of a sequence of items.
pub open spec fn items_view(s: Seq<AttrMap>) -> Seq<ItemModel> {
    s.map(|i: int, m: AttrMap| m@)
}

/// The in-memory model of the store's one physical table.
pub struct Table {
    rows: Vec<AttrMap>,
}

impl View for Table {
    type V = TableModel;

    closed spec fn view(&self) -> TableModel {
        items_view(self.rows@)
    }
}

/// Reads the composite key attributes out of an item.
pub fn item_key<'a>(row: &'a AttrMap) -> (r: Option<(&'a String, &'a String)>)
    ensures
        match r {
            Some((p, s)) => key_of(row@) == Some(KeyModel { pk: p@, sk: s@ }),
            None => key_of(row@) is None,
        },
{
    let p = match row.get("pk") {
        Some(AttrValue::Text(p)) => p,
        _ => {
            return None;
        },
    };
    let s = match row.get("sk") {
        Some(AttrValue::Text(s)) => s,
        _ => {
            return None;
        },
    };
    Some((p, s))
}

/// Whether an item sits at the given composite key.
fn row_has_key(row: &AttrMap, pk: &String, sk: &String) -> (r: bool)
    ensures
        r <==> key_of(row@) == Some(KeyModel { pk: pk@, sk: sk@ }),
{
    match item_key(row) {
        Some((p, s)) => p.eq(pk) && s.eq(sk),
        None => false,
    }
}

/// Whether an item meets every condition of an index specification.
pub fn row_matches(row: &AttrMap, cond: &AttrMap) -> (r: bool)
    ensures
        r == cond_matches(row@, cond@),
{
    let mut j: usize = 0;
    while j < cond.len()
        invariant
            j <= cond@.len(),
            forall|k: int| 0 <= k < j ==> item_get(row@, #[trigger] cond@[k].0) == Some(
                cond@[k].1,
            ),
        decreases cond@.len() - j,
    {
        let name = cond.name_at(j);
        let want = cond.value_at(j);
        match row.get(name.as_str()) {
            Some(got) => {
                if !attr_value_eq(got, want) {
                    return false;
                }
            },
            None => {
                return false;
            },
        }
        j = j + 1;
    }
    true
}

impl Table {
    /// Creates an empty table.
    pub fn new() -> (r: Self)
        ensures
            r@ == Seq::<ItemModel>::empty(),
            table_wf(r@),
    {
        let r = Table { rows: Vec::new() };
        proof {
            assert(r@ =~= Seq::<ItemModel>::empty());
        }
        r
    }

    /// The number of stored items.
    pub fn len(&self) -> (r: usize)
        ensures
            r == self@.len(),
    {
        self.rows.len()
    }

    /// The position of the item at a key, if any.
    fn find_row(&self, pk: &String, sk: &String) -> (r: Option<usize>)
        ensures
            match r {
                Some(i) => spec_find_row(self@, KeyModel { pk: pk@, sk: sk@ }) == Some(i as int),
                None => spec_find_row(self@, KeyModel { pk: pk@, sk: sk@ }) is None,
            },
    {
        let ghost key = KeyModel { pk: pk@, sk: sk@ };
        let mut i: usize = 0;
        while i < self.rows.len()
            invariant
                key == (KeyModel { pk: pk@, sk: sk@ }),
                self@.len() == self.rows@.len(),
                i <= self@.len(),
                forall|k: int| 0 <= k < i ==> key_of(#[trigger] self@[k]) != Some(
                    KeyModel { pk: pk@, sk: sk@ },
                ),
            decreases self@.len() - i,
        {
            proof {
                assert(self@[i as int] == self.rows@[i as int]@);
            }
            if row_has_key(&self.rows[i], pk, sk) {
                proof {
                    lemma_find_row_present(self@, key, i as int);
                }
                return Some(i);
            }
            proof {
                assert(key_of(self@[i as int]) != Some(key));
            }
            i = i + 1;
        }
        proof {
            lemma_find_row_props(self@, key);
            if spec_find_row(self@, key) is Some {
                let j = spec_find_row(self@, key)->Some_0;
                assert(key_of(self@[j]) == Some(key));
                assert(false);
            }
        }
        None
    }

    /// Exact-key lookup: the stored item at a composite key.
    pub fn get_row(&self, pk: &String, sk: &String) -> (r: Option<&AttrMap>)
        ensures
            match r {
                Some(row) => {
                    &&& spec_find_row(self@, KeyModel { pk: pk@, sk: sk@ }) is Some
                    &&& row@ == self@[spec_find_row(self@, KeyModel { pk: pk@, sk: sk@ })->Some_0]
                },
                None => spec_find_row(self@, KeyModel { pk: pk@, sk: sk@ }) is None,
            },
    {
        match self.find_row(pk, sk) {
            Some(i) => {
                proof {
                    lemma_find_row_props(self@, KeyModel { pk: pk@, sk: sk@ });
                    assert(self@.len() == self.rows@.len());
                    assert(self@[i as int] == self.rows@[i as int]@);
                }
                Some(&self.rows[i])
            },
            None => None,
        }
    }

    /// Unconditional write: replaces the item at the same key or appends
    /// the item in store order.
    pub fn put(&mut self, item: AttrMap)
        requires
            table_wf(old(self)@),
            key_of(item@) is Some,
        ensures
            table_wf(final(self)@),
            final(self)@ == spec_put(old(self)@, item@),
    {
        let (pk, sk) = match item_key(&item) {
            Some(ks) => (ks.0.clone(), ks.1.clone()),
            None => {
                proof {
                    assert(false);
                }
                unreached()
            },
        };
        let ghost key = key_of(item@)->Some_0;
        proof {
            lemma_find_row_props(old(self)@, key);
            assert(self@.len() == self.rows@.len());
        }
        match self.find_row(&pk, &sk) {
            Some(i) => {
                self.rows.set(i, item);
                proof {
                    assert(final(self)@ =~= old(self)@.update(i as int, item@));
                    assert(key_of(old(self)@[i as int]) == Some(key));
                    assert(table_wf(final(self)@));
                }
            },
            None => {
                self.rows.push(item);
                proof {
                    assert(final(self)@ =~= old(self)@.push(item@));
                    assert(table_wf(final(self)@));
                }
            },
        }
    }

    /// Conditional write: appends the item only when no item occupies its
    /// key, and reports whether it was written.
    pub fn put_if_absent(&mut self, item: AttrMap) -> (written: bool)
        requires
            table_wf(old(self)@),
            key_of(item@) is Some,
        ensures
            table_wf(final(self)@),
            written == !contains_key(old(self)@, key_of(item@)->Some_0),
            final(self)@ == if written {
                old(self)@.push(item@)
            } else {
                old(self)@
            },
    {
        let (pk, sk) = match item_key(&item) {
            Some(ks) => (ks.0.clone(), ks.1.clone()),
            None => {
                proof {
                    assert(false);
                }
                unreached()
            },
        };
        let ghost key = key_of(item@)->Some_0;
        proof {
            lemma_find_row_props(old(self)@, key);
        }
        match self.find_row(&pk, &sk) {
            Some(_) => false,
            None => {
                self.rows.push(item);
                proof {
                    assert(final(self)@ =~= old(self)@.push(item@));
                    assert(table_wf(final(self)@));
                }
                true
            },
        }
    }

    /// Idempotent delete: removes the item at the key; an absent key
    /// changes nothing.
    pub fn remove(&mut self, pk: &String, sk: &String)
        requires
            table_wf(old(self)@),
        ensures
            table_wf(final(self)@),
            final(self)@ == spec_remove(old(self)@, KeyModel { pk: pk@, sk: sk@ }),
            !contains_key(final(self)@, KeyModel { pk: pk@, sk: sk@ }),
    {
        let ghost key = KeyModel { pk: pk@, sk: sk@ };
        proof {
            lemma_find_row_props(old(self)@, key);
            assert(self@.len() == self.rows@.len());
        }
        match self.find_row(pk, sk) {
            Some(i) => {
                self.rows.remove(i);
                proof {
                    assert(final(self)@ =~= old(self)@.remove(i as int));
                    assert(table_wf(final(self)@));
                    lemma_remove_erases_key(old(self)@, key, i as int);
                }
            },
            None => {},
        }
    }

    /// One query page: scans from the cursor position in store order,
    /// collects matches up to the page size, and reports the continuation
    /// position exactly when a further match exists.
    pub fn query_page(&self, cond: &AttrMap, start: usize, limit: usize) -> (r: (
        Vec<AttrMap>,
        Option<usize>,
    ))
        requires
            limit >= 1,
        ensures
            ({
                let (items, cur) = spec_page(self@, cond@, start as int, limit as int);
                &&& items_view(r.0@) == items
                &&& match (r.1, cur) {
                    (Some(a), Some(b)) => a as int == b,
                    (None, None) => true,
                    _ => false,
                }
            }),
    {
        let ghost target = spec_page(self@, cond@, start as int, limit as int);
        let mut items: Vec<AttrMap> = Vec::new();
        let mut count: usize = 0;
        let mut i: usize = start;
        proof {
            assert(items_view(items@) =~= Seq::<ItemModel>::empty());
        }
        while i < self.rows.len()
            invariant
                target == spec_page(self@, cond@, start as int, limit as int),
                start <= i,
                count <= limit,
                count == items@.len(),
                limit >= 1,
                ({
                    let (rest, cur) = spec_page(self@, cond@, i as int, (limit - count) as int);
                    target == (items_view(items@) + rest, cur)
                }),
            decreases self@.len() - i,
        {
            let ghost rem = (limit - count) as int;
            proof {
                assert(spec_page(self@, cond@, i as int, rem) == if cond_matches(
                    self@[i as int],
                    cond@,
                ) {
                    if rem <= 0 {
                        (Seq::<ItemModel>::empty(), Some(i as int))
                    } else {
                        let (inner, cur) = spec_page(self@, cond@, i as int + 1, rem - 1);
                        (seq![self@[i as int]] + inner, cur)
                    }
                } else {
                    spec_page(self@, cond@, i as int + 1, rem)
                });
            }
            if row_matches(&self.rows[i], cond) {
                if count == limit {
                    proof {
                        assert(items_view(items@) + Seq::<ItemModel>::empty() =~= items_view(
                            items@,
                        ));
                    }
                    return (items, Some(i));
                }
                let ghost before = items@;
                items.push(self.rows[i].clone());
                count = count + 1;
                proof {
                    assert(items_view(items@) =~= items_view(before).push(self@[i as int]));
                    let (inner, cur) = spec_page(self@, cond@, i as int + 1, rem - 1);
                    assert(items_view(before) + (seq![self@[i as int]] + inner) =~= items_view(
                        items@,
                    ) + inner);
                }
            }
            i = i + 1;
        }
        proof {
            let (rest, cur) = spec_page(self@, cond@, i as int, (limit - count) as int);
            assert(rest =~= Seq::<ItemModel>::empty());
            assert(items_view(items@) + rest =~= items_view(items@));
        }
        (items, None)
    }
}

/// If a key first appears at position `i`, the search finds exactly `i`.
pub proof fn lemma_find_row_present(rows: TableModel, key: KeyModel, i: int)
    requires
        0 <= i < rows.len(),
        key_of(rows[i]) == Some(key),
        forall|k: int| 0 <= k < i ==> key_of(#[trigger] rows[k]) != Some(key),
    ensures
        spec_find_row(rows, key) == Some(i),
    decreases i,
{
    if i == 0 {
    } else {
        assert(rows.drop_first()[i - 1] == rows[i]);
        assert(forall|k: int|
            0 <= k < i - 1 ==> key_of(#[trigger] rows.drop_first()[k]) != Some(key));
        lemma_find_row_present(rows.drop_first(), key, i - 1);
    }
}

/// What a search result means: a found position lies in range, bears the
/// key, and is first; an unfound key is borne by no item.
pub proof fn lemma_find_row_props(rows: TableModel, key: KeyModel)
    ensures
        match spec_find_row(rows, key) {
            Some(j) => 0 <= j < rows.len() && key_of(rows[j]) == Some(key) && forall|k: int|
                0 <= k < j ==> key_of(#[trigger] rows[k]) != Some(key),
            None => forall|k: int| 0 <= k < rows.len() ==> key_of(#[trigger] rows[k]) != Some(
                key,
            ),
        },
    decreases rows.len(),
{
    if rows.len() == 0 {
    } else if key_of(rows[0]) == Some(key) {
    } else {
        lemma_find_row_props(rows.drop_first(), key);
        assert(forall|k: int| 1 <= k < rows.len() ==> rows.drop_first()[k - 1] == rows[k]);
        match spec_find_row(rows.drop_first(), key) {
            Some(j) => {
                assert(rows[j + 1] == rows.drop_first()[j]);
            },
            None => {},
        }
    }
}

/// Removing the only item at a key leaves the key unoccupied.
pub proof fn lemma_remove_erases_key(rows: TableModel, key: KeyModel, i: int)
    requires
        table_wf(rows),
        0 <= i < rows.len(),
        key_of(rows[i]) == Some(key),
    ensures
        !contains_key(rows.remove(i), key),
{
    let shrunk = rows.remove(i);
    assert(forall|k: int| 0 <= k < shrunk.len() ==> key_of(#[trigger] shrunk[k]) != Some(key));
    lemma_find_row_props(shrunk, key);
}

} // verus!
