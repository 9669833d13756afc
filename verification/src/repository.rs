//! The single-table repository.
//!
//! Five verbs are translated into requests against the one table:
//! conditional create, unconditional upsert, idempotent delete, exact-key
//! find (with `get` turning absence into an error), and one-page query.
//! The repository is a thin, deterministic translator: it never retries
//! and never fetches beyond one page; exhaustive draining is the service
//! layer's business.

use vstd::prelude::*;
use crate::attrs::{AttrMap, AttrValue, ItemModel};
use crate::entity::{
    all_wf, models_of, serialize_with_indexes, spec_serialize_with_indexes, Entity,
};
use crate::errors::DynamoRepositoryError;
use crate::table::{
    contains_key, item_key, items_view, key_of, lemma_cursor_points_at_match,
    lemma_matching_from_len, lemma_page_decomposition, matching_from, spec_find_row, spec_page,
    spec_put, spec_remove, table_wf, Table, TableModel,
};

verus! {

/// A typed, serializable key bundle: an exact-match lookup key or a query
/// condition. Immutable and cheaply cloneable, since exhaustive
/// pagination re-issues it per page.
pub trait RepositoryIndex: Sized {
    /// The serialized key or condition attributes.
    spec fn spec_key(&self) -> ItemModel;

    /// Serializes the index specification into its attributes.
    fn to_key(&self) -> (r: AttrMap)
        ensures
            r@ == self.spec_key(),
    ;

    /// Clones the index specification for the next page request.
    fn clone_index(&self) -> (r: Self)
        ensures
            r.spec_key() == self.spec_key(),
    ;
}

/// An opaque continuation cursor: returned by a query page and echoed
/// verbatim to fetch the next page, never constructed by a caller.
#[derive(Clone, Copy, PartialEq, Eq, Structural, Debug)]
pub struct LastEvaluatedKey {
    pos: usize,
}

impl View for LastEvaluatedKey {
    type V = int;

    closed spec fn view(&self) -> int {
        self.pos as int
    }
}

/// The scan position a query starts from: the beginning, or the echoed
/// cursor.
pub open spec fn cursor_pos(cursor: Option<LastEvaluatedKey>) -> int {
    match cursor {
        None => 0,
        Some(l) => l@,
    }
}

/// One page of query results: the items, and the cursor to resume from,
/// absent exactly when the results are exhausted.
pub struct QueryResult<E> {
    pub items: Vec<E>,
    pub last_evaluated_key: Option<LastEvaluatedKey>,
}

/// An index specification together with the cursor to resume from.
pub struct QueryData<I> {
    pub index: I,
    pub last_evaluated_key: Option<LastEvaluatedKey>,
}

/// The key-condition expression and its value substitutions, as the wire
/// protocol wants them.
pub struct ExpressionData {
    pub key_condition_expression: String,
    pub expression_attribute_values: AttrMap,
}

/// One equality clause of a key-condition expression: `name = :name`.
pub open spec fn expr_clause(name: Seq<char>) -> Seq<char> {
    name + " = :"@ + name
}

/// The key-condition expression over the first `j` condition fields, the
/// clauses joined with ` AND `.
pub open spec fn expr_prefix(cond: ItemModel, j: int) -> Seq<char>
    decreases j,
{
    if j <= 0 {
        Seq::empty()
    } else if j == 1 {
        expr_clause(cond[0].0)
    } else {
        expr_prefix(cond, j - 1) + " AND "@ + expr_clause(cond[j - 1].0)
    }
}

/// The substitution values over the first `j` condition fields: each
/// field's value under its placeholder name `:name`.
pub open spec fn values_prefix(cond: ItemModel, j: int) -> ItemModel
    decreases j,
{
    if j <= 0 {
        Seq::empty()
    } else {
        crate::attrs::item_insert(
            values_prefix(cond, j - 1),
            ":"@ + cond[j - 1].0,
            cond[j - 1].1,
        )
    }
}

impl<I: RepositoryIndex> QueryData<I> {
    /// Pairs an index specification with the cursor to resume from.
    pub fn new(index: I, last_evaluated_key: Option<LastEvaluatedKey>) -> (r: Self)
        ensures
            r.index.spec_key() == index.spec_key(),
            r.last_evaluated_key == last_evaluated_key,
    {
        Self { index, last_evaluated_key }
    }

    /// Builds the key-condition expression and its value substitutions
    /// from the index specification's fields: each field `f` becomes
    /// `f = :f`, all clauses joined with ` AND `.
    pub fn get_expression_data(&self) -> (r: ExpressionData)
        ensures
            r.key_condition_expression@ == expr_prefix(
                self.index.spec_key(),
                self.index.spec_key().len() as int,
            ),
            r.expression_attribute_values@ == values_prefix(
                self.index.spec_key(),
                self.index.spec_key().len() as int,
            ),
    {
        let cond = self.index.to_key();
        let mut expression = String::new();
        let mut values = AttrMap::new();
        let mut j: usize = 0;
        while j < cond.len()
            invariant
                cond@ == self.index.spec_key(),
                j <= cond@.len(),
                expression@ == expr_prefix(cond@, j as int),
                values@ == values_prefix(cond@, j as int),
            decreases cond@.len() - j,
        {
            let name = cond.name_at(j);
            let value = cond.value_at(j).clone();
            if j > 0 {
                expression.append(" AND ");
            }
            expression.append(name.as_str());
            expression.append(" = :");
            expression.append(name.as_str());
            let mut placeholder = String::new();
            placeholder.append(":");
            placeholder.append(name.as_str());
            proof {
                reveal_strlit(":");
                assert(placeholder@ =~= ":"@ + cond@[j as int].0);
                if j == 0 {
                    assert(expression@ =~= expr_clause(cond@[0].0));
                } else {
                    assert(expression@ =~= expr_prefix(cond@, j as int) + " AND "@ + expr_clause(
                        cond@[j as int].0,
                    ));
                }
            }
            values.insert(placeholder, value);
            j = j + 1;
        }
        ExpressionData { key_condition_expression: expression, expression_attribute_values: values }
    }
}

/// What decoding a sequence of stored items yields: every record, or
/// nothing as soon as one item has the wrong shape.
pub open spec fn decode_rows<E: Entity>(rows: Seq<ItemModel>) -> Option<Seq<E::Model>>
    decreases rows.len(),
{
    if rows.len() == 0 {
        Some(Seq::empty())
    } else {
        match E::spec_deserialize(rows[0]) {
            None => None,
            Some(m) => match decode_rows::<E>(rows.drop_first()) {
                None => None,
                Some(rest) => Some(seq![m] + rest),
            },
        }
    }
}

/// Decoding succeeds exactly when every item decodes, and then decodes
/// them pointwise.
pub proof fn lemma_decode_rows_elem<E: Entity>(rows: Seq<ItemModel>)
    ensures
        decode_rows::<E>(rows) is Some <==> (forall|i: int|
            0 <= i < rows.len() ==> E::spec_deserialize(#[trigger] rows[i]) is Some),
        match decode_rows::<E>(rows) {
            Some(es) => es.len() == rows.len() && forall|i: int|
                0 <= i < rows.len() ==> Some(#[trigger] es[i]) == E::spec_deserialize(rows[i]),
            None => true,
        },
    decreases rows.len(),
{
    if rows.len() == 0 {
    } else {
        lemma_decode_rows_elem::<E>(rows.drop_first());
        assert(forall|i: int| 1 <= i < rows.len() ==> rows.drop_first()[i - 1] == rows[i]);
        match E::spec_deserialize(rows[0]) {
            None => {},
            Some(m) => {
                match decode_rows::<E>(rows.drop_first()) {
                    None => {},
                    Some(rest) => {
                        let es = seq![m] + rest;
                        assert(es[0] == m);
                        assert(forall|i: int| 1 <= i < es.len() ==> es[i] == rest[i - 1]);
                    },
                }
            },
        }
    }
}

/// Decodes one page of stored items into records; the first item of the
/// wrong shape fails the page.
fn decode_items<E: Entity>(items: &Vec<AttrMap>) -> (r: Result<Vec<E>, DynamoRepositoryError>)
    ensures
        ({
            let d = decode_rows::<E>(items_view(items@));
            match (r, d) {
                (Ok(v), Some(es)) => models_of::<E>(v@) == es && all_wf(v@),
                (Err(e), None) => e == DynamoRepositoryError::DeserializationError,
                _ => false,
            }
        }),
{
    let ghost rows = items_view(items@);
    let mut out: Vec<E> = Vec::new();
    let mut j: usize = 0;
    proof {
        lemma_decode_rows_elem::<E>(rows);
    }
    while j < items.len()
        invariant
            rows == items_view(items@),
            j <= items@.len(),
            rows.len() == items@.len(),
            out@.len() == j,
            forall|i: int| 0 <= i < j ==> Some((#[trigger] out@[i]).model())
                == E::spec_deserialize(rows[i]) && out@[i].wf(),
        decreases items@.len() - j,
    {
        proof {
            assert(rows[j as int] == items@[j as int]@);
        }
        match E::from_attribute_values(&items[j]) {
            Ok(e) => {
                out.push(e);
            },
            Err(_) => {
                proof {
                    lemma_decode_rows_elem::<E>(rows);
                    assert(E::spec_deserialize(rows[j as int]) is None);
                }
                return Err(DynamoRepositoryError::DeserializationError);
            },
        }
        j = j + 1;
    }
    proof {
        lemma_decode_rows_elem::<E>(rows);
        assert forall|i: int| 0 <= i < rows.len() implies E::spec_deserialize(
            #[trigger] rows[i],
        ) is Some by {
            assert(Some(out@[i].model()) == E::spec_deserialize(rows[i]));
        }
        match decode_rows::<E>(rows) {
            Some(es) => {
                assert(models_of::<E>(out@) =~= es);
            },
            None => {
                assert(false);
            },
        }
    }
    Ok(out)
}

/// A create immediately followed by a create with the same primary key
/// yields `ConflictError`: the first create stores the record's shape at
/// its key, so the key is occupied and the second create's contract takes
/// its conflict branch.
pub proof fn lemma_create_then_create_conflicts<E: Entity>(
    rows: TableModel,
    first: E::Model,
    second: E::Model,
)
    requires
        E::spec_primary_key(first) == E::spec_primary_key(second),
    ensures
        contains_key(
            rows.push(spec_serialize_with_indexes::<E>(first)),
            E::spec_primary_key(second),
        ),
{
    let key = E::spec_primary_key(first);
    let grown = rows.push(spec_serialize_with_indexes::<E>(first));
    crate::entity::lemma_stored_key::<E>(first);
    assert(key_of(grown[rows.len() as int]) == Some(key));
    crate::table::lemma_find_row_props(grown, key);
}

/// An upsert followed by a find on the same key returns the last
/// upserted value: after the write, the search finds exactly the stored
/// shape, and it deserializes back to the written record's shape.
pub proof fn lemma_upsert_then_find<E: Entity>(rows: TableModel, m: E::Model)
    requires
        table_wf(rows),
        E::model_wf(m),
    ensures
        ({
            let grown = spec_put(rows, spec_serialize_with_indexes::<E>(m));
            let key = E::spec_primary_key(m);
            &&& spec_find_row(grown, key) is Some
            &&& E::spec_deserialize(grown[spec_find_row(grown, key)->Some_0]) == Some(m)
        }),
{
    let stored = spec_serialize_with_indexes::<E>(m);
    let key = E::spec_primary_key(m);
    crate::entity::lemma_stored_key::<E>(m);
    crate::table::lemma_find_row_props(rows, key);
    let grown = spec_put(rows, stored);
    match spec_find_row(rows, key) {
        Some(i) => {
            assert(grown == rows.update(i, stored));
            assert(key_of(grown[i]) == Some(key));
            assert(forall|k: int| 0 <= k < i ==> key_of(#[trigger] grown[k]) != Some(key));
            crate::table::lemma_find_row_present(grown, key, i);
        },
        None => {
            assert(grown == rows.push(stored));
            assert(key_of(grown[rows.len() as int]) == Some(key));
            assert(forall|k: int| 0 <= k < rows.len() ==> key_of(#[trigger] grown[k]) != Some(
                key,
            ));
            crate::table::lemma_find_row_present(grown, key, rows.len() as int);
        },
    }
    E::lemma_stored_round_trip(m);
}

/// A delete leaves its key unoccupied — also when the key was absent, in
/// which case the delete was a no-op and not an error — so a subsequent
/// find on that key returns nothing.
pub proof fn lemma_delete_then_find(rows: TableModel, key: crate::table::KeyModel)
    requires
        table_wf(rows),
    ensures
        !contains_key(spec_remove(rows, key), key),
{
    crate::table::lemma_find_row_props(rows, key);
    match spec_find_row(rows, key) {
        Some(i) => {
            crate::table::lemma_remove_erases_key(rows, key, i);
        },
        None => {},
    }
}

/// The generic single-table repository over the model store, with a
/// configurable page size.
pub struct DynamoRepository {
    table: Table,
    page_limit: usize,
}

impl View for DynamoRepository {
    type V = TableModel;

    closed spec fn view(&self) -> TableModel {
        self.table@
    }
}

impl DynamoRepository {
    /// The configured page size.
    pub closed spec fn spec_page_limit(&self) -> int {
        self.page_limit as int
    }

    /// The repository's invariant: a well-formed table and a positive
    /// page size.
    pub open spec fn inv(&self) -> bool {
        table_wf(self@) && self.spec_page_limit() >= 1
    }

    /// Creates a repository over an empty table with the given page size.
    pub fn new(page_limit: usize) -> (r: Self)
        requires
            page_limit >= 1,
        ensures
            r.inv(),
            r@ == Seq::<ItemModel>::empty(),
            r.spec_page_limit() == page_limit,
    {
        DynamoRepository { table: Table::new(), page_limit }
    }

    /// The page size, as configured.
    pub fn page_limit(&self) -> (r: usize)
        ensures
            r == self.spec_page_limit(),
    {
        self.page_limit
    }

    /// Conditional create: writes the record's full stored shape only if
    /// no item occupies its primary key; a occupied key is a
    /// `ConflictError` and changes nothing.
    pub fn create<E: Entity>(&mut self, item: &E) -> (r: Result<(), DynamoRepositoryError>)
        requires
            old(self).inv(),
            item.wf(),
        ensures
            final(self).inv(),
            final(self).spec_page_limit() == old(self).spec_page_limit(),
            if contains_key(old(self)@, E::spec_primary_key(item.model())) {
                r == Err::<(), DynamoRepositoryError>(DynamoRepositoryError::ConflictError)
                    && final(self)@ == old(self)@
            } else {
                r == Ok::<(), DynamoRepositoryError>(()) && final(self)@ == old(self)@.push(
                    spec_serialize_with_indexes::<E>(item.model()),
                )
            },
    {
        let stored = serialize_with_indexes(item);
        if self.table.put_if_absent(stored) {
            Ok(())
        } else {
            Err(DynamoRepositoryError::ConflictError)
        }
    }

    /// Unconditional write: replaces the item at the record's primary key
    /// or appends it in store order; on the model store it always
    /// succeeds.
    pub fn upsert<E: Entity>(&mut self, item: &E) -> (r: Result<(), DynamoRepositoryError>)
        requires
            old(self).inv(),
            item.wf(),
        ensures
            final(self).inv(),
            final(self).spec_page_limit() == old(self).spec_page_limit(),
            r == Ok::<(), DynamoRepositoryError>(()),
            final(self)@ == spec_put(
                old(self)@,
                spec_serialize_with_indexes::<E>(item.model()),
            ),
    {
        let stored = serialize_with_indexes(item);
        self.table.put(stored);
        Ok(())
    }

    /// Idempotent delete: removes the item at the record's primary key;
    /// deleting an absent item is not an error.
    pub fn delete<E: Entity>(&mut self, item: &E) -> (r: Result<(), DynamoRepositoryError>)
        requires
            old(self).inv(),
            item.wf(),
        ensures
            final(self).inv(),
            final(self).spec_page_limit() == old(self).spec_page_limit(),
            r == Ok::<(), DynamoRepositoryError>(()),
            final(self)@ == spec_remove(old(self)@, E::spec_primary_key(item.model())),
            !contains_key(final(self)@, E::spec_primary_key(item.model())),
    {
        let key_map = item.serialize_primary_key();
        proof {
            crate::entity::lemma_key_item_key(E::spec_primary_key(item.model()));
        }
        let (pk, sk) = match item_key(&key_map) {
            Some(ks) => (ks.0.clone(), ks.1.clone()),
            None => {
                proof {
                    assert(false);
                }
                unreached()
            },
        };
        self.table.remove(&pk, &sk);
        Ok(())
    }

    /// Exact-key lookup: `None` when the key is unoccupied, the record
    /// when the stored item deserializes cleanly, and a
    /// `DeserializationError` when it does not.
    pub fn find<E: Entity, I: RepositoryIndex>(&self, index: &I) -> (r: Result<
        Option<E>,
        DynamoRepositoryError,
    >)
        requires
            self.inv(),
            key_of(index.spec_key()) is Some,
        ensures
            ({
                let key = key_of(index.spec_key())->Some_0;
                match spec_find_row(self@, key) {
                    None => r == Ok::<Option<E>, DynamoRepositoryError>(None),
                    Some(i) => match E::spec_deserialize(self@[i]) {
                        Some(m) => match r {
                            Ok(Some(e)) => e.wf() && e.model() == m,
                            _ => false,
                        },
                        None => r == Err::<Option<E>, DynamoRepositoryError>(
                            DynamoRepositoryError::DeserializationError,
                        ),
                    },
                }
            }),
    {
        let key_map = index.to_key();
        let (pk, sk) = match item_key(&key_map) {
            Some(ks) => (ks.0.clone(), ks.1.clone()),
            None => {
                proof {
                    assert(false);
                }
                unreached()
            },
        };
        match self.table.get_row(&pk, &sk) {
            None => Ok(None),
            Some(row) => match E::from_attribute_values(row) {
                Ok(e) => Ok(Some(e)),
                Err(e) => Err(e),
            },
        }
    }

    /// `find`, with absence turned into an explicit `NotFoundError`.
    pub fn get<E: Entity, I: RepositoryIndex>(&self, index: &I) -> (r: Result<
        E,
        DynamoRepositoryError,
    >)
        requires
            self.inv(),
            key_of(index.spec_key()) is Some,
        ensures
            ({
                let key = key_of(index.spec_key())->Some_0;
                match spec_find_row(self@, key) {
                    None => r == Err::<E, DynamoRepositoryError>(
                        DynamoRepositoryError::NotFoundError,
                    ),
                    Some(i) => match E::spec_deserialize(self@[i]) {
                        Some(m) => match r {
                            Ok(e) => e.wf() && e.model() == m,
                            _ => false,
                        },
                        None => r == Err::<E, DynamoRepositoryError>(
                            DynamoRepositoryError::DeserializationError,
                        ),
                    },
                }
            }),
    {
        match self.find::<E, I>(index) {
            Ok(Some(e)) => Ok(e),
            Ok(None) => Err(DynamoRepositoryError::NotFoundError),
            Err(e) => Err(e),
        }
    }

    /// One query page: builds the equality condition from the index
    /// specification, scans one page from the echoed cursor, and decodes
    /// it. Never fetches beyond one page.
    pub fn query<E: Entity, I: RepositoryIndex>(&self, query_data: &QueryData<I>) -> (r: Result<
        QueryResult<E>,
        DynamoRepositoryError,
    >)
        requires
            self.inv(),
            cursor_pos(query_data.last_evaluated_key) >= 0,
        ensures
            ({
                let cond = query_data.index.spec_key();
                let start = cursor_pos(query_data.last_evaluated_key);
                let (page_rows, cur) = spec_page(self@, cond, start, self.spec_page_limit());
                match (r, decode_rows::<E>(page_rows)) {
                    (Ok(qr), Some(es)) => models_of::<E>(qr.items@) == es && all_wf(qr.items@)
                        && cursor_pos(qr.last_evaluated_key)
                        == match cur {
                        Some(j) => j,
                        None => 0,
                    } && (qr.last_evaluated_key is Some <==> cur is Some),
                    (Err(e), None) => e == DynamoRepositoryError::DeserializationError,
                    _ => false,
                }
            }),
    {
        let cond = query_data.index.to_key();
        let start: usize = match &query_data.last_evaluated_key {
            None => 0,
            Some(l) => l.pos,
        };
        let (page_items, next) = self.table.query_page(&cond, start, self.page_limit);
        let decoded = decode_items::<E>(&page_items)?;
        let last_evaluated_key = match next {
            Some(p) => Some(LastEvaluatedKey { pos: p }),
            None => None,
        };
        Ok(QueryResult { items: decoded, last_evaluated_key })
    }

    /// Exhaustive draining: re-issues the query with each echoed cursor
    /// until a page reports no continuation, returning every matching
    /// record in store order together with the number of page requests
    /// made. A page-level failure aborts the whole drain.
    pub fn query_all_counted<E: Entity, I: RepositoryIndex>(&self, index: &I) -> (r: Result<
        (Vec<E>, usize),
        DynamoRepositoryError,
    >)
        requires
            self.inv(),
        ensures
            ({
                let all = matching_from(self@, index.spec_key(), 0);
                &&& (r is Ok <==> decode_rows::<E>(all) is Some)
                &&& match r {
                    Ok(p) => {
                        &&& Some(models_of::<E>(p.0@)) == decode_rows::<E>(all)
                        &&& all_wf(p.0@)
                        &&& (all.len() == 0 ==> p.1 == 1)
                        &&& (all.len() > 0 ==> (p.1 - 1) * self.spec_page_limit() < all.len()
                            <= p.1 * self.spec_page_limit())
                    },
                    Err(e) => e == DynamoRepositoryError::DeserializationError,
                }
            }),
    {
        let ghost cond = index.spec_key();
        let ghost all = matching_from(self@, cond, 0);
        let ghost limit = self.spec_page_limit();
        let mut items: Vec<E> = Vec::new();
        let mut pages: usize = 0;
        let mut cursor: Option<LastEvaluatedKey> = None;
        // the stored item count bounds the page count, so it must fit
        let _table_len = self.table.len();
        proof {
            lemma_matching_from_len(self@, cond, 0);
            assert(all.skip(0) =~= all);
            assert(self@.len() <= usize::MAX);
        }
        loop
            invariant
                self.inv(),
                cond == index.spec_key(),
                all == matching_from(self@, cond, 0),
                limit == self.spec_page_limit(),
                items@.len() <= all.len(),
                all.len() <= self@.len(),
                self@.len() <= usize::MAX,
                forall|i: int| 0 <= i < items@.len() ==> Some((#[trigger] items@[i]).model())
                    == E::spec_deserialize(all[i]) && items@[i].wf(),
                matching_from(self@, cond, cursor_pos(cursor)) == all.skip(items@.len() as int),
                cursor_pos(cursor) >= 0,
                match cursor {
                    Some(_) => items@.len() == pages * limit && pages >= 1 && all.len()
                        - items@.len() >= 1,
                    None => pages == 0 && items@.len() == 0,
                },
            decreases all.len() - items@.len(),
        {
            let qd = QueryData::new(index.clone_index(), cursor);
            let ghost pos = cursor_pos(cursor);
            let ghost (page_rows, cur) = spec_page(self@, cond, pos, limit);
            let ghost n = items@.len() as int;
            proof {
                lemma_page_decomposition(self@, cond, pos, limit);
                match cur {
                    Some(j) => {
                        assert(page_rows + matching_from(self@, cond, j) == all.skip(n));
                    },
                    None => {
                        assert(page_rows == all.skip(n));
                    },
                }
                assert(forall|k: int| 0 <= k < page_rows.len() ==> #[trigger] page_rows[k]
                    == all.skip(n)[k]);
                assert(forall|k: int| 0 <= k < all.len() - n ==> #[trigger] all.skip(n)[k]
                    == all[n + k]);
            }
            match self.query::<E, I>(&qd) {
                Err(e) => {
                    proof {
                        lemma_decode_rows_elem::<E>(page_rows);
                        assert(exists|k: int|
                            0 <= k < page_rows.len() && !(E::spec_deserialize(
                                #[trigger] page_rows[k],
                            ) is Some));
                        let k = choose|k: int|
                            0 <= k < page_rows.len() && !(E::spec_deserialize(
                                #[trigger] page_rows[k],
                            ) is Some);
                        assert(page_rows[k] == all[n + k]);
                        lemma_decode_rows_elem::<E>(all);
                        assert(decode_rows::<E>(all) is None);
                    }
                    return Err(e);
                },
                Ok(qr) => {
                    let ghost page_vec = qr.items@;
                    let ghost es = models_of::<E>(qr.items@);
                    proof {
                        lemma_decode_rows_elem::<E>(page_rows);
                        assert(es.len() == page_rows.len());
                        assert(page_vec.len() == page_rows.len());
                        assert(pages * limit >= pages) by (nonlinear_arith)
                            requires
                                limit >= 1,
                                pages >= 0,
                        ;
                        match cursor {
                            Some(_) => {
                                assert(pages <= items@.len());
                                assert(items@.len() < all.len());
                            },
                            None => {},
                        }
                        assert(pages < usize::MAX);
                    }
                    let ghost prev = items@;
                    let mut page_items = qr.items;
                    items.append(&mut page_items);
                    pages = pages + 1;
                    proof {
                        assert(items@ == prev + page_vec);
                        assert forall|i: int| 0 <= i < items@.len() implies Some(
                            (#[trigger] items@[i]).model(),
                        ) == E::spec_deserialize(all[i]) && items@[i].wf() by {
                            if i < n {
                                assert(items@[i] == prev[i]);
                                assert(Some(prev[i].model()) == E::spec_deserialize(all[i])
                                    && prev[i].wf());
                            } else {
                                let k = i - n;
                                assert(items@[i] == page_vec[k]);
                                assert(models_of::<E>(page_vec)[k] == page_vec[k].model());
                                assert(Some(es[k]) == E::spec_deserialize(page_rows[k]));
                                assert(page_rows[k] == all[n + k]);
                                assert(page_vec[k].wf());
                            }
                        }
                    }
                    match qr.last_evaluated_key {
                        None => {
                            proof {
                                assert(items@.len() as int == n + page_rows.len());
                                assert(all.skip(n).len() == all.len() - n);
                                assert(items@.len() == all.len());
                                lemma_decode_rows_elem::<E>(all);
                                assert forall|i: int| 0 <= i < all.len() implies E::spec_deserialize(
                                    #[trigger] all[i],
                                ) is Some by {
                                    assert(Some(items@[i].model()) == E::spec_deserialize(all[i]));
                                }
                                match decode_rows::<E>(all) {
                                    Some(full) => {
                                        assert(models_of::<E>(items@) =~= full);
                                    },
                                    None => {
                                        assert(false);
                                    },
                                }
                                if all.len() > 0 {
                                    assert((pages - 1) * limit < all.len() <= pages * limit) by {
                                        assert(page_rows.len() <= limit);
                                        assert(pages * limit == (pages - 1) * limit + limit)
                                            by (nonlinear_arith);
                                        if pages == 1 {
                                        } else {
                                            assert(n == (pages - 1) * limit);
                                            assert(page_rows.len() >= 1);
                                        }
                                    }
                                }
                            }
                            return Ok((items, pages));
                        },
                        Some(l) => {
                            cursor = Some(l);
                            proof {
                                let j = cur->Some_0;
                                assert(l@ == j);
                                assert(page_rows.len() == limit);
                                let rest = matching_from(self@, cond, j);
                                assert(page_rows + rest == all.skip(n));
                                assert(forall|k: int| 0 <= k < rest.len() ==> #[trigger] rest[k]
                                    == (page_rows + rest)[limit + k]);
                                assert(forall|k: int| 0 <= k < all.len() - (n + limit)
                                    ==> #[trigger] all.skip(n + limit)[k] == all[n + limit + k]);
                                assert(rest =~= all.skip(n + limit));
                                assert(items@.len() as int == n + limit);
                                assert(items@.len() == pages * limit) by {
                                    assert(pages * limit == (pages - 1) * limit + limit)
                                        by (nonlinear_arith);
                                }
                                lemma_cursor_points_at_match(self@, cond, pos, limit);
                                assert(all.len() - items@.len() >= 1);
                            }
                        },
                    }
                },
            }
        }
    }

    /// Exhaustive draining, without the request count.
    pub fn query_all<E: Entity, I: RepositoryIndex>(&self, index: &I) -> (r: Result<
        Vec<E>,
        DynamoRepositoryError,
    >)
        requires
            self.inv(),
        ensures
            ({
                let all = matching_from(self@, index.spec_key(), 0);
                match (r, decode_rows::<E>(all)) {
                    (Ok(v), Some(es)) => models_of::<E>(v@) == es && all_wf(v@),
                    (Err(e), None) => e == DynamoRepositoryError::DeserializationError,
                    _ => false,
                }
            }),
    {
        match self.query_all_counted::<E, I>(index) {
            Ok(p) => Ok(p.0),
            Err(e) => Err(e),
        }
    }
}

} // verus!
