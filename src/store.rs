use vstd::prelude::*;

use crate::data::{Row, Schema, SchemaView, Value};
use crate::error::Error;

verus! {

/// What a storage backend holds: the schema of each table, the table that
/// each issued key belongs to, and the row stored at each live key.
#[verifier::reject_recursive_types(K)]
pub ghost struct StoreView<K> {
    pub schemas: Map<Seq<char>, SchemaView>,
    pub tables: Map<K, Seq<char>>,
    pub rows: Map<K, Seq<Value>>,
}

/// The rows that remain once the rows of table `name` are gone.
pub open spec fn rows_outside<K>(rows: Map<K, Seq<Value>>, tables: Map<K, Seq<char>>, name: Seq<char>) -> Map<K, Seq<Value>> {
    Map::new(|k: K| rows.contains_key(k) && tables[k] != name, |k: K| rows[k])
}

/// Whether `v` lists each row of table `name` exactly once, with its key.
pub open spec fn is_table_scan<K>(m: StoreView<K>, name: Seq<char>, v: Seq<(K, Row)>) -> bool {
    &&& forall|i: int, j: int| 0 <= i < j < v.len() ==> v[i].0 != v[j].0
    &&& forall|i: int| 0 <= i < v.len() ==> {
        &&& m.rows.contains_key(#[trigger] v[i].0)
        &&& m.tables[v[i].0] == name
        &&& m.rows[v[i].0] == v[i].1@
    }
    &&& forall|k: K| m.rows.contains_key(k) && m.tables[k] == name ==> exists|i: int| 0 <= i < v.len() && #[trigger] v[i].0 == k
}

/// A storage backend, addressed by keys of type `K` that it issues itself.
/// A failed call leaves the backend as it was.
pub trait Store<K> {
    spec fn model(&self) -> StoreView<K>;

    spec fn inv(&self) -> bool;

    /// Creates or replaces the schema of `schema.table_name`.
    fn set_schema(&mut self, schema: &Schema) -> (r: Result<(), Error>)
        requires
            old(self).inv(),
        ensures
            final(self).inv(),
            r is Ok ==> final(self).model() == (StoreView {
                schemas: old(self).model().schemas.insert(schema.table_name@, schema@),
                ..old(self).model()
            }),
            r is Err ==> final(self).model() == old(self).model();

    /// The schema of table `table_name`; fails exactly when there is none.
    fn get_schema(&self, table_name: &String) -> (r: Result<Schema, Error>)
        requires
            self.inv(),
        ensures
            r is Ok <==> self.model().schemas.contains_key(table_name@),
            r matches Ok(s) ==> s@ == self.model().schemas[table_name@],
            !self.model().schemas.contains_key(table_name@) ==> r == Err::<Schema, Error>(Error::TableNotFound);

    /// Removes table `table_name`: its schema and its rows.
    fn del_schema(&mut self, table_name: &String) -> (r: Result<(), Error>)
        requires
            old(self).inv(),
        ensures
            final(self).inv(),
            r is Ok ==> old(self).model().schemas.contains_key(table_name@) && final(self).model() == (StoreView {
                schemas: old(self).model().schemas.remove(table_name@),
                tables: old(self).model().tables,
                rows: rows_outside(old(self).model().rows, old(self).model().tables, table_name@),
            }),
            r is Err ==> final(self).model() == old(self).model(),
            !old(self).model().schemas.contains_key(table_name@) ==> r == Err::<(), Error>(Error::TableNotFound);

    /// Issues a key for a new row of `table_name`, never issued before.
    fn gen_id(&mut self, table_name: &String) -> (r: Result<K, Error>)
        requires
            old(self).inv(),
        ensures
            final(self).inv(),
            r matches Ok(k) ==> !old(self).model().tables.contains_key(k) && final(self).model() == (StoreView {
                tables: old(self).model().tables.insert(k, table_name@),
                ..old(self).model()
            }),
            r is Err ==> final(self).model() == old(self).model();

    /// Stores `row` at `key` as it is; returns the stored row.
    fn set_data(&mut self, key: &K, row: Row) -> (r: Result<Row, Error>)
        requires
            old(self).inv(),
        ensures
            final(self).inv(),
            r matches Ok(s) ==> s@ == row@ && old(self).model().tables.contains_key(*key) && final(self).model() == (StoreView {
                rows: old(self).model().rows.insert(*key, s@),
                ..old(self).model()
            }),
            r is Err ==> final(self).model() == old(self).model(),
            !old(self).model().tables.contains_key(*key) ==> r == Err::<Row, Error>(Error::KeyNotFound);

    /// Removes the row at `key`.
    fn del_data(&mut self, key: &K) -> (r: Result<(), Error>)
        requires
            old(self).inv(),
        ensures
            final(self).inv(),
            r is Ok ==> old(self).model().rows.contains_key(*key) && final(self).model() == (StoreView {
                rows: old(self).model().rows.remove(*key),
                ..old(self).model()
            }),
            r is Err ==> final(self).model() == old(self).model(),
            !old(self).model().rows.contains_key(*key) ==> r == Err::<(), Error>(Error::KeyNotFound);

    /// A snapshot of the rows of `table_name`, each with its key, so that
    /// callers may write to the table while they walk it.
    fn scan(&self, table_name: &String) -> (r: Result<Vec<(K, Row)>, Error>)
        requires
            self.inv(),
        ensures
            r matches Ok(v) ==> is_table_scan(self.model(), table_name@, v@);
}

} // verus!
