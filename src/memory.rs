use vstd::prelude::*;

use crate::data::{copy_schema, copy_values, Row, Schema, SchemaView, Value};
use crate::error::Error;
use crate::store::{rows_outside, Store, StoreView};

verus! {

/// A store that keeps everything in memory. Keys are positions in a list of
/// slots, issued in order from zero and never reused.
pub struct MemoryStore {
    schemas: Vec<Schema>,
    /// For each issued key: its table, and its row while it has one.
    slots: Vec<(String, Option<Row>)>,
    schema_map: Ghost<Map<Seq<char>, SchemaView>>,
}

/// Table names are unique in `schemas`, and `map` holds exactly those schemas.
pub open spec fn schemas_wf(schemas: Seq<Schema>, map: Map<Seq<char>, SchemaView>) -> bool {
    &&& forall|i: int, j: int| 0 <= i < j < schemas.len() ==> schemas[i].table_name@ != schemas[j].table_name@
    &&& forall|i: int| 0 <= i < schemas.len() ==> {
        &&& map.contains_key(#[trigger] schemas[i].table_name@)
        &&& map[schemas[i].table_name@] == schemas[i]@
    }
    &&& forall|n: Seq<char>| #[trigger] map.contains_key(n) ==>
        exists|i: int| 0 <= i < schemas.len() && schemas[i].table_name@ == n
}

impl MemoryStore {
    pub closed spec fn wf(&self) -> bool {
        schemas_wf(self.schemas@, self.schema_map@)
    }

    pub closed spec fn view_of(&self) -> StoreView<usize> {
        StoreView {
            schemas: self.schema_map@,
            tables: Map::new(|k: usize| k < self.slots.len(), |k: usize| self.slots@[k as int].0@),
            rows: Map::new(
                |k: usize| k < self.slots.len() && self.slots@[k as int].1 is Some,
                |k: usize| self.slots@[k as int].1->Some_0@,
            ),
        }
    }

    /// An empty store.
    pub fn new() -> (r: MemoryStore)
        ensures
            r.wf(),
            r.view_of().schemas.is_empty(),
            r.view_of().tables.is_empty(),
            r.view_of().rows.is_empty(),
    {
        let r = MemoryStore { schemas: Vec::new(), slots: Vec::new(), schema_map: Ghost(Map::empty()) };
        assert(r.view_of().tables =~= Map::empty());
        assert(r.view_of().rows =~= Map::empty());
        r
    }

    fn find_schema(&self, name: &String) -> (r: Option<usize>)
        requires
            self.wf(),
        ensures
            r matches Some(i) ==> i < self.schemas.len() && self.schemas@[i as int].table_name@ == name@,
            r is None ==> !self.schema_map@.contains_key(name@),
    {
        let mut i: usize = 0;
        while i < self.schemas.len()
            invariant
                i <= self.schemas.len(),
                forall|j: int| 0 <= j < i ==> self.schemas@[j].table_name@ != name@,
            decreases self.schemas.len() - i,
        {
            if self.schemas[i].table_name == *name {
                return Some(i);
            }
            i += 1;
        }
        None
    }
}

impl Store<usize> for MemoryStore {
    open spec fn model(&self) -> StoreView<usize> {
        self.view_of()
    }

    open spec fn inv(&self) -> bool {
        self.wf()
    }

    fn set_schema(&mut self, schema: &Schema) -> (r: Result<(), Error>) {
        let copy = copy_schema(schema);
        let ghost name = schema.table_name@;
        let ghost old_self = *self;
        match self.find_schema(&schema.table_name) {
            Some(i) => {
                self.schemas.set(i, copy);
                self.schema_map = Ghost(self.schema_map@.insert(name, schema@));
                proof {
                    assert forall|j: int| 0 <= j < self.schemas.len() implies self.schemas@[j].table_name@ == old_self.schemas@[j].table_name@ by {}
                    assert forall|n: Seq<char>| #[trigger] self.schema_map@.contains_key(n) implies
                        exists|j: int| 0 <= j < self.schemas.len() && self.schemas@[j].table_name@ == n by {
                        if n != name {
                            assert(old_self.schema_map@.contains_key(n));
                            let j = choose|j: int| 0 <= j < old_self.schemas.len() && old_self.schemas@[j].table_name@ == n;
                            assert(self.schemas@[j].table_name@ == n);
                        } else {
                            assert(self.schemas@[i as int].table_name@ == n);
                        }
                    }
                }
            },
            None => {
                self.schemas.push(copy);
                self.schema_map = Ghost(self.schema_map@.insert(name, schema@));
                proof {
                    let last = self.schemas.len() - 1;
                    assert(self.schemas@[last].table_name@ == name);
                    assert forall|j: int| 0 <= j < last implies self.schemas@[j].table_name@ == old_self.schemas@[j].table_name@ by {}
                    assert forall|n: Seq<char>| #[trigger] self.schema_map@.contains_key(n) implies
                        exists|j: int| 0 <= j < self.schemas.len() && self.schemas@[j].table_name@ == n by {
                        if n != name {
                            assert(old_self.schema_map@.contains_key(n));
                            let j = choose|j: int| 0 <= j < old_self.schemas.len() && old_self.schemas@[j].table_name@ == n;
                            assert(self.schemas@[j].table_name@ == n);
                        }
                    }
                }
            },
        }
        assert(self.view_of().tables == old_self.view_of().tables);
        Ok(())
    }

    fn get_schema(&self, table_name: &String) -> (r: Result<Schema, Error>) {
        match self.find_schema(table_name) {
            Some(i) => Ok(copy_schema(&self.schemas[i])),
            None => Err(Error::TableNotFound),
        }
    }

    fn del_schema(&mut self, table_name: &String) -> (r: Result<(), Error>) {
        let ghost name = table_name@;
        let ghost old_self = *self;
        let ghost tables = self.view_of().tables;
        let i = match self.find_schema(table_name) {
            Some(i) => i,
            None => return Err(Error::TableNotFound),
        };
        self.schemas.remove(i);
        self.schema_map = Ghost(self.schema_map@.remove(name));
        proof {
            assert forall|j: int| 0 <= j < self.schemas.len() implies
                #[trigger] self.schemas@[j].table_name@ == old_self.schemas@[if j < i { j } else { j + 1 }].table_name@ by {}
            assert forall|n: Seq<char>| #[trigger] self.schema_map@.contains_key(n) implies
                exists|j: int| 0 <= j < self.schemas.len() && self.schemas@[j].table_name@ == n by {
                assert(old_self.schema_map@.contains_key(n));
                let j = choose|j: int| 0 <= j < old_self.schemas.len() && old_self.schemas@[j].table_name@ == n;
                assert(j != i);
                if j < i {
                    assert(self.schemas@[j].table_name@ == n);
                } else {
                    assert(self.schemas@[j - 1].table_name@ == n);
                }
            }
        }
        let ghost schemas_after = self.schemas@;
        let ghost map_after = self.schema_map@;
        let mut j: usize = 0;
        while j < self.slots.len()
            invariant
                j <= self.slots.len(),
                self.slots.len() == old_self.slots.len(),
                name == table_name@,
                self.schemas@ == schemas_after,
                self.schema_map@ == map_after,
                schemas_wf(schemas_after, map_after),
                forall|e: int| 0 <= e < self.slots.len() ==> (#[trigger] self.slots@[e]).0 == old_self.slots@[e].0,
                forall|e: int| 0 <= e < j ==> (#[trigger] self.slots@[e]).1 == if old_self.slots@[e].0@ == name {
                    None
                } else {
                    old_self.slots@[e].1
                },
                forall|e: int| j <= e < self.slots.len() ==> (#[trigger] self.slots@[e]).1 == old_self.slots@[e].1,
            decreases self.slots.len() - j,
        {
            let ghost before = self.slots@[j as int];
            if self.slots[j].0 == *table_name {
                let table = self.slots[j].0.clone();
                self.slots.set(j, (table, None));
            } else {
                assert(self.slots@[j as int] == before);
            }
            j += 1;
        }
        proof {
            assert(self.view_of().tables =~= tables);
            assert(self.view_of().rows =~= rows_outside(old_self.view_of().rows, tables, name));
        }
        Ok(())
    }

    fn gen_id(&mut self, table_name: &String) -> (r: Result<usize, Error>) {
        let ghost old_self = *self;
        let key = self.slots.len();
        self.slots.push((table_name.clone(), None));
        proof {
            assert(self.view_of().tables =~= old_self.view_of().tables.insert(key, table_name@));
            assert(self.view_of().rows =~= old_self.view_of().rows);
        }
        Ok(key)
    }

    fn set_data(&mut self, key: &usize, row: Row) -> (r: Result<Row, Error>) {
        let ghost old_self = *self;
        let k = *key;
        if k >= self.slots.len() {
            return Err(Error::KeyNotFound);
        }
        let stored = Row(copy_values(&row.0));
        let table = self.slots[k].0.clone();
        self.slots.set(k, (table, Some(row)));
        proof {
            assert(self.view_of().tables =~= old_self.view_of().tables);
            assert(self.view_of().rows =~= old_self.view_of().rows.insert(k, stored@));
        }
        Ok(stored)
    }

    fn del_data(&mut self, key: &usize) -> (r: Result<(), Error>) {
        let ghost old_self = *self;
        let k = *key;
        if k >= self.slots.len() || self.slots[k].1.is_none() {
            return Err(Error::KeyNotFound);
        }
        let table = self.slots[k].0.clone();
        self.slots.set(k, (table, None));
        proof {
            assert(self.view_of().tables =~= old_self.view_of().tables);
            assert(self.view_of().rows =~= old_self.view_of().rows.remove(k));
        }
        Ok(())
    }

    fn scan(&self, table_name: &String) -> (r: Result<Vec<(usize, Row)>, Error>) {
        let ghost m = self.view_of();
        let mut out: Vec<(usize, Row)> = Vec::new();
        let mut j: usize = 0;
        while j < self.slots.len()
            invariant
                j <= self.slots.len(),
                m == self.view_of(),
                forall|a: int, b: int| 0 <= a < b < out.len() ==> out@[a].0 < out@[b].0,
                forall|a: int| 0 <= a < out.len() ==> {
                    &&& #[trigger] out@[a].0 < j
                    &&& m.rows.contains_key(out@[a].0)
                    &&& m.tables[out@[a].0] == table_name@
                    &&& m.rows[out@[a].0] == out@[a].1@
                },
                forall|k: usize| k < j && m.rows.contains_key(k) && m.tables[k] == table_name@ ==>
                    exists|a: int| 0 <= a < out.len() && #[trigger] out@[a].0 == k,
            decreases self.slots.len() - j,
        {
            let ghost out_before = out@;
            match &self.slots[j].1 {
                Some(row) => {
                    if self.slots[j].0 == *table_name {
                        out.push((j, Row(copy_values(&row.0))));
                        proof {
                            assert(out@[out.len() - 1].0 == j);
                        }
                    }
                },
                None => {},
            }
            proof {
                assert forall|k: usize| k < j + 1 && m.rows.contains_key(k) && m.tables[k] == table_name@ implies
                    exists|a: int| 0 <= a < out.len() && #[trigger] out@[a].0 == k by {
                    if k < j {
                        let a = choose|a: int| 0 <= a < out_before.len() && #[trigger] out_before[a].0 == k;
                        assert(out@[a].0 == k);
                    } else {
                        assert(out@[out.len() - 1].0 == k);
                    }
                }
            }
            j += 1;
        }
        Ok(out)
    }
}

} // verus!
