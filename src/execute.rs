use vstd::prelude::*;

use crate::data::{copy_column_defs, find_name, names_of, get_table_name, table_name_of, ColumnDef, ObjectName, Row, Schema, SchemaView, Value};
use crate::error::{Error, ExecuteError};
use crate::expr::{eval, filter_row, row_matches, Expr};
use crate::row::build_row;
use crate::store::{is_table_scan, rows_outside, Store, StoreView};
use crate::update::{assign_all, targets_declared, Assignment, Update};

verus! {

/// The kind of object that a DROP names.
#[derive(Debug, Clone, Copy, PartialEq, Eq, Structural)]
pub enum ObjectType {
    Table,
    View,
    Index,
    Schema,
}

/// A parsed SQL statement.
#[derive(Debug, PartialEq)]
pub enum Statement {
    CreateTable { name: ObjectName, columns: Vec<ColumnDef> },
    /// `SELECT * FROM table_name [WHERE selection]`
    Query { table_name: ObjectName, selection: Option<Expr> },
    /// `INSERT INTO table_name [(columns)] VALUES (values)`
    Insert { table_name: ObjectName, columns: Vec<String>, values: Vec<Value> },
    Update { table_name: ObjectName, assignments: Vec<Assignment>, selection: Option<Expr> },
    Delete { table_name: ObjectName, selection: Option<Expr> },
    Drop { object_type: ObjectType, names: Vec<ObjectName> },
    StartTransaction,
    Commit,
    Rollback,
    /// Any other statement kind, which has no execution path.
    Other,
}

/// The outcome of one successfully executed statement.
#[derive(Debug, PartialEq)]
pub enum Payload {
    Create,
    Insert(Row),
    Select(Vec<Row>),
    Delete(usize),
    Update(usize),
    DropTable,
}

/// Whether the `i`-th scanned row passes the WHERE clause.
pub open spec fn matches_at<K>(v: Seq<(K, Row)>, cols: Seq<ColumnDef>, sel: Option<Expr>, i: int) -> bool {
    row_matches(sel, cols, v[i].1@) == Ok::<bool, Error>(true)
}

/// The WHERE clause evaluates without fault on every scanned row.
pub open spec fn all_decided<K>(v: Seq<(K, Row)>, cols: Seq<ColumnDef>, sel: Option<Expr>) -> bool {
    forall|i: int| 0 <= i < v.len() ==> (#[trigger] row_matches(sel, cols, v[i].1@)) is Ok
}

/// How many of the first `n` scanned rows pass the WHERE clause.
pub open spec fn count_matches<K>(v: Seq<(K, Row)>, cols: Seq<ColumnDef>, sel: Option<Expr>, n: int) -> nat
    decreases n,
{
    if n <= 0 {
        0
    } else {
        count_matches(v, cols, sel, n - 1) + if matches_at(v, cols, sel, n - 1) { 1nat } else { 0nat }
    }
}

/// The first `n` scanned rows that pass the WHERE clause, in scan order, or
/// the fault of the first of them on which the clause cannot be evaluated.
pub open spec fn select_prefix<K>(v: Seq<(K, Row)>, cols: Seq<ColumnDef>, sel: Option<Expr>, n: int) -> Result<Seq<Seq<Value>>, Error>
    decreases n,
{
    if n <= 0 {
        Ok(Seq::empty())
    } else {
        match select_prefix(v, cols, sel, n - 1) {
            Err(e) => Err(e),
            Ok(p) => match row_matches(sel, cols, v[n - 1].1@) {
                Err(e) => Err(e),
                Ok(keep) => if keep { Ok(p.push(v[n - 1].1@)) } else { Ok(p) },
            },
        }
    }
}

pub proof fn lemma_select_error_stays<K>(v: Seq<(K, Row)>, cols: Seq<ColumnDef>, sel: Option<Expr>, n: int, m: int)
    requires
        0 <= n <= m,
        select_prefix(v, cols, sel, n) is Err,
    ensures
        select_prefix(v, cols, sel, m) == select_prefix(v, cols, sel, n),
    decreases m - n,
{
    if m > n {
        lemma_select_error_stays(v, cols, sel, n, m - 1);
    }
}

/// What UPDATE makes of one row: `None` where the WHERE clause does not
/// select it, else the row with the assignments applied.
pub open spec fn update_decision(asg: Seq<Assignment>, cols: Seq<ColumnDef>, sel: Option<Expr>, row: Seq<Value>) -> Result<Option<Seq<Value>>, Error> {
    match row_matches(sel, cols, row) {
        Err(e) => Err(e),
        Ok(keep) => if !keep {
            Ok(None)
        } else {
            match assign_all(asg, cols, row) {
                Err(e) => Err(e),
                Ok(new_row) => Ok(Some(new_row)),
            }
        },
    }
}

/// Whether `k` is the key of one of the first `n` scanned rows that pass.
pub open spec fn matched_before<K>(v: Seq<(K, Row)>, cols: Seq<ColumnDef>, sel: Option<Expr>, k: K, n: int) -> bool {
    exists|i: int| 0 <= i < n && #[trigger] v[i].0 == k && matches_at(v, cols, sel, i)
}

/// Whether `k` is the key of a row of table `t` that the WHERE clause selects.
pub open spec fn selected_in<K>(m: StoreView<K>, t: Seq<char>, cols: Seq<ColumnDef>, sel: Option<Expr>, k: K) -> bool {
    &&& m.rows.contains_key(k)
    &&& m.tables[k] == t
    &&& row_matches(sel, cols, m.rows[k]) == Ok::<bool, Error>(true)
}

/// The keys of the rows of table `t` that the WHERE clause selects.
pub open spec fn selected_keys<K>(m: StoreView<K>, t: Seq<char>, cols: Seq<ColumnDef>, sel: Option<Expr>) -> Set<K> {
    Set::new(|k: K| selected_in(m, t, cols, sel, k))
}

/// The keys of the first `n` scanned rows that pass.
pub open spec fn matched_keys<K>(v: Seq<(K, Row)>, cols: Seq<ColumnDef>, sel: Option<Expr>, n: int) -> Set<K> {
    Set::new(|k: K| matched_before(v, cols, sel, k, n))
}

pub proof fn lemma_matched_keys_count<K>(m0: StoreView<K>, t: Seq<char>, v: Seq<(K, Row)>, cols: Seq<ColumnDef>, sel: Option<Expr>, n: int)
    requires
        is_table_scan(m0, t, v),
        0 <= n <= v.len(),
    ensures
        matched_keys(v, cols, sel, n).finite(),
        matched_keys(v, cols, sel, n).len() == count_matches(v, cols, sel, n),
    decreases n,
{
    if n == 0 {
        assert(matched_keys(v, cols, sel, 0) =~= Set::empty());
    } else {
        lemma_matched_keys_count(m0, t, v, cols, sel, n - 1);
        let prev = matched_keys(v, cols, sel, n - 1);
        let key = v[n - 1].0;
        assert forall|k: K| k != key implies
            matched_before(v, cols, sel, k, n) == matched_before(v, cols, sel, k, n - 1) by {
            if matched_before(v, cols, sel, k, n) {
                let j = choose|j: int| 0 <= j < n && #[trigger] v[j].0 == k && matches_at(v, cols, sel, j);
                assert(j != n - 1);
            }
        }
        if matched_before(v, cols, sel, key, n - 1) {
            let j = choose|j: int| 0 <= j < n - 1 && #[trigger] v[j].0 == key && matches_at(v, cols, sel, j);
            assert(v[j].0 != v[n - 1].0);
        }
        if matches_at(v, cols, sel, n - 1) {
            assert(matched_before(v, cols, sel, key, n));
            assert(matched_keys(v, cols, sel, n) =~= prev.insert(key));
        } else {
            if matched_before(v, cols, sel, key, n) {
                let j = choose|j: int| 0 <= j < n && #[trigger] v[j].0 == key && matches_at(v, cols, sel, j);
                assert(j != n - 1);
            }
            assert(matched_keys(v, cols, sel, n) =~= prev);
        }
    }
}

/// Over a full scan of table `t`, the number of rows that pass the WHERE
/// clause is the number of keys of `t` whose rows it selects.
pub proof fn lemma_count_is_selected_keys<K>(m0: StoreView<K>, t: Seq<char>, v: Seq<(K, Row)>, cols: Seq<ColumnDef>, sel: Option<Expr>)
    requires
        is_table_scan(m0, t, v),
    ensures
        selected_keys(m0, t, cols, sel).finite(),
        selected_keys(m0, t, cols, sel).len() == count_matches(v, cols, sel, v.len() as int),
{
    lemma_matched_keys_count(m0, t, v, cols, sel, v.len() as int);
    assert forall|k: K| selected_in(m0, t, cols, sel, k) == matched_before(v, cols, sel, k, v.len() as int) by {
        if selected_in(m0, t, cols, sel, k) {
            let i = choose|i: int| 0 <= i < v.len() && #[trigger] v[i].0 == k;
            assert(matches_at(v, cols, sel, i));
        }
        if matched_before(v, cols, sel, k, v.len() as int) {
            let j = choose|j: int| 0 <= j < v.len() && #[trigger] v[j].0 == k && matches_at(v, cols, sel, j);
            assert(m0.rows.contains_key(v[j].0));
        }
    }
    assert(selected_keys(m0, t, cols, sel) =~= matched_keys(v, cols, sel, v.len() as int));
}

/// The views of a list of rows.
pub open spec fn row_views(rows: Seq<Row>) -> Seq<Seq<Value>> {
    rows.map_values(|r: Row| r@)
}

/// The columns of table `name`.
pub open spec fn columns_of<K>(m: StoreView<K>, name: Seq<char>) -> Seq<ColumnDef> {
    m.schemas[name].column_defs
}

/// What a statement may do before it reaches its own work: resolve the
/// table name and look up the table.
pub open spec fn table_post<K>(name: ObjectName, m0: StoreView<K>, m1: StoreView<K>, r: Result<Payload, Error>) -> bool {
    &&& table_name_of(name.0@) matches Err(e) ==> r == Err::<Payload, Error>(e) && m1 == m0
    &&& table_name_of(name.0@) matches Ok(t) ==> (!m0.schemas.contains_key(t) ==> r == Err::<Payload, Error>(Error::TableNotFound) && m1 == m0)
}

pub open spec fn create_post<K>(name: ObjectName, columns: Seq<ColumnDef>, m0: StoreView<K>, m1: StoreView<K>, r: Result<Payload, Error>) -> bool {
    &&& table_name_of(name.0@) matches Err(e) ==> r == Err::<Payload, Error>(e) && m1 == m0
    &&& r is Err ==> m1 == m0
    &&& r is Ok ==> r == Ok::<Payload, Error>(Payload::Create) && m1 == (StoreView {
        schemas: m0.schemas.insert(
            table_name_of(name.0@)->Ok_0,
            SchemaView { table_name: table_name_of(name.0@)->Ok_0, column_defs: columns },
        ),
        ..m0
    })
}

pub open spec fn select_post<K>(name: ObjectName, sel: Option<Expr>, m0: StoreView<K>, m1: StoreView<K>, r: Result<Payload, Error>) -> bool {
    &&& m1 == m0
    &&& table_post(name, m0, m1, r)
    &&& r is Ok ==> ({
        let t = table_name_of(name.0@)->Ok_0;
        let cols = columns_of(m0, t);
        &&& m0.schemas.contains_key(t)
        &&& r matches Ok(Payload::Select(rows)) && exists|v: Seq<(K, Row)>| {
            &&& #[trigger] is_table_scan(m0, t, v)
            &&& select_prefix(v, cols, sel, v.len() as int) == Ok::<Seq<Seq<Value>>, Error>(row_views(rows@))
        }
    })
}

pub open spec fn insert_post<K>(name: ObjectName, columns: Seq<String>, values: Seq<Value>, m0: StoreView<K>, m1: StoreView<K>, r: Result<Payload, Error>) -> bool {
    &&& table_post(name, m0, m1, r)
    &&& table_name_of(name.0@) matches Ok(t) ==> (m0.schemas.contains_key(t) ==>
        (build_row(columns_of(m0, t), columns, values) matches Err(e) ==> r == Err::<Payload, Error>(e) && m1 == m0))
    &&& r is Err ==> m1.schemas == m0.schemas && m1.rows == m0.rows
    &&& r is Ok ==> ({
        let t = table_name_of(name.0@)->Ok_0;
        &&& m0.schemas.contains_key(t)
        &&& build_row(columns_of(m0, t), columns, values) is Ok
        &&& r matches Ok(Payload::Insert(stored)) && exists|k: K| {
            &&& !m0.tables.contains_key(k)
            &&& #[trigger] m1.tables == m0.tables.insert(k, t)
            &&& m1.rows == m0.rows.insert(k, stored@)
            &&& stored@ == build_row(columns_of(m0, t), columns, values)->Ok_0
            &&& m1.schemas == m0.schemas
        }
    })
}

pub open spec fn update_post<K>(name: ObjectName, asg: Seq<Assignment>, sel: Option<Expr>, m0: StoreView<K>, m1: StoreView<K>, r: Result<Payload, Error>) -> bool {
    &&& table_post(name, m0, m1, r)
    &&& table_name_of(name.0@) matches Ok(t) ==> (m0.schemas.contains_key(t) && !targets_declared(asg, columns_of(m0, t))
        ==> r == Err::<Payload, Error>(Error::ColumnNotFound) && m1 == m0)
    &&& m1.schemas == m0.schemas && m1.tables == m0.tables && m1.rows.dom() == m0.rows.dom()
    &&& table_name_of(name.0@) matches Ok(t) ==> (forall|k: K| !selected_in(m0, t, columns_of(m0, t), sel, k)
        ==> #[trigger] m1.rows[k] == m0.rows[k])
    &&& r is Ok ==> ({
        let t = table_name_of(name.0@)->Ok_0;
        let cols = columns_of(m0, t);
        &&& m0.schemas.contains_key(t)
        &&& r matches Ok(Payload::Update(n)) && exists|v: Seq<(K, Row)>| {
            &&& #[trigger] is_table_scan(m0, t, v)
            &&& all_decided(v, cols, sel)
            &&& n == count_matches(v, cols, sel, v.len() as int)
            &&& n == selected_keys(m0, t, cols, sel).len()
            &&& forall|i: int| 0 <= i < v.len() && matches_at(v, cols, sel, i) ==> {
                &&& (#[trigger] assign_all(asg, cols, v[i].1@)) is Ok
                &&& m1.rows[v[i].0] == assign_all(asg, cols, v[i].1@)->Ok_0
            }
        }
    })
}

pub open spec fn delete_post<K>(name: ObjectName, sel: Option<Expr>, m0: StoreView<K>, m1: StoreView<K>, r: Result<Payload, Error>) -> bool {
    &&& table_post(name, m0, m1, r)
    &&& m1.schemas == m0.schemas && m1.tables == m0.tables
    &&& forall|k: K| #[trigger] m1.rows.contains_key(k) ==> m0.rows.contains_key(k) && m1.rows[k] == m0.rows[k]
    &&& table_name_of(name.0@) matches Ok(t) ==> (forall|k: K| #[trigger] m0.rows.contains_key(k) && !m1.rows.contains_key(k)
        ==> selected_in(m0, t, columns_of(m0, t), sel, k))
    &&& r is Ok ==> ({
        let t = table_name_of(name.0@)->Ok_0;
        let cols = columns_of(m0, t);
        &&& m0.schemas.contains_key(t)
        &&& r matches Ok(Payload::Delete(n)) && exists|v: Seq<(K, Row)>| {
            &&& #[trigger] is_table_scan(m0, t, v)
            &&& all_decided(v, cols, sel)
            &&& n == count_matches(v, cols, sel, v.len() as int)
            &&& n == selected_keys(m0, t, cols, sel).len()
            &&& m1.rows == rows_left(m0, v, cols, sel, v.len() as int)
        }
    })
}

/// The store once table `t` is dropped.
pub open spec fn drop_table<K>(m: StoreView<K>, t: Seq<char>) -> StoreView<K> {
    StoreView { schemas: m.schemas.remove(t), tables: m.tables, rows: rows_outside(m.rows, m.tables, t) }
}

/// The store once the first `n` named tables are dropped, in order.
pub open spec fn drop_tables<K>(m: StoreView<K>, names: Seq<ObjectName>, n: int) -> StoreView<K>
    decreases n,
{
    if n <= 0 {
        m
    } else {
        drop_table(drop_tables(m, names, n - 1), table_name_of(names[n - 1].0@)->Ok_0)
    }
}

pub open spec fn drop_post<K>(object_type: ObjectType, names: Seq<ObjectName>, m0: StoreView<K>, m1: StoreView<K>, r: Result<Payload, Error>) -> bool {
    &&& object_type != ObjectType::Table ==> r == Err::<Payload, Error>(Error::Execute(ExecuteError::DropTypeNotSupported)) && m1 == m0
    &&& object_type == ObjectType::Table && names.len() == 0 ==> r == Ok::<Payload, Error>(Payload::DropTable) && m1 == m0
    &&& object_type == ObjectType::Table && names.len() > 0 ==> (table_name_of(names[0].0@) matches Err(e)
        ==> r == Err::<Payload, Error>(e) && m1 == m0)
    &&& object_type == ObjectType::Table && r is Err ==> exists|j: int| {
        &&& 0 <= j < names.len()
        &&& forall|i: int| 0 <= i < j ==> (#[trigger] table_name_of(names[i].0@)) is Ok
        &&& #[trigger] drop_tables(m0, names, j) == m1
        &&& (table_name_of(names[j].0@) matches Err(e) ==> r == Err::<Payload, Error>(e))
    }
    &&& r is Ok ==> {
        &&& r == Ok::<Payload, Error>(Payload::DropTable)
        &&& forall|i: int| 0 <= i < names.len() ==> (#[trigger] table_name_of(names[i].0@)) is Ok
        &&& m1 == drop_tables(m0, names, names.len() as int)
    }
}

/// What executing `s` on a store in state `m0` may return, with `m1` the state after.
pub open spec fn execute_post<K>(s: Statement, m0: StoreView<K>, m1: StoreView<K>, r: Result<Payload, Error>) -> bool {
    match s {
        Statement::CreateTable { name, columns } => create_post(name, columns@, m0, m1, r),
        Statement::Query { table_name, selection } => select_post(table_name, selection, m0, m1, r),
        Statement::Insert { table_name, columns, values } => insert_post(table_name, columns@, values@, m0, m1, r),
        Statement::Update { table_name, assignments, selection } => update_post(table_name, assignments@, selection, m0, m1, r),
        Statement::Delete { table_name, selection } => delete_post(table_name, selection, m0, m1, r),
        Statement::Drop { object_type, names } => drop_post(object_type, names@, m0, m1, r),
        _ => r == Err::<Payload, Error>(Error::Execute(ExecuteError::QueryNotSupported)) && m1 == m0,
    }
}

fn execute_create<K, S: Store<K>>(storage: &mut S, name: &ObjectName, columns: &Vec<ColumnDef>) -> (r: Result<Payload, Error>)
    requires
        old(storage).inv(),
    ensures
        final(storage).inv(),
        create_post(*name, columns@, old(storage).model(), final(storage).model(), r),
{
    let table_name = get_table_name(name)?;
    let schema = Schema { table_name: table_name.clone(), column_defs: copy_column_defs(columns) };
    storage.set_schema(&schema)?;
    Ok(Payload::Create)
}

/// The scanned rows that pass the WHERE clause, in scan order; fails with
/// the fault of the first row on which the clause cannot be evaluated.
pub fn select_rows<K>(items: &Vec<(K, Row)>, cols: &Vec<ColumnDef>, selection: &Option<Expr>) -> (r: Result<Vec<Row>, Error>)
    ensures
        r matches Ok(rows) ==> select_prefix(items@, cols@, *selection, items@.len() as int)
            == Ok::<Seq<Seq<Value>>, Error>(row_views(rows@)),
        r matches Err(e) ==> select_prefix(items@, cols@, *selection, items@.len() as int) == Err::<Seq<Seq<Value>>, Error>(e),
{
    let mut rows: Vec<Row> = Vec::new();
    assert(row_views(rows@) =~= Seq::<Seq<Value>>::empty());
    let mut i: usize = 0;
    while i < items.len()
        invariant
            i <= items.len(),
            select_prefix(items@, cols@, *selection, i as int) == Ok::<Seq<Seq<Value>>, Error>(row_views(rows@)),
        decreases items.len() - i,
    {
        let item = &items[i];
        let keep = match filter_row(selection, cols, &item.1.0) {
            Ok(keep) => keep,
            Err(e) => {
                proof {
                    lemma_select_error_stays(items@, cols@, *selection, i + 1, items@.len() as int);
                }
                return Err(e);
            },
        };
        let ghost before = row_views(rows@);
        if keep {
            rows.push(Row(crate::data::copy_values(&item.1.0)));
            assert(row_views(rows@) =~= before.push(items@[i as int].1@));
        }
        i += 1;
    }
    Ok(rows)
}

/// Decides what UPDATE does with one row: `None` where the WHERE clause
/// leaves it alone, else the row with the assignments applied.
pub fn decide_update(update: &Update, selection: &Option<Expr>, row: &Row) -> (r: Result<Option<Row>, Error>)
    requires
        update.wf(),
    ensures
        r matches Ok(Some(x)) ==> update_decision(update.assignments@, update.columns@, *selection, row@)
            == Ok::<Option<Seq<Value>>, Error>(Some(x@)),
        r matches Ok(None) ==> update_decision(update.assignments@, update.columns@, *selection, row@)
            == Ok::<Option<Seq<Value>>, Error>(None),
        r matches Err(e) ==> update_decision(update.assignments@, update.columns@, *selection, row@)
            == Err::<Option<Seq<Value>>, Error>(e),
{
    if filter_row(selection, update.columns, &row.0)? {
        Ok(Some(update.apply(row)?))
    } else {
        Ok(None)
    }
}

fn execute_select<K, S: Store<K>>(storage: &mut S, name: &ObjectName, selection: &Option<Expr>) -> (r: Result<Payload, Error>)
    requires
        old(storage).inv(),
    ensures
        final(storage).inv(),
        select_post(*name, *selection, old(storage).model(), final(storage).model(), r),
{
    let table_name = get_table_name(name)?;
    let schema = storage.get_schema(table_name)?;
    let items = storage.scan(table_name)?;
    let rows = select_rows(&items, &schema.column_defs, selection)?;
    assert(is_table_scan(storage.model(), table_name@, items@));
    Ok(Payload::Select(rows))
}

fn execute_insert<K, S: Store<K>>(
    storage: &mut S,
    name: &ObjectName,
    columns: &Vec<String>,
    values: &Vec<Value>,
) -> (r: Result<Payload, Error>)
    requires
        old(storage).inv(),
    ensures
        final(storage).inv(),
        insert_post(*name, columns@, values@, old(storage).model(), final(storage).model(), r),
{
    let table_name = get_table_name(name)?;
    let schema = storage.get_schema(table_name)?;
    let row = Row::new(&schema.column_defs, columns, values)?;
    let key = storage.gen_id(table_name)?;
    let stored = storage.set_data(&key, row)?;
    Ok(Payload::Insert(stored))
}

fn execute_update<K, S: Store<K>>(
    storage: &mut S,
    name: &ObjectName,
    assignments: &Vec<Assignment>,
    selection: &Option<Expr>,
) -> (r: Result<Payload, Error>)
    requires
        old(storage).inv(),
    ensures
        final(storage).inv(),
        update_post(*name, assignments@, *selection, old(storage).model(), final(storage).model(), r),
{
    let table_name = get_table_name(name)?;
    let schema = storage.get_schema(table_name)?;
    let update = Update::new(assignments, &schema.column_defs)?;
    let items = storage.scan(table_name)?;
    let ghost m0 = storage.model();
    let ghost cols = schema.column_defs@;
    let ghost t = table_name@;
    let mut n: usize = 0;
    let mut i: usize = 0;
    while i < items.len()
        invariant
            storage.inv(),
            i <= items.len(),
            n <= i,
            m0 == old(storage).model(),
            table_name_of(name.0@) == Ok::<Seq<char>, Error>(t),
            m0.schemas.contains_key(t),
            cols == columns_of(m0, t),
            update.wf(),
            update.columns@ == cols,
            update.assignments@ == assignments@,
            is_table_scan(m0, t, items@),
            forall|j: int| 0 <= j < i ==> (#[trigger] row_matches(*selection, cols, items@[j].1@)) is Ok,
            n == count_matches(items@, cols, *selection, i as int),
            forall|j: int| 0 <= j < i && matches_at(items@, cols, *selection, j) ==> {
                &&& (#[trigger] assign_all(assignments@, cols, items@[j].1@)) is Ok
                &&& storage.model().rows[items@[j].0] == assign_all(assignments@, cols, items@[j].1@)->Ok_0
            },
            storage.model().schemas == m0.schemas,
            storage.model().tables == m0.tables,
            storage.model().rows.dom() == m0.rows.dom(),
            forall|k: K| !selected_in(m0, t, cols, *selection, k) ==> #[trigger] storage.model().rows[k] == m0.rows[k],
        decreases items.len() - i,
    {
        let item = &items[i];
        let ghost key = items@[i as int].0;
        let decision = decide_update(&update, selection, &item.1)?;
        match decision {
            Some(new_row) => {
                let ghost applied = new_row@;
                storage.set_data(&item.0, new_row)?;
                proof {
                    assert(m0.rows.contains_key(key));
                    assert(selected_in(m0, t, cols, *selection, key));
                    assert(storage.model().rows.dom() =~= m0.rows.dom());
                    assert forall|j: int| 0 <= j < i + 1 && matches_at(items@, cols, *selection, j) implies {
                        &&& (#[trigger] assign_all(assignments@, cols, items@[j].1@)) is Ok
                        &&& storage.model().rows[items@[j].0] == assign_all(assignments@, cols, items@[j].1@)->Ok_0
                    } by {
                        if j < i {
                            assert(items@[j].0 != key);
                        }
                    }
                }
                n += 1;
            },
            None => {},
        }
        i += 1;
    }
    proof {
        lemma_count_is_selected_keys(m0, t, items@, cols, *selection);
    }
    Ok(Payload::Update(n))
}

/// The rows left once the rows among the first `n` scanned that pass the
/// WHERE clause are removed.
pub open spec fn rows_left<K>(m0: StoreView<K>, v: Seq<(K, Row)>, cols: Seq<ColumnDef>, sel: Option<Expr>, n: int) -> Map<K, Seq<Value>> {
    Map::new(|k: K| m0.rows.contains_key(k) && !matched_before(v, cols, sel, k, n), |k: K| m0.rows[k])
}

/// Each row left was there before, unchanged, and each row gone was a row
/// of `t` that the WHERE clause selects.
pub proof fn lemma_rows_left<K>(m0: StoreView<K>, t: Seq<char>, v: Seq<(K, Row)>, cols: Seq<ColumnDef>, sel: Option<Expr>, n: int)
    requires
        is_table_scan(m0, t, v),
        0 <= n <= v.len(),
    ensures
        forall|k: K| #[trigger] rows_left(m0, v, cols, sel, n).contains_key(k)
            ==> m0.rows.contains_key(k) && rows_left(m0, v, cols, sel, n)[k] == m0.rows[k],
        forall|k: K| #[trigger] m0.rows.contains_key(k) && !rows_left(m0, v, cols, sel, n).contains_key(k)
            ==> selected_in(m0, t, cols, sel, k),
{
    assert forall|k: K| #[trigger] m0.rows.contains_key(k) && !rows_left(m0, v, cols, sel, n).contains_key(k)
        implies selected_in(m0, t, cols, sel, k) by {
        let j = choose|j: int| 0 <= j < n && #[trigger] v[j].0 == k && matches_at(v, cols, sel, j);
        assert(m0.rows.contains_key(v[j].0));
    }
}

/// One step of DELETE: the `i`-th scanned row goes exactly when it passes.
pub proof fn lemma_rows_left_step<K>(m0: StoreView<K>, t: Seq<char>, v: Seq<(K, Row)>, cols: Seq<ColumnDef>, sel: Option<Expr>, i: int)
    requires
        is_table_scan(m0, t, v),
        0 <= i < v.len(),
    ensures
        matches_at(v, cols, sel, i) ==> rows_left(m0, v, cols, sel, i).contains_key(v[i].0)
            && rows_left(m0, v, cols, sel, i + 1) == rows_left(m0, v, cols, sel, i).remove(v[i].0),
        !matches_at(v, cols, sel, i) ==> rows_left(m0, v, cols, sel, i + 1) == rows_left(m0, v, cols, sel, i),
{
    let key = v[i].0;
    assert(m0.rows.contains_key(key));
    if matched_before(v, cols, sel, key, i) {
        let j = choose|j: int| 0 <= j < i && #[trigger] v[j].0 == key && matches_at(v, cols, sel, j);
        assert(v[j].0 != v[i].0);
    }
    assert forall|k: K| k != key implies
        matched_before(v, cols, sel, k, i + 1) == matched_before(v, cols, sel, k, i) by {
        if matched_before(v, cols, sel, k, i + 1) {
            let j = choose|j: int| 0 <= j < i + 1 && #[trigger] v[j].0 == k && matches_at(v, cols, sel, j);
            assert(j != i);
        }
    }
    if matches_at(v, cols, sel, i) {
        assert(matched_before(v, cols, sel, key, i + 1));
        assert(rows_left(m0, v, cols, sel, i + 1) =~= rows_left(m0, v, cols, sel, i).remove(key));
    } else {
        if matched_before(v, cols, sel, key, i + 1) {
            let j = choose|j: int| 0 <= j < i + 1 && #[trigger] v[j].0 == key && matches_at(v, cols, sel, j);
            assert(j != i);
        }
        assert(rows_left(m0, v, cols, sel, i + 1) =~= rows_left(m0, v, cols, sel, i));
    }
}

#[verifier::spinoff_prover]
fn execute_delete<K, S: Store<K>>(storage: &mut S, name: &ObjectName, selection: &Option<Expr>) -> (r: Result<Payload, Error>)
    requires
        old(storage).inv(),
    ensures
        final(storage).inv(),
        delete_post(*name, *selection, old(storage).model(), final(storage).model(), r),
{
    let table_name = get_table_name(name)?;
    let schema = storage.get_schema(table_name)?;
    let items = storage.scan(table_name)?;
    let ghost m0 = storage.model();
    let ghost cols = schema.column_defs@;
    let ghost t = table_name@;
    assert(m0.rows =~= rows_left(m0, items@, cols, *selection, 0));
    let mut n: usize = 0;
    let mut i: usize = 0;
    while i < items.len()
        invariant
            storage.inv(),
            i <= items.len(),
            n <= i,
            m0 == old(storage).model(),
            table_name_of(name.0@) == Ok::<Seq<char>, Error>(t),
            m0.schemas.contains_key(t),
            cols == columns_of(m0, t),
            cols == schema.column_defs@,
            is_table_scan(m0, t, items@),
            forall|j: int| 0 <= j < i ==> (#[trigger] row_matches(*selection, cols, items@[j].1@)) is Ok,
            n == count_matches(items@, cols, *selection, i as int),
            storage.model().schemas == m0.schemas,
            storage.model().tables == m0.tables,
            storage.model().rows == rows_left(m0, items@, cols, *selection, i as int),
        decreases items.len() - i,
    {
        proof {
            lemma_rows_left(m0, t, items@, cols, *selection, i as int);
            lemma_rows_left_step(m0, t, items@, cols, *selection, i as int);
        }
        let item = &items[i];
        let keep = filter_row(selection, &schema.column_defs, &item.1.0)?;
        if keep {
            storage.del_data(&item.0)?;
            n += 1;
        }
        i += 1;
    }
    proof {
        lemma_rows_left(m0, t, items@, cols, *selection, i as int);
        assert(all_decided(items@, cols, *selection));
        assert(is_table_scan(m0, t, items@));
        lemma_count_is_selected_keys(m0, t, items@, cols, *selection);
    }
    Ok(Payload::Delete(n))
}

fn execute_drop<K, S: Store<K>>(storage: &mut S, object_type: ObjectType, names: &Vec<ObjectName>) -> (r: Result<Payload, Error>)
    requires
        old(storage).inv(),
    ensures
        final(storage).inv(),
        drop_post(object_type, names@, old(storage).model(), final(storage).model(), r),
{
    // the kind is checked once, before any table is touched
    if !matches!(object_type, ObjectType::Table) {
        return Err(Error::Execute(ExecuteError::DropTypeNotSupported));
    }
    let mut i: usize = 0;
    while i < names.len()
        invariant
            storage.inv(),
            i <= names.len(),
            object_type == ObjectType::Table,
            storage.model() == drop_tables(old(storage).model(), names@, i as int),
            forall|j: int| 0 <= j < i ==> (#[trigger] table_name_of(names@[j].0@)) is Ok,
        decreases names.len() - i,
    {
        let table_name = get_table_name(&names[i])?;
        storage.del_schema(table_name)?;
        i += 1;
    }
    Ok(Payload::DropTable)
}

/// Executes one statement against `storage` and describes what it did.
/// Statements that touch several rows or tables are not atomic: a failure
/// part way leaves the earlier writes in place.
pub fn execute<K, S: Store<K>>(storage: &mut S, statement: &Statement) -> (r: Result<Payload, Error>)
    requires
        old(storage).inv(),
    ensures
        final(storage).inv(),
        execute_post(*statement, old(storage).model(), final(storage).model(), r),
{
    match statement {
        Statement::CreateTable { name, columns } => execute_create(storage, name, columns),
        Statement::Query { table_name, selection } => execute_select(storage, table_name, selection),
        Statement::Insert { table_name, columns, values } => execute_insert(storage, table_name, columns, values),
        Statement::Update { table_name, assignments, selection } => execute_update(storage, table_name, assignments, selection),
        Statement::Delete { table_name, selection } => execute_delete(storage, table_name, selection),
        Statement::Drop { object_type, names } => execute_drop(storage, *object_type, names),
        _ => Err(Error::Execute(ExecuteError::QueryNotSupported)),
    }
}

/// Once CREATE TABLE has succeeded, the store holds under the table's name
/// exactly the declared columns, in declaration order; a schema lookup
/// returns them.
pub proof fn lemma_create_then_lookup<K>(
    name: ObjectName,
    columns: Vec<ColumnDef>,
    m0: StoreView<K>,
    m1: StoreView<K>,
    r: Result<Payload, Error>,
)
    requires
        execute_post(Statement::CreateTable { name, columns }, m0, m1, r),
        r is Ok,
    ensures
        table_name_of(name.0@) is Ok,
        m1.schemas.contains_key(table_name_of(name.0@)->Ok_0),
        m1.schemas[table_name_of(name.0@)->Ok_0].column_defs == columns@,
        m1.schemas[table_name_of(name.0@)->Ok_0].table_name == table_name_of(name.0@)->Ok_0,
{
}

/// Two successful INSERTs, one after the other, store their rows under two
/// distinct keys, and both rows can be read back by key afterwards.
pub proof fn lemma_successive_inserts<K>(
    first: Statement,
    second: Statement,
    m0: StoreView<K>,
    m1: StoreView<K>,
    m2: StoreView<K>,
    r1: Result<Payload, Error>,
    r2: Result<Payload, Error>,
)
    requires
        first is Insert,
        second is Insert,
        execute_post(first, m0, m1, r1),
        execute_post(second, m1, m2, r2),
        r1 is Ok,
        r2 is Ok,
    ensures
        r1 matches Ok(Payload::Insert(a)) && r2 matches Ok(Payload::Insert(b)) && exists|k1: K, k2: K| {
            &&& k1 != k2
            &&& #[trigger] m2.rows.contains_key(k1) && m2.rows[k1] == a@
            &&& #[trigger] m2.rows.contains_key(k2) && m2.rows[k2] == b@
        },
{
    let a = r1->Ok_0->Insert_0;
    let b = r2->Ok_0->Insert_0;
    let t1 = table_name_of(first->Insert_table_name.0@)->Ok_0;
    let t2 = table_name_of(second->Insert_table_name.0@)->Ok_0;
    let k1 = choose|k: K| {
        &&& !m0.tables.contains_key(k)
        &&& #[trigger] m1.tables == m0.tables.insert(k, t1)
        &&& m1.rows == m0.rows.insert(k, a@)
        &&& m1.schemas == m0.schemas
    };
    let k2 = choose|k: K| {
        &&& !m1.tables.contains_key(k)
        &&& #[trigger] m2.tables == m1.tables.insert(k, t2)
        &&& m2.rows == m1.rows.insert(k, b@)
        &&& m2.schemas == m1.schemas
    };
    assert(m1.tables.contains_key(k1));
    assert(k1 != k2);
    assert(m2.rows.contains_key(k1) && m2.rows[k1] == a@);
    assert(m2.rows.contains_key(k2) && m2.rows[k2] == b@);
}

/// After a successful UPDATE with two assignments to distinct columns, each
/// selected row holds in the first column what the first expression gives on
/// its old values, and in the second what the second expression gives on its
/// old values; every other column is unchanged.
pub proof fn lemma_update_reads_original_row<K>(
    table_name: ObjectName,
    assignments: Vec<Assignment>,
    selection: Option<Expr>,
    m0: StoreView<K>,
    m1: StoreView<K>,
    r: Result<Payload, Error>,
    k: K,
)
    requires
        execute_post(Statement::Update { table_name, assignments, selection }, m0, m1, r),
        r is Ok,
        assignments@.len() == 2,
        table_name_of(table_name.0@) is Ok,
        ({
            let t = table_name_of(table_name.0@)->Ok_0;
            let cols = columns_of(m0, t);
            let row = m0.rows[k];
            &&& selected_in(m0, t, cols, selection, k)
            &&& row.len() == cols.len()
            &&& find_name(names_of(cols), assignments@[0].id@) != find_name(names_of(cols), assignments@[1].id@)
            &&& eval(assignments@[0].value, cols, row) is Ok
            &&& eval(assignments@[1].value, cols, row) is Ok
        }),
    ensures
        ({
            let t = table_name_of(table_name.0@)->Ok_0;
            let cols = columns_of(m0, t);
            let row = m0.rows[k];
            let a = find_name(names_of(cols), assignments@[0].id@)->Some_0;
            let b = find_name(names_of(cols), assignments@[1].id@)->Some_0;
            m1.rows[k] == row.update(a, eval(assignments@[0].value, cols, row)->Ok_0).update(
                b,
                eval(assignments@[1].value, cols, row)->Ok_0,
            )
        }),
{
    let t = table_name_of(table_name.0@)->Ok_0;
    let cols = columns_of(m0, t);
    let asg = assignments@;
    let v = choose|v: Seq<(K, Row)>| {
        &&& #[trigger] is_table_scan(m0, t, v)
        &&& all_decided(v, cols, selection)
        &&& r->Ok_0->Update_0 == count_matches(v, cols, selection, v.len() as int)
        &&& r->Ok_0->Update_0 == selected_keys(m0, t, cols, selection).len()
        &&& forall|i: int| 0 <= i < v.len() && matches_at(v, cols, selection, i) ==> {
            &&& (#[trigger] assign_all(asg, cols, v[i].1@)) is Ok
            &&& m1.rows[v[i].0] == assign_all(asg, cols, v[i].1@)->Ok_0
        }
    };
    let i = choose|i: int| 0 <= i < v.len() && #[trigger] v[i].0 == k;
    assert(v[i].1@ == m0.rows[k]);
    assert(matches_at(v, cols, selection, i));
    assert(targets_declared(asg, cols));
    assert(find_name(names_of(cols), asg[0].id@) is Some);
    assert(find_name(names_of(cols), asg[1].id@) is Some);
    assert(asg =~= seq![asg[0], asg[1]]);
    crate::update::lemma_assignments_read_original_row(asg[0], asg[1], cols, m0.rows[k]);
}

} // verus!
