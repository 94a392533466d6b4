use sqlexec::{
    decide_update, execute, select_rows, Update, Assignment, BinaryOperator, ColumnDef, DataType, Error, ExecuteError, Expr, MemoryStore, ObjectName,
    ObjectType, Payload, Row, Statement, Store, Value,
};

fn name(s: &str) -> ObjectName {
    ObjectName(vec![s.to_string()])
}

fn col(s: &str) -> Expr {
    Expr::Identifier(s.to_string())
}

fn lit_int(i: i64) -> Expr {
    Expr::Literal(Value::Int(i))
}

fn text(s: &str) -> Value {
    Value::Text(s.to_string())
}

fn bin(l: Expr, op: BinaryOperator, r: Expr) -> Expr {
    Expr::BinaryOp(Box::new(l), op, Box::new(r))
}

fn def(n: &str, t: DataType) -> ColumnDef {
    ColumnDef { name: n.to_string(), data_type: t }
}

fn create_t(store: &mut MemoryStore) {
    let stmt = Statement::CreateTable {
        name: name("t"),
        columns: vec![def("id", DataType::Int), def("name", DataType::Text)],
    };
    assert_eq!(execute(store, &stmt), Ok(Payload::Create));
}

fn insert(store: &mut MemoryStore, values: Vec<Value>) -> Result<Payload, Error> {
    execute(store, &Statement::Insert { table_name: name("t"), columns: vec![], values })
}

fn select(store: &mut MemoryStore, selection: Option<Expr>) -> Vec<Row> {
    match execute(store, &Statement::Query { table_name: name("t"), selection }) {
        Ok(Payload::Select(rows)) => rows,
        other => panic!("unexpected outcome {:?}", other),
    }
}

fn id_is(i: i64) -> Option<Expr> {
    Some(bin(col("id"), BinaryOperator::Eq, lit_int(i)))
}

#[test]
fn create_insert_select_one_row() {
    let mut store = MemoryStore::new();
    create_t(&mut store);
    let inserted = insert(&mut store, vec![Value::Int(1), text("a")]);
    assert_eq!(inserted, Ok(Payload::Insert(Row(vec![Value::Int(1), text("a")]))));
    let rows = select(&mut store, id_is(1));
    assert_eq!(rows, vec![Row(vec![Value::Int(1), text("a")])]);
}

#[test]
fn update_then_select_sees_new_value() {
    let mut store = MemoryStore::new();
    create_t(&mut store);
    insert(&mut store, vec![Value::Int(1), text("a")]).unwrap();
    let stmt = Statement::Update {
        table_name: name("t"),
        assignments: vec![Assignment { id: "name".to_string(), value: Expr::Literal(text("b")) }],
        selection: id_is(1),
    };
    assert_eq!(execute(&mut store, &stmt), Ok(Payload::Update(1)));
    assert_eq!(select(&mut store, id_is(1)), vec![Row(vec![Value::Int(1), text("b")])]);
}

#[test]
fn transaction_control_is_not_supported() {
    let mut store = MemoryStore::new();
    for stmt in [Statement::StartTransaction, Statement::Commit, Statement::Rollback, Statement::Other] {
        assert_eq!(execute(&mut store, &stmt), Err(Error::Execute(ExecuteError::QueryNotSupported)));
    }
    assert_eq!(store.get_schema(&"t".to_string()).unwrap_err(), Error::TableNotFound);
}

#[test]
fn drop_view_is_rejected_and_tables_stay() {
    let mut store = MemoryStore::new();
    create_t(&mut store);
    let stmt = Statement::Drop { object_type: ObjectType::View, names: vec![name("t")] };
    assert_eq!(execute(&mut store, &stmt), Err(Error::Execute(ExecuteError::DropTypeNotSupported)));
    assert!(store.get_schema(&"t".to_string()).is_ok());
}

#[test]
fn drop_table_removes_schema_and_rows() {
    let mut store = MemoryStore::new();
    create_t(&mut store);
    insert(&mut store, vec![Value::Int(1), text("a")]).unwrap();
    let stmt = Statement::Drop { object_type: ObjectType::Table, names: vec![name("t")] };
    assert_eq!(execute(&mut store, &stmt), Ok(Payload::DropTable));
    assert_eq!(store.get_schema(&"t".to_string()).unwrap_err(), Error::TableNotFound);
    assert_eq!(store.scan(&"t".to_string()).unwrap().len(), 0);
    assert_eq!(execute(&mut store, &stmt), Err(Error::TableNotFound));
}

#[test]
fn drop_several_tables_stops_at_missing_one() {
    let mut store = MemoryStore::new();
    create_t(&mut store);
    let stmt = Statement::Drop { object_type: ObjectType::Table, names: vec![name("t"), name("u")] };
    assert_eq!(execute(&mut store, &stmt), Err(Error::TableNotFound));
    // the first drop is not rolled back
    assert_eq!(store.get_schema(&"t".to_string()).unwrap_err(), Error::TableNotFound);
}

#[test]
fn created_schema_keeps_declared_columns() {
    let mut store = MemoryStore::new();
    let columns = vec![def("z", DataType::Boolean), def("a", DataType::Int), def("m", DataType::Text)];
    let stmt = Statement::CreateTable { name: ObjectName(vec!["db".to_string(), "t".to_string()]), columns };
    assert_eq!(execute(&mut store, &stmt), Ok(Payload::Create));
    let schema = store.get_schema(&"t".to_string()).unwrap();
    assert_eq!(schema.table_name, "t");
    assert_eq!(
        schema.column_defs,
        vec![def("z", DataType::Boolean), def("a", DataType::Int), def("m", DataType::Text)]
    );
}

#[test]
fn successive_inserts_get_distinct_keys() {
    let mut store = MemoryStore::new();
    create_t(&mut store);
    insert(&mut store, vec![Value::Int(1), text("a")]).unwrap();
    insert(&mut store, vec![Value::Int(1), text("a")]).unwrap();
    let items = store.scan(&"t".to_string()).unwrap();
    assert_eq!(items.len(), 2);
    assert_ne!(items[0].0, items[1].0);
    assert_eq!(items[0].1, Row(vec![Value::Int(1), text("a")]));
    assert_eq!(items[1].1, Row(vec![Value::Int(1), text("a")]));
}

#[test]
fn gen_id_never_repeats() {
    let mut store = MemoryStore::new();
    let t = "t".to_string();
    let a = store.gen_id(&t).unwrap();
    let b = store.gen_id(&t).unwrap();
    assert_ne!(a, b);
}

#[test]
fn update_counts_matches_and_leaves_others() {
    let mut store = MemoryStore::new();
    create_t(&mut store);
    insert(&mut store, vec![Value::Int(1), text("a")]).unwrap();
    insert(&mut store, vec![Value::Int(2), text("b")]).unwrap();
    insert(&mut store, vec![Value::Int(3), text("c")]).unwrap();
    insert(&mut store, vec![Value::Null, text("d")]).unwrap();
    let stmt = Statement::Update {
        table_name: name("t"),
        assignments: vec![Assignment { id: "name".to_string(), value: Expr::Literal(text("x")) }],
        selection: Some(bin(col("id"), BinaryOperator::GtEq, lit_int(2))),
    };
    assert_eq!(execute(&mut store, &stmt), Ok(Payload::Update(2)));
    assert_eq!(
        select(&mut store, None),
        vec![
            Row(vec![Value::Int(1), text("a")]),
            Row(vec![Value::Int(2), text("x")]),
            Row(vec![Value::Int(3), text("x")]),
            Row(vec![Value::Null, text("d")]),
        ]
    );
}

#[test]
fn update_without_where_touches_every_row() {
    let mut store = MemoryStore::new();
    create_t(&mut store);
    insert(&mut store, vec![Value::Int(1), text("a")]).unwrap();
    insert(&mut store, vec![Value::Int(2), text("b")]).unwrap();
    let stmt = Statement::Update {
        table_name: name("t"),
        assignments: vec![Assignment { id: "id".to_string(), value: bin(col("id"), BinaryOperator::Multiply, lit_int(10)) }],
        selection: None,
    };
    assert_eq!(execute(&mut store, &stmt), Ok(Payload::Update(2)));
    assert_eq!(
        select(&mut store, None),
        vec![Row(vec![Value::Int(10), text("a")]), Row(vec![Value::Int(20), text("b")])]
    );
}

#[test]
fn assignments_read_original_values() {
    let mut store = MemoryStore::new();
    let stmt = Statement::CreateTable {
        name: name("t"),
        columns: vec![def("a", DataType::Int), def("b", DataType::Int)],
    };
    execute(&mut store, &stmt).unwrap();
    insert(&mut store, vec![Value::Int(3), Value::Int(5)]).unwrap();
    let stmt = Statement::Update {
        table_name: name("t"),
        assignments: vec![
            Assignment { id: "a".to_string(), value: bin(col("a"), BinaryOperator::Plus, col("b")) },
            Assignment { id: "b".to_string(), value: bin(col("a"), BinaryOperator::Minus, col("b")) },
        ],
        selection: None,
    };
    assert_eq!(execute(&mut store, &stmt), Ok(Payload::Update(1)));
    assert_eq!(select(&mut store, None), vec![Row(vec![Value::Int(8), Value::Int(-2)])]);
}

#[test]
fn update_of_undeclared_column_touches_nothing() {
    let mut store = MemoryStore::new();
    create_t(&mut store);
    insert(&mut store, vec![Value::Int(1), text("a")]).unwrap();
    let stmt = Statement::Update {
        table_name: name("t"),
        assignments: vec![Assignment { id: "nope".to_string(), value: lit_int(1) }],
        selection: None,
    };
    assert_eq!(execute(&mut store, &stmt), Err(Error::ColumnNotFound));
    assert_eq!(select(&mut store, None), vec![Row(vec![Value::Int(1), text("a")])]);
}

#[test]
fn update_overflow_is_reported() {
    let mut store = MemoryStore::new();
    create_t(&mut store);
    insert(&mut store, vec![Value::Int(i64::MAX), text("a")]).unwrap();
    let stmt = Statement::Update {
        table_name: name("t"),
        assignments: vec![Assignment { id: "id".to_string(), value: bin(col("id"), BinaryOperator::Plus, lit_int(1)) }],
        selection: None,
    };
    assert_eq!(execute(&mut store, &stmt), Err(Error::Overflow));
}

#[test]
fn delete_counts_matches_and_keeps_others() {
    let mut store = MemoryStore::new();
    create_t(&mut store);
    insert(&mut store, vec![Value::Int(1), text("a")]).unwrap();
    insert(&mut store, vec![Value::Int(2), text("b")]).unwrap();
    insert(&mut store, vec![Value::Int(1), text("c")]).unwrap();
    let stmt = Statement::Delete { table_name: name("t"), selection: id_is(1) };
    assert_eq!(execute(&mut store, &stmt), Ok(Payload::Delete(2)));
    assert_eq!(select(&mut store, None), vec![Row(vec![Value::Int(2), text("b")])]);
    let stmt = Statement::Delete { table_name: name("t"), selection: None };
    assert_eq!(execute(&mut store, &stmt), Ok(Payload::Delete(1)));
    assert_eq!(select(&mut store, None), vec![]);
}

#[test]
fn unknown_predicate_matches_nothing() {
    let mut store = MemoryStore::new();
    create_t(&mut store);
    insert(&mut store, vec![Value::Null, text("a")]).unwrap();
    assert_eq!(select(&mut store, id_is(1)), vec![]);
    let not_eq = Some(Expr::Not(Box::new(bin(col("id"), BinaryOperator::Eq, lit_int(1)))));
    assert_eq!(select(&mut store, not_eq), vec![]);
    let is_null = Some(Expr::IsNull(Box::new(col("id"))));
    assert_eq!(select(&mut store, is_null), vec![Row(vec![Value::Null, text("a")])]);
    let or_true = Some(bin(
        bin(col("id"), BinaryOperator::Eq, lit_int(1)),
        BinaryOperator::Or,
        Expr::Literal(Value::Bool(true)),
    ));
    assert_eq!(select(&mut store, or_true).len(), 1);
    let stmt = Statement::Delete { table_name: name("t"), selection: id_is(1) };
    assert_eq!(execute(&mut store, &stmt), Ok(Payload::Delete(0)));
}

#[test]
fn predicate_faults_are_errors() {
    let mut store = MemoryStore::new();
    create_t(&mut store);
    insert(&mut store, vec![Value::Int(1), text("a")]).unwrap();
    let missing = Some(bin(col("nope"), BinaryOperator::Eq, lit_int(1)));
    let r = execute(&mut store, &Statement::Query { table_name: name("t"), selection: missing });
    assert_eq!(r, Err(Error::ColumnNotFound));
    let mismatch = Some(bin(col("name"), BinaryOperator::Lt, lit_int(1)));
    let r = execute(&mut store, &Statement::Delete { table_name: name("t"), selection: mismatch });
    assert_eq!(r, Err(Error::TypeMismatch));
    let not_bool = Some(col("id"));
    let r = execute(&mut store, &Statement::Query { table_name: name("t"), selection: not_bool });
    assert_eq!(r, Err(Error::TypeMismatch));
    assert_eq!(select(&mut store, None).len(), 1);
}

#[test]
fn insert_with_column_list_fills_nulls() {
    let mut store = MemoryStore::new();
    create_t(&mut store);
    let stmt = Statement::Insert { table_name: name("t"), columns: vec!["name".to_string()], values: vec![text("n")] };
    assert_eq!(execute(&mut store, &stmt), Ok(Payload::Insert(Row(vec![Value::Null, text("n")]))));
}

#[test]
fn insert_faults() {
    let mut store = MemoryStore::new();
    create_t(&mut store);
    assert_eq!(insert(&mut store, vec![Value::Int(1)]), Err(Error::ArityMismatch));
    let stmt = Statement::Insert { table_name: name("t"), columns: vec!["nope".to_string()], values: vec![int_value(1)] };
    assert_eq!(execute(&mut store, &stmt), Err(Error::ColumnNotFound));
    let stmt = Statement::Insert { table_name: name("u"), columns: vec![], values: vec![] };
    assert_eq!(execute(&mut store, &stmt), Err(Error::TableNotFound));
    let stmt = Statement::Insert { table_name: ObjectName(vec![]), columns: vec![], values: vec![] };
    assert_eq!(execute(&mut store, &stmt), Err(Error::UnresolvedTableName));
    assert_eq!(select(&mut store, None), vec![]);
}

fn int_value(i: i64) -> Value {
    Value::Int(i)
}

#[test]
fn text_equality_compares_contents() {
    let mut store = MemoryStore::new();
    create_t(&mut store);
    insert(&mut store, vec![Value::Int(1), text("a")]).unwrap();
    insert(&mut store, vec![Value::Int(2), text("b")]).unwrap();
    let sel = Some(bin(col("name"), BinaryOperator::NotEq, Expr::Literal(text("a"))));
    assert_eq!(select(&mut store, sel), vec![Row(vec![Value::Int(2), text("b")])]);
}

#[test]
fn memory_store_rejects_unknown_keys() {
    let mut store = MemoryStore::new();
    assert_eq!(store.del_data(&0), Err(Error::KeyNotFound));
    assert_eq!(store.set_data(&0, Row(vec![])), Err(Error::KeyNotFound));
    assert_eq!(store.del_schema(&"t".to_string()), Err(Error::TableNotFound));
}

#[test]
fn drop_of_no_names_succeeds() {
    let mut store = MemoryStore::new();
    create_t(&mut store);
    let stmt = Statement::Drop { object_type: ObjectType::Table, names: vec![] };
    assert_eq!(execute(&mut store, &stmt), Ok(Payload::DropTable));
    assert!(store.get_schema(&"t".to_string()).is_ok());
}

#[test]
fn drop_with_unresolvable_first_name_touches_nothing() {
    let mut store = MemoryStore::new();
    create_t(&mut store);
    let stmt = Statement::Drop { object_type: ObjectType::Table, names: vec![ObjectName(vec![]), name("t")] };
    assert_eq!(execute(&mut store, &stmt), Err(Error::UnresolvedTableName));
    assert!(store.get_schema(&"t".to_string()).is_ok());
}

#[test]
fn select_rows_keeps_scan_order_and_reports_first_fault() {
    let cols = vec![def("id", DataType::Int), def("name", DataType::Text)];
    let items: Vec<(u8, Row)> = vec![
        (7, Row(vec![Value::Int(2), text("b")])),
        (3, Row(vec![Value::Int(1), text("a")])),
        (5, Row(vec![Value::Int(2), text("c")])),
    ];
    let sel = Some(bin(col("id"), BinaryOperator::Eq, lit_int(2)));
    assert_eq!(
        select_rows(&items, &cols, &sel),
        Ok(vec![Row(vec![Value::Int(2), text("b")]), Row(vec![Value::Int(2), text("c")])])
    );
    let bad = Some(bin(col("name"), BinaryOperator::Plus, lit_int(2)));
    assert_eq!(select_rows(&items, &cols, &bad), Err(Error::TypeMismatch));
    let unknown = Some(bin(col("id"), BinaryOperator::Eq, Expr::Literal(Value::Null)));
    assert_eq!(select_rows(&items, &cols, &unknown), Ok(vec![]));
}

#[test]
fn decide_update_applies_only_to_selected_rows() {
    let cols = vec![def("a", DataType::Int), def("b", DataType::Int)];
    let assignments = vec![
        Assignment { id: "b".to_string(), value: col("a") },
        Assignment { id: "a".to_string(), value: col("b") },
    ];
    let update = Update::new(&assignments, &cols).unwrap();
    let sel = Some(bin(col("a"), BinaryOperator::Lt, lit_int(5)));
    let row = Row(vec![Value::Int(1), Value::Int(9)]);
    assert_eq!(decide_update(&update, &sel, &row), Ok(Some(Row(vec![Value::Int(9), Value::Int(1)]))));
    let other = Row(vec![Value::Int(6), Value::Int(9)]);
    assert_eq!(decide_update(&update, &sel, &other), Ok(None));
    let bad = Some(col("nope"));
    assert_eq!(decide_update(&update, &bad, &row), Err(Error::ColumnNotFound));
}
