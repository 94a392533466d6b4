use vstd::prelude::*;

use crate::error::Error;

verus! {

/// A typed SQL value; `Null` stands for a missing value.
#[derive(Debug, PartialEq)]
pub enum Value {
    Null,
    Bool(bool),
    Int(i64),
    Text(String),
}

/// The declared type of a column.
#[derive(Debug, Clone, Copy, PartialEq, Eq, Structural)]
pub enum DataType {
    Boolean,
    Int,
    Text,
}

#[derive(Debug, PartialEq)]
pub struct ColumnDef {
    pub name: String,
    pub data_type: DataType,
}

/// A table's name and its columns, in declaration order.
#[derive(Debug, PartialEq)]
pub struct Schema {
    pub table_name: String,
    pub column_defs: Vec<ColumnDef>,
}

/// One tuple of values, positionally aligned with a schema's columns.
#[derive(Debug, PartialEq)]
pub struct Row(pub Vec<Value>);

/// A possibly qualified object name such as `db.t`, one part per identifier.
#[derive(Debug, PartialEq)]
pub struct ObjectName(pub Vec<String>);

/// What storage keeps of a schema.
pub ghost struct SchemaView {
    pub table_name: Seq<char>,
    pub column_defs: Seq<ColumnDef>,
}

impl Schema {
    pub open spec fn view(&self) -> SchemaView {
        SchemaView { table_name: self.table_name@, column_defs: self.column_defs@ }
    }
}

impl View for Row {
    type V = Seq<Value>;

    open spec fn view(&self) -> Seq<Value> {
        self.0@
    }
}

pub open spec fn names_of(cols: Seq<ColumnDef>) -> Seq<Seq<char>> {
    cols.map_values(|c: ColumnDef| c.name@)
}

pub open spec fn strings_of(v: Seq<String>) -> Seq<Seq<char>> {
    v.map_values(|s: String| s@)
}

/// The first position among the first `n` names that holds `name`.
pub open spec fn find_in(names: Seq<Seq<char>>, name: Seq<char>, n: int) -> Option<int>
    decreases n,
{
    if n <= 0 {
        None
    } else {
        match find_in(names, name, n - 1) {
            Some(i) => Some(i),
            None => if names[n - 1] == name { Some(n - 1) } else { None },
        }
    }
}

/// The first position of `name` in `names`.
pub open spec fn find_name(names: Seq<Seq<char>>, name: Seq<char>) -> Option<int> {
    find_in(names, name, names.len() as int)
}

pub proof fn lemma_find_in(names: Seq<Seq<char>>, name: Seq<char>, n: int)
    requires
        0 <= n <= names.len(),
    ensures
        find_in(names, name, n) matches Some(i) ==> 0 <= i < n && names[i] == name,
        find_in(names, name, n) is None <==> (forall|j: int| 0 <= j < n ==> names[j] != name),
    decreases n,
{
    if n > 0 {
        lemma_find_in(names, name, n - 1);
    }
}

pub proof fn lemma_find_in_stable(names: Seq<Seq<char>>, name: Seq<char>, n: int, m: int)
    requires
        0 <= n <= m,
        find_in(names, name, n) is Some,
    ensures
        find_in(names, name, m) == find_in(names, name, n),
    decreases m - n,
{
    if m > n {
        lemma_find_in_stable(names, name, n, m - 1);
    }
}

/// The table that a name designates: its last part.
pub open spec fn table_name_of(name: Seq<String>) -> Result<Seq<char>, Error> {
    if name.len() == 0 {
        Err(Error::UnresolvedTableName)
    } else {
        Ok(name.last()@)
    }
}

/// Resolves a possibly qualified name to the table identifier it ends in.
pub fn get_table_name(name: &ObjectName) -> (r: Result<&String, Error>)
    ensures
        r matches Ok(s) ==> table_name_of(name.0@) == Ok::<Seq<char>, Error>(s@),
        r matches Err(e) ==> table_name_of(name.0@) == Err::<Seq<char>, Error>(e),
{
    let n = name.0.len();
    if n == 0 {
        Err(Error::UnresolvedTableName)
    } else {
        Ok(&name.0[n - 1])
    }
}

pub fn copy_value(v: &Value) -> (r: Value)
    ensures
        r == *v,
{
    match v {
        Value::Null => Value::Null,
        Value::Bool(b) => Value::Bool(*b),
        Value::Int(i) => Value::Int(*i),
        Value::Text(s) => Value::Text(s.clone()),
    }
}

pub fn copy_values(v: &Vec<Value>) -> (r: Vec<Value>)
    ensures
        r@ == v@,
{
    let mut r: Vec<Value> = Vec::new();
    let mut i: usize = 0;
    while i < v.len()
        invariant
            i <= v.len(),
            r@ == v@.subrange(0, i as int),
        decreases v.len() - i,
    {
        r.push(copy_value(&v[i]));
        i += 1;
    }
    assert(r@ =~= v@);
    r
}

pub fn copy_column_def(c: &ColumnDef) -> (r: ColumnDef)
    ensures
        r == *c,
{
    ColumnDef { name: c.name.clone(), data_type: c.data_type }
}

pub fn copy_column_defs(v: &Vec<ColumnDef>) -> (r: Vec<ColumnDef>)
    ensures
        r@ == v@,
{
    let mut r: Vec<ColumnDef> = Vec::new();
    let mut i: usize = 0;
    while i < v.len()
        invariant
            i <= v.len(),
            r@ == v@.subrange(0, i as int),
        decreases v.len() - i,
    {
        r.push(copy_column_def(&v[i]));
        i += 1;
    }
    assert(r@ =~= v@);
    r
}

pub fn copy_schema(s: &Schema) -> (r: Schema)
    ensures
        r@ == s@,
{
    Schema { table_name: s.table_name.clone(), column_defs: copy_column_defs(&s.column_defs) }
}

/// Position of the column called `name`, if the table declares one.
pub fn find_column(cols: &Vec<ColumnDef>, name: &String) -> (r: Option<usize>)
    ensures
        r matches Some(i) ==> find_name(names_of(cols@), name@) == Some(i as int),
        r is None ==> find_name(names_of(cols@), name@) is None,
{
    let ghost names = names_of(cols@);
    let mut i: usize = 0;
    while i < cols.len()
        invariant
            i <= cols.len(),
            names == names_of(cols@),
            find_in(names, name@, i as int) is None,
        decreases cols.len() - i,
    {
        if cols[i].name == *name {
            proof {
                lemma_find_in_stable(names, name@, i + 1, names.len() as int);
            }
            return Some(i);
        }
        i += 1;
    }
    None
}

} // verus!
