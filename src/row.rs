use vstd::prelude::*;

use crate::data::{copy_value, find_column, find_in, find_name, lemma_find_in, lemma_find_in_stable, names_of, strings_of, ColumnDef, Row, Value};
use crate::error::Error;

verus! {

/// The row that an INSERT of `values` into `columns` makes for a table with
/// columns `defs`. An empty column list means every column, in declaration
/// order; otherwise each listed column takes its value and the others are null.
pub open spec fn build_row(defs: Seq<ColumnDef>, columns: Seq<String>, values: Seq<Value>) -> Result<Seq<Value>, Error> {
    if columns.len() == 0 {
        if values.len() == defs.len() {
            Ok(values)
        } else {
            Err(Error::ArityMismatch)
        }
    } else if columns.len() != values.len() {
        Err(Error::ArityMismatch)
    } else if exists|j: int| 0 <= j < columns.len() && (#[trigger] find_name(names_of(defs), columns[j]@)) is None {
        Err(Error::ColumnNotFound)
    } else {
        Ok(Seq::new(defs.len(), |i: int|
            match find_name(strings_of(columns), defs[i].name@) {
                Some(j) => values[j],
                None => Value::Null,
            }))
    }
}

/// Position of `name` in `v`, if it is there.
fn find_string(v: &Vec<String>, name: &String) -> (r: Option<usize>)
    ensures
        r matches Some(i) ==> find_name(strings_of(v@), name@) == Some(i as int),
        r is None ==> find_name(strings_of(v@), name@) is None,
{
    let ghost names = strings_of(v@);
    let mut i: usize = 0;
    while i < v.len()
        invariant
            i <= v.len(),
            names == strings_of(v@),
            find_in(names, name@, i as int) is None,
        decreases v.len() - i,
    {
        if v[i] == *name {
            proof {
                lemma_find_in_stable(names, name@, i + 1, names.len() as int);
            }
            return Some(i);
        }
        i += 1;
    }
    None
}

impl Row {
    /// Builds the row that an INSERT stores, checked against the table's columns.
    pub fn new(defs: &Vec<ColumnDef>, columns: &Vec<String>, values: &Vec<Value>) -> (r: Result<Row, Error>)
        ensures
            r matches Ok(x) ==> build_row(defs@, columns@, values@) == Ok::<Seq<Value>, Error>(x@),
            r matches Err(e) ==> build_row(defs@, columns@, values@) == Err::<Seq<Value>, Error>(e),
    {
        if columns.len() == 0 {
            if values.len() != defs.len() {
                return Err(Error::ArityMismatch);
            }
            let mut out: Vec<Value> = Vec::new();
            let mut i: usize = 0;
            while i < values.len()
                invariant
                    i <= values.len(),
                    out@ == values@.subrange(0, i as int),
                decreases values.len() - i,
            {
                out.push(copy_value(&values[i]));
                i += 1;
            }
            assert(out@ =~= values@);
            return Ok(Row(out));
        }
        if columns.len() != values.len() {
            return Err(Error::ArityMismatch);
        }
        let mut j: usize = 0;
        while j < columns.len()
            invariant
                j <= columns.len(),
                columns.len() > 0,
                columns.len() == values.len(),
                forall|k: int| 0 <= k < j ==> (#[trigger] find_name(names_of(defs@), columns@[k]@)) is Some,
            decreases columns.len() - j,
        {
            if find_column(defs, &columns[j]).is_none() {
                assert(find_name(names_of(defs@), columns@[j as int]@) is None);
                return Err(Error::ColumnNotFound);
            }
            j += 1;
        }
        let ghost target = build_row(defs@, columns@, values@);
        assert(target is Ok);
        let mut out: Vec<Value> = Vec::new();
        let mut i: usize = 0;
        while i < defs.len()
            invariant
                i <= defs.len(),
                columns.len() == values.len(),
                target is Ok,
                target == build_row(defs@, columns@, values@),
                target->Ok_0.len() == defs.len(),
                out@ == target->Ok_0.subrange(0, i as int),
            decreases defs.len() - i,
        {
            match find_string(columns, &defs[i].name) {
                Some(k) => {
                    proof {
                        lemma_find_in(strings_of(columns@), defs@[i as int].name@, columns.len() as int);
                    }
                    out.push(copy_value(&values[k]));
                },
                None => out.push(Value::Null),
            }
            i += 1;
        }
        assert(out@ =~= target->Ok_0);
        Ok(Row(out))
    }
}

} // verus!
