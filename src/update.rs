use vstd::prelude::*;

use crate::data::{copy_values, find_column, find_name, names_of, ColumnDef, Row, Value};
use crate::error::Error;
use crate::expr::{eval, evaluate, Expr};

verus! {

/// `id = value` in the SET list of an UPDATE.
#[derive(Debug, PartialEq)]
pub struct Assignment {
    pub id: String,
    pub value: Expr,
}

/// The row that the first `n` assignments make of `orig`. Every expression
/// is evaluated against `orig`, never against what an earlier assignment wrote.
pub open spec fn assign_prefix(asg: Seq<Assignment>, cols: Seq<ColumnDef>, orig: Seq<Value>, n: int) -> Result<Seq<Value>, Error>
    decreases n,
{
    if n <= 0 {
        Ok(orig)
    } else {
        match assign_prefix(asg, cols, orig, n - 1) {
            Err(x) => Err(x),
            Ok(cur) => match eval(asg[n - 1].value, cols, orig) {
                Err(x) => Err(x),
                Ok(v) => match find_name(names_of(cols), asg[n - 1].id@) {
                    Some(i) => if i < cur.len() { Ok(cur.update(i, v)) } else { Err(Error::ArityMismatch) },
                    None => Err(Error::ColumnNotFound),
                },
            },
        }
    }
}

/// The row that all assignments make of `orig`.
pub open spec fn assign_all(asg: Seq<Assignment>, cols: Seq<ColumnDef>, orig: Seq<Value>) -> Result<Seq<Value>, Error> {
    assign_prefix(asg, cols, orig, asg.len() as int)
}

/// Once an assignment fails, the whole list fails with the same error.
pub proof fn lemma_assign_error_stays(asg: Seq<Assignment>, cols: Seq<ColumnDef>, orig: Seq<Value>, n: int, m: int)
    requires
        0 <= n <= m,
        assign_prefix(asg, cols, orig, n) is Err,
    ensures
        assign_prefix(asg, cols, orig, m) == assign_prefix(asg, cols, orig, n),
    decreases m - n,
{
    if m > n {
        lemma_assign_error_stays(asg, cols, orig, n, m - 1);
    }
}

/// Whether every assignment targets a declared column.
pub open spec fn targets_declared(asg: Seq<Assignment>, cols: Seq<ColumnDef>) -> bool {
    forall|i: int| 0 <= i < asg.len() ==> (#[trigger] find_name(names_of(cols), asg[i].id@)) is Some
}

/// The SET list of an UPDATE, checked against the table's columns.
pub struct Update<'a> {
    pub assignments: &'a Vec<Assignment>,
    pub columns: &'a Vec<ColumnDef>,
    pub targets: Vec<usize>,
}

impl<'a> Update<'a> {
    pub open spec fn wf(&self) -> bool {
        &&& self.targets.len() == self.assignments.len()
        &&& forall|i: int| 0 <= i < self.targets.len() ==>
            find_name(names_of(self.columns@), #[trigger] self.assignments@[i].id@) == Some(self.targets@[i] as int)
    }

    /// Resolves each assignment's column; fails if one is not declared.
    pub fn new(assignments: &'a Vec<Assignment>, columns: &'a Vec<ColumnDef>) -> (r: Result<Update<'a>, Error>)
        ensures
            r is Ok <==> targets_declared(assignments@, columns@),
            r matches Ok(u) ==> u.wf() && u.assignments == assignments && u.columns == columns,
            r matches Err(e) ==> e == Error::ColumnNotFound,
    {
        let mut targets: Vec<usize> = Vec::new();
        let mut i: usize = 0;
        while i < assignments.len()
            invariant
                i <= assignments.len(),
                targets.len() == i,
                forall|j: int| 0 <= j < i ==>
                    find_name(names_of(columns@), #[trigger] assignments@[j].id@) == Some(targets@[j] as int),
            decreases assignments.len() - i,
        {
            match find_column(columns, &assignments[i].id) {
                Some(t) => targets.push(t),
                None => {
                    assert(find_name(names_of(columns@), assignments@[i as int].id@) is None);
                    return Err(Error::ColumnNotFound);
                },
            }
            i += 1;
        }
        Ok(Update { assignments, columns, targets })
    }

    /// The row that the assignments make of `row`; columns that no
    /// assignment names keep their values.
    pub fn apply(&self, row: &Row) -> (r: Result<Row, Error>)
        requires
            self.wf(),
        ensures
            r matches Ok(x) ==> assign_all(self.assignments@, self.columns@, row@) == Ok::<Seq<Value>, Error>(x@),
            r matches Err(e) ==> assign_all(self.assignments@, self.columns@, row@) == Err::<Seq<Value>, Error>(e),
    {
        let mut cur = copy_values(&row.0);
        let mut i: usize = 0;
        while i < self.assignments.len()
            invariant
                self.wf(),
                i <= self.assignments.len(),
                assign_prefix(self.assignments@, self.columns@, row@, i as int) == Ok::<Seq<Value>, Error>(cur@),
            decreases self.assignments.len() - i,
        {
            let ghost n = self.assignments.len() as int;
            let v = match evaluate(&self.assignments[i].value, self.columns, &row.0) {
                Ok(v) => v,
                Err(e) => {
                    proof {
                        lemma_assign_error_stays(self.assignments@, self.columns@, row@, i + 1, n);
                    }
                    return Err(e);
                },
            };
            let t = self.targets[i];
            assert(find_name(names_of(self.columns@), self.assignments@[i as int].id@) == Some(t as int));
            if t >= cur.len() {
                proof {
                    lemma_assign_error_stays(self.assignments@, self.columns@, row@, i + 1, n);
                }
                return Err(Error::ArityMismatch);
            }
            cur.set(t, v);
            i += 1;
        }
        Ok(Row(cur))
    }
}

/// Two assignments to distinct columns both read the original row: the
/// first column receives what its expression gives on the original row, and
/// so does the second, whichever of the two is listed first.
pub proof fn lemma_assignments_read_original_row(
    first: Assignment,
    second: Assignment,
    cols: Seq<ColumnDef>,
    row: Seq<Value>,
)
    requires
        row.len() == cols.len(),
        find_name(names_of(cols), first.id@) is Some,
        find_name(names_of(cols), second.id@) is Some,
        find_name(names_of(cols), first.id@) != find_name(names_of(cols), second.id@),
        eval(first.value, cols, row) is Ok,
        eval(second.value, cols, row) is Ok,
    ensures
        ({
            let a = find_name(names_of(cols), first.id@)->Some_0;
            let b = find_name(names_of(cols), second.id@)->Some_0;
            let fa = eval(first.value, cols, row)->Ok_0;
            let gb = eval(second.value, cols, row)->Ok_0;
            &&& assign_all(seq![first, second], cols, row) == Ok::<Seq<Value>, Error>(row.update(a, fa).update(b, gb))
            &&& assign_all(seq![second, first], cols, row) == assign_all(seq![first, second], cols, row)
        }),
{
    let a = find_name(names_of(cols), first.id@)->Some_0;
    let b = find_name(names_of(cols), second.id@)->Some_0;
    crate::data::lemma_find_in(names_of(cols), first.id@, cols.len() as int);
    crate::data::lemma_find_in(names_of(cols), second.id@, cols.len() as int);
    let fa = eval(first.value, cols, row)->Ok_0;
    let gb = eval(second.value, cols, row)->Ok_0;
    reveal_with_fuel(assign_prefix, 3);
    let s1 = seq![first, second];
    let s2 = seq![second, first];
    assert(s1[0] == first && s1[1] == second);
    assert(s2[0] == second && s2[1] == first);
    assert(assign_prefix(s1, cols, row, 1) == Ok::<Seq<Value>, Error>(row.update(a, fa)));
    assert(assign_prefix(s2, cols, row, 1) == Ok::<Seq<Value>, Error>(row.update(b, gb)));
    assert(row.update(a, fa).update(b, gb) =~= row.update(b, gb).update(a, fa));
}

} // verus!
