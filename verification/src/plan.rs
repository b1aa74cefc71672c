//! Logical plan for the one supported query shape,
//! `SELECT COUNT([DISTINCT] column) FROM table`, and a naive in-memory
//! relation with row filtering and column projection.  A projected
//! column's values are what a caller streams into the cardinality
//! estimator to answer `COUNT(DISTINCT column)`.

use vstd::prelude::*;

verus! {

/// A column reference: its name, and whether duplicates are collapsed
/// (`COUNT(DISTINCT column)`).
#[derive(Debug)]
pub struct Column {
    pub name: String,
    pub distinct: bool,
}

impl Clone for Column {
    /// An exact copy: same name, same distinctness.
    fn clone(&self) -> (r: Column)
        ensures
            r == *self,
    {
        Column { name: self.name.clone(), distinct: self.distinct }
    }
}

impl PartialEq for Column {
    fn eq(&self, other: &Column) -> (r: bool) {
        self.name == other.name && self.distinct == other.distinct
    }
}

impl vstd::std_specs::cmp::PartialEqSpecImpl for Column {
    open spec fn obeys_eq_spec() -> bool {
        true
    }

    open spec fn eq_spec(&self, other: &Column) -> bool {
        self.name@ == other.name@ && self.distinct == other.distinct
    }
}

/// The one aggregation the planner understands.
#[derive(Debug, PartialEq, Eq, Structural)]
pub enum Aggregation {
    Count,
}

/// An aggregate applied to a column.
#[derive(Debug)]
pub struct AggregateExpression {
    pub function: Aggregation,
    pub column: Column,
}

impl PartialEq for AggregateExpression {
    fn eq(&self, other: &AggregateExpression) -> (r: bool) {
        self.function == other.function && self.column == other.column
    }
}

impl vstd::std_specs::cmp::PartialEqSpecImpl for AggregateExpression {
    open spec fn obeys_eq_spec() -> bool {
        true
    }

    open spec fn eq_spec(&self, other: &AggregateExpression) -> bool {
        self.function == other.function && self.column.name@ == other.column.name@
            && self.column.distinct == other.column.distinct
    }
}

/// A parsed `SELECT COUNT(...) FROM ...` statement.
#[derive(Debug)]
pub struct SelectStatement {
    pub projection: AggregateExpression,
    pub table: String,
}

impl PartialEq for SelectStatement {
    fn eq(&self, other: &SelectStatement) -> (r: bool) {
        self.projection == other.projection && self.table == other.table
    }
}

impl vstd::std_specs::cmp::PartialEqSpecImpl for SelectStatement {
    open spec fn obeys_eq_spec() -> bool {
        true
    }

    open spec fn eq_spec(&self, other: &SelectStatement) -> bool {
        self.projection.function == other.projection.function
            && self.projection.column.name@ == other.projection.column.name@
            && self.projection.column.distinct == other.projection.column.distinct
            && self.table@ == other.table@
    }
}

/// The (single-node) logical plan: the statement to evaluate.
#[derive(Debug)]
pub struct LogicalPlan {
    pub statement: SelectStatement,
}

impl PartialEq for LogicalPlan {
    fn eq(&self, other: &LogicalPlan) -> (r: bool) {
        self.statement == other.statement
    }
}

impl vstd::std_specs::cmp::PartialEqSpecImpl for LogicalPlan {
    open spec fn obeys_eq_spec() -> bool {
        true
    }

    open spec fn eq_spec(&self, other: &LogicalPlan) -> bool {
        self.statement.projection.function == other.statement.projection.function
            && self.statement.projection.column.name@ == other.statement.projection.column.name@
            && self.statement.projection.column.distinct == other.statement.projection.column.distinct
            && self.statement.table@ == other.statement.table@
    }
}

impl LogicalPlan {
    /// Plans a parsed statement: a count aggregate over the statement's
    /// column, read from the statement's table.
    pub fn new(statement: SelectStatement) -> (r: LogicalPlan)
        ensures
            r.statement.projection.function == Aggregation::Count,
            r.statement.projection.column.name@ == statement.projection.column.name@,
            r.statement.projection.column.distinct == statement.projection.column.distinct,
            r.statement.table@ == statement.table@,
    {
        LogicalPlan {
            statement: SelectStatement {
                projection: AggregateExpression {
                    function: Aggregation::Count,
                    column: Column {
                        name: statement.projection.column.name,
                        distinct: statement.projection.column.distinct,
                    },
                },
                table: statement.table,
            },
        }
    }
}

/// An in-memory relation: a schema and rows of string-valued cells.
#[derive(Debug)]
pub struct Relation {
    pub columns: Vec<Column>,
    pub rows: Vec<Vec<String>>,
}

/// Copies a schema column for column.
fn clone_columns(v: &Vec<Column>) -> (r: Vec<Column>)
    ensures
        r@ == v@,
{
    let mut r: Vec<Column> = Vec::new();
    let mut i: usize = 0;
    while i < v.len()
        invariant
            i <= v.len(),
            r@ =~= v@.take(i as int),
        decreases v.len() - i,
    {
        r.push(v[i].clone());
        i = i + 1;
    }
    proof {
        assert(v@.take(v@.len() as int) =~= v@);
    }
    r
}

/// Copies a row cell for cell.
fn clone_row(v: &Vec<String>) -> (r: Vec<String>)
    ensures
        r@ == v@,
{
    let mut r: Vec<String> = Vec::new();
    let mut i: usize = 0;
    while i < v.len()
        invariant
            i <= v.len(),
            r@ =~= v@.take(i as int),
        decreases v.len() - i,
    {
        r.push(v[i].clone());
        i = i + 1;
    }
    proof {
        assert(v@.take(v@.len() as int) =~= v@);
    }
    r
}

/// The rows of `rows` (each a sequence of cell contents) whose cell at
/// `idx` is `e`, in order.
pub open spec fn spec_matching_rows(rows: Seq<Seq<Seq<char>>>, idx: int, e: Seq<char>) -> Seq<
    Seq<Seq<char>>,
>
    decreases rows.len(),
{
    if rows.len() == 0 {
        Seq::empty()
    } else {
        let rest = spec_matching_rows(rows.drop_last(), idx, e);
        if rows.last()[idx] == e {
            rest.push(rows.last())
        } else {
            rest
        }
    }
}

impl Relation {
    /// Keeps exactly the rows whose cell at `idx` equals `expr`, in their
    /// original order; the schema is kept as it is.  Every row must be
    /// wide enough to have a cell at `idx`.
    pub fn select(&self, idx: usize, expr: &str) -> (r: Relation)
        requires
            forall|i: int| 0 <= i < self.rows@.len() ==> idx < (#[trigger] self.rows@[i])@.len(),
        ensures
            r.columns@ == self.columns@,
            r.rows.deep_view() == spec_matching_rows(self.rows.deep_view(), idx as int, expr@),
    {
        let needle: String = expr.to_owned();
        let mut result: Vec<Vec<String>> = Vec::new();
        let mut i: usize = 0;
        while i < self.rows.len()
            invariant
                i <= self.rows@.len(),
                forall|k: int|
                    0 <= k < self.rows@.len() ==> idx < (#[trigger] self.rows@[k])@.len(),
                needle@ == expr@,
                result.deep_view() == spec_matching_rows(
                    self.rows.deep_view().take(i as int),
                    idx as int,
                    expr@,
                ),
            decreases self.rows@.len() - i,
        {
            let ghost taken = self.rows.deep_view().take(i as int + 1);
            proof {
                assert(taken.drop_last() =~= self.rows.deep_view().take(i as int));
                assert(taken.last() =~= self.rows@[i as int].deep_view());
            }
            let row = &self.rows[i];
            if row[idx] == needle {
                let copied = clone_row(row);
                proof {
                    assert(copied.deep_view() =~= self.rows@[i as int].deep_view());
                }
                result.push(copied);
                proof {
                    assert(result.deep_view() =~= spec_matching_rows(taken, idx as int, expr@));
                }
            } else {
                proof {
                    assert(result.deep_view() =~= spec_matching_rows(taken, idx as int, expr@));
                }
            }
            i = i + 1;
        }
        proof {
            assert(self.rows.deep_view().take(self.rows@.len() as int) =~= self.rows.deep_view());
        }
        Relation { columns: clone_columns(&self.columns), rows: result }
    }

    /// Projects each row onto the cells named by `columns`, in that
    /// order.  The schema is deliberately kept as it is, so the caller
    /// pairs the result with the indices it projected.  Every requested
    /// index must fall inside every row.
    pub fn projection(&self, columns: &[usize]) -> (r: Relation)
        requires
            forall|i: int, j: int|
                0 <= i < self.rows@.len() && 0 <= j < columns@.len() ==> (
                #[trigger] columns@[j]) < (#[trigger] self.rows@[i])@.len(),
        ensures
            r.columns@ == self.columns@,
            r.rows@.len() == self.rows@.len(),
            forall|i: int|
                0 <= i < self.rows@.len() ==> (#[trigger] r.rows@[i])@ == Seq::new(
                    columns@.len(),
                    |j: int| self.rows@[i]@[columns@[j] as int],
                ),
    {
        let mut result: Vec<Vec<String>> = Vec::new();
        let mut i: usize = 0;
        while i < self.rows.len()
            invariant
                i <= self.rows@.len(),
                result@.len() == i,
                forall|k: int, j: int|
                    0 <= k < self.rows@.len() && 0 <= j < columns@.len() ==> (
                    #[trigger] columns@[j]) < (#[trigger] self.rows@[k])@.len(),
                forall|k: int|
                    0 <= k < i ==> (#[trigger] result@[k])@ == Seq::new(
                        columns@.len(),
                        |j: int| self.rows@[k]@[columns@[j] as int],
                    ),
            decreases self.rows@.len() - i,
        {
            let row = &self.rows[i];
            let mut picked: Vec<String> = Vec::new();
            let mut j: usize = 0;
            while j < columns.len()
                invariant
                    j <= columns@.len(),
                    picked@.len() == j,
                    forall|jj: int|
                        0 <= jj < columns@.len() ==> (#[trigger] columns@[jj]) < row@.len(),
                    forall|jj: int|
                        0 <= jj < j ==> (#[trigger] picked@[jj]) == row@[columns@[jj] as int],
                decreases columns@.len() - j,
            {
                picked.push(row[columns[j]].clone());
                j = j + 1;
            }
            proof {
                assert(picked@ =~= Seq::new(
                    columns@.len(),
                    |jj: int| self.rows@[i as int]@[columns@[jj] as int],
                ));
            }
            result.push(picked);
            i = i + 1;
        }
        Relation { columns: clone_columns(&self.columns), rows: result }
    }
}

} // verus!
