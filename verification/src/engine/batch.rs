use vstd::prelude::*;
use crate::engine::schema::{DataType, FieldView, Schema};

verus! {

/// One value of a column. A floating column holds a floating value by its
/// IEEE 754 bit pattern, or an integer, signed or unsigned, that is yet to be
/// widened to the floating value nearest to it.
#[derive(Debug, PartialEq, Eq)]
pub enum Cell {
    Null,
    Int64(i64),
    Float64(u64),
    Float64FromInt(i64),
    Float64FromUnsigned(u64),
    Utf8(String),
    Boolean(bool),
}

/// What a cell is, as contracts see it.
pub enum CellView {
    Null,
    Int64(i64),
    Float64(u64),
    Float64FromInt(i64),
    Float64FromUnsigned(u64),
    Utf8(Seq<char>),
    Boolean(bool),
}

impl View for Cell {
    type V = CellView;

    open spec fn view(&self) -> CellView {
        match *self {
            Cell::Null => CellView::Null,
            Cell::Int64(i) => CellView::Int64(i),
            Cell::Float64(bits) => CellView::Float64(bits),
            Cell::Float64FromInt(i) => CellView::Float64FromInt(i),
            Cell::Float64FromUnsigned(u) => CellView::Float64FromUnsigned(u),
            Cell::Utf8(s) => CellView::Utf8(s@),
            Cell::Boolean(b) => CellView::Boolean(b),
        }
    }
}

/// Whether a cell may stand in a column of the given type: a null may stand in
/// any, every other cell only in the column of its own type.
pub open spec fn conforms(cell: CellView, data_type: DataType) -> bool {
    match cell {
        CellView::Null => true,
        CellView::Int64(_) => data_type == DataType::Int64,
        CellView::Float64(_) | CellView::Float64FromInt(_) | CellView::Float64FromUnsigned(_) => {
            data_type == DataType::Float64
        },
        CellView::Utf8(_) => data_type == DataType::Utf8,
        CellView::Boolean(_) => data_type == DataType::Boolean,
    }
}

/// The cells of a list of columns, as contracts see them.
pub open spec fn column_views(columns: Seq<Vec<Cell>>) -> Seq<Seq<CellView>> {
    Seq::new(columns.len(), |c: int| Seq::new(columns[c]@.len(), |r: int| columns[c]@[r]@))
}

/// A group of rows held column by column.
#[derive(Debug, PartialEq, Eq)]
pub struct Batch {
    pub schema: Schema,
    pub columns: Vec<Vec<Cell>>,
    pub rows: usize,
}

impl Batch {
    /// The columns of the batch, as contracts see them.
    pub open spec fn cells(&self) -> Seq<Seq<CellView>> {
        column_views(self.columns@)
    }

    /// The batch has one column for each field of its schema, every column has
    /// one cell for each row, and every cell conforms to the type of its
    /// field.
    pub open spec fn well_formed(&self) -> bool {
        &&& self.cells().len() == self.schema@.len()
        &&& forall|c: int|
            0 <= c < self.cells().len() ==> (#[trigger] self.cells()[c]).len() == self.rows
        &&& forall|c: int, r: int|
            0 <= c < self.cells().len() && 0 <= r < self.rows ==> conforms(
                #[trigger] self.cells()[c][r],
                self.schema@[c].data_type,
            )
    }

    pub fn schema(&self) -> (s: &Schema)
        ensures
            *s == self.schema,
    {
        &self.schema
    }

    pub fn num_columns(&self) -> (n: usize)
        ensures
            n == self.cells().len(),
    {
        self.columns.len()
    }

    pub fn num_rows(&self) -> (n: usize)
        ensures
            n == self.rows,
    {
        self.rows
    }

    pub fn column(&self, i: usize) -> (col: &Vec<Cell>)
        requires
            i < self.cells().len(),
        ensures
            *col == self.columns@[i as int],
    {
        &self.columns[i]
    }
}

} // verus!
