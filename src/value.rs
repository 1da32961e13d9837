//! Cell values, axis labels and the two axes of a frame.
use vstd::prelude::*;

verus! {

/// Which dimension of a frame is walked as the primary sequence.
#[derive(Debug, Clone, Copy, PartialEq, Eq, Structural)]
pub enum Axis {
    Row,
    Column,
}

/// One cell of a frame. `Missing` is the single missing-data sentinel.
#[derive(Debug, Clone, PartialEq)]
pub enum Value {
    Int32(i32),
    Int64(i64),
    Text(String),
    Boolean(bool),
    Missing,
}

/// The mathematical content of a [`Value`].
pub ghost enum ValueView {
    Int32(i32),
    Int64(i64),
    Text(Seq<char>),
    Boolean(bool),
    Missing,
}

impl View for Value {
    type V = ValueView;

    open spec fn view(&self) -> ValueView {
        match self {
            Value::Int32(x) => ValueView::Int32(*x),
            Value::Int64(x) => ValueView::Int64(*x),
            Value::Text(s) => ValueView::Text(s@),
            Value::Boolean(b) => ValueView::Boolean(*b),
            Value::Missing => ValueView::Missing,
        }
    }
}

/// The number a value stands for, if it is numeric (integers of either width).
pub open spec fn num_of(v: ValueView) -> Option<int> {
    match v {
        ValueView::Int32(x) => Some(x as int),
        ValueView::Int64(x) => Some(x as int),
        _ => None,
    }
}

/// Equality of cell values: numeric values compare by the number they stand for,
/// text and booleans by content, and `Missing` equals nothing, itself included.
pub open spec fn value_eq(a: ValueView, b: ValueView) -> bool {
    match (a, b) {
        (ValueView::Text(x), ValueView::Text(y)) => x == y,
        (ValueView::Boolean(x), ValueView::Boolean(y)) => x == y,
        _ => num_of(a) is Some && num_of(b) is Some && num_of(a) == num_of(b),
    }
}

impl Value {
    /// A copy of this value.
    pub fn copied(&self) -> (r: Value)
        ensures
            r@ == self@,
    {
        match self {
            Value::Int32(x) => Value::Int32(*x),
            Value::Int64(x) => Value::Int64(*x),
            Value::Text(s) => Value::Text(s.clone()),
            Value::Boolean(b) => Value::Boolean(*b),
            Value::Missing => Value::Missing,
        }
    }

    pub fn is_missing(&self) -> (r: bool)
        ensures
            r == (self@ is Missing),
    {
        match self {
            Value::Missing => true,
            _ => false,
        }
    }

    /// The number this value stands for, widened, if it is numeric.
    pub fn as_number(&self) -> (r: Option<i64>)
        ensures
            r matches Some(x) ==> num_of(self@) == Some(x as int),
            r is None ==> num_of(self@) is None,
    {
        match self {
            Value::Int32(x) => Some(*x as i64),
            Value::Int64(x) => Some(*x),
            _ => None,
        }
    }

    /// Cross-variant equality; `Missing` equals nothing.
    pub fn equals(&self, other: &Value) -> (r: bool)
        ensures
            r == value_eq(self@, other@),
    {
        match (self, other) {
            (Value::Text(x), Value::Text(y)) => *x == *y,
            (Value::Boolean(x), Value::Boolean(y)) => *x == *y,
            _ => match (self.as_number(), other.as_number()) {
                (Some(x), Some(y)) => x == y,
                _ => false,
            },
        }
    }
}

/// Why a frame could not be built.
#[derive(Debug, Clone, Copy, PartialEq, Eq, Structural)]
pub enum FrameError {
    /// The number of column labels (`found`) differs from the matrix's column count.
    ColumnShapeMismatch { expected: usize, found: usize },
    /// The number of row labels (`found`) differs from the matrix's row count.
    IndexShapeMismatch { expected: usize, found: usize },
    /// The requested shape is larger than the matrix storage can address.
    ShapeOverflow,
}

} // verus!
