//! An axis-oriented data frame: labelled rows and columns over a matrix of
//! cells, with lazy select / remove / append / concat pipelines, aggregates,
//! imputation of missing cells and label-keyed joins.
//!
//! - [`value`]: cells (integers of two widths, text, booleans and the
//!   `Missing` sentinel), the two axes and the error kinds.
//! - [`label`]: row and column labels, their text form and the `_x` rule
//!   that keeps labels apart when frames are put side by side.
//! - [`matrix`]: the cell storage, an ndarray array.
//! - [`frame`]: the frame, index-based views of one line, the base axis
//!   iterator and the assembling of a new frame from lines.
//! - [`transform`]: the select, remove, append and concat adapters, and `map`.
//! - [`join`]: inner and outer joins on row labels, driven from either side.
//! - [`aggregate`]: exact sums, means as exact fractions, maxima and minima.
//! - [`impute`]: in-place filling of missing cells.
//! - [`mutable`]: a read-write frame over borrowed cells and its iterator.
//! - [`laws`]: proved laws relating these operations.
pub mod value;
pub mod label;
pub mod matrix;
pub mod frame;
pub mod transform;
pub mod join;
pub mod aggregate;
pub mod impute;
pub mod laws;
pub mod mutable;
