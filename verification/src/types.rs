//! Plain values that scalars and columns carry.

use vstd::prelude::*;

verus! {

/// A stretch of the query text.
#[derive(Clone, Copy, PartialEq, Eq, Debug, Structural)]
pub struct SourceRange {
    pub start: u32,
    pub end: u32,
}

/// Where in the query text an expression was written, if anywhere.
pub type Span = Option<SourceRange>;

/// The type of a column or of a scalar.
#[derive(PartialEq, Eq, Debug)]
pub enum DataType {
    Boolean,
    /// The type inside, with `NULL` added.
    Nullable(Box<DataType>),
    /// Any other type, by its number in the catalog of types.
    Other(u32),
}

impl Clone for DataType {
    fn clone(&self) -> (r: Self)
        ensures
            r == *self,
        decreases self,
    {
        match self {
            DataType::Boolean => DataType::Boolean,
            DataType::Nullable(inner) => {
                let copy: DataType = (&**inner).clone();
                DataType::Nullable(Box::new(copy))
            },
            DataType::Other(number) => DataType::Other(*number),
        }
    }
}

/// A literal value.
#[derive(Clone, Copy, PartialEq, Eq, Debug, Structural)]
pub enum Scalar {
    Null,
    Boolean(bool),
    Number(i64),
    /// Any other literal, by its number in the pool of literals.
    Other(u32),
}

/// Whether a column can be named by a query.
#[derive(Clone, Copy, PartialEq, Eq, Debug, Structural)]
pub enum Visibility {
    Visible,
    UnqualifiedWildcardInVisible,
    InVisible,
}

/// A copy of a vector of plain values.
pub fn copy_values<T: Copy>(values: &Vec<T>) -> (r: Vec<T>)
    ensures
        r@ == values@,
{
    let mut r: Vec<T> = Vec::with_capacity(values.len());
    let mut i: usize = 0;
    while i < values.len()
        invariant
            i <= values@.len(),
            r@ == values@.take(i as int),
        decreases values.len() - i,
    {
        r.push(values[i]);
        i += 1;
    }
    r
}

} // verus!
