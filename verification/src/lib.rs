//! A growable, append-only sequence stored as a list of chunks, each with
//! twice the capacity of the one before it. Appending never moves an element
//! that is already stored, and the length is computed from the number of
//! chunks instead of by walking them.

pub mod chunkvec;
pub mod growth;
pub mod iter;
pub mod layout;
