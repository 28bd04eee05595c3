//! A parser for boolean circuits in Bristol format.
//!
//! The text of a circuit holds a header of three lines and one line for
//! each gate. Blank lines may stand anywhere and are skipped. The first
//! header line gives the number of gates and the number of wires; the
//! second and the third give the number of input and of output ports,
//! each followed by the width of every port. A gate line gives the
//! number of inputs, the number of outputs, the wires, and last the tag
//! of the operation, as in `2 1 0 1 4 AND`.
//!
//! [`circuit::Circuit::parse`] reads a whole text. What it returns is
//! stated by [`circuit::circuit_of`], a function of the characters of
//! the text alone.

pub mod circuit;
pub mod error;
pub mod gate;
pub mod header;
pub mod lines;
pub mod number;
pub mod search;
pub mod text;
pub mod tokens;

pub use crate::circuit::Circuit;
pub use crate::error::{ErrorKind, LineError, ParseError};
pub use crate::gate::Gate;
pub use crate::header::Header;
