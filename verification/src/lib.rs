//! Reading of VOTable documents: the field schema, the binary row stream and
//! the document tree, with the query side of Simple Image Access.

pub mod data;
pub mod laws;
pub mod nesting;
pub mod error;
pub mod parse;
pub mod payload;
pub mod row;
pub mod schema;
pub mod sia;
pub mod text;
pub mod token;
pub mod tree;
pub mod walk;
pub mod wire;

pub use data::{Cell, Data, OwnedRow};
pub use error::Error;
pub use parse::parse;
pub use row::Row;
pub use schema::{
    ArraySize, DataType, Description, Field, Nullable, NullableDataValue, Precision, Values, XType,
};
pub use sia::{Format, Intersect, SIARecord, SIAResults, SiaQuery, SiaService, Verbosity};
pub use token::{Attribute, Events, Token};
pub use tree::{Info, Resource, Table, VOTable};
