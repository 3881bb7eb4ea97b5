//! A structured configuration language modelled as an in-memory tree.
//!
//! A document is a [`Body`]: an ordered sequence of attributes and nested,
//! possibly labelled blocks.  The crate converts such a tree into a
//! canonical JSON-compatible [`Value`] with fixed merge and flattening
//! rules ([`Body::into_value`]), and renders the original tree back to
//! deterministic text ([`to_string`], [`to_vec`], [`to_writer`]).

pub mod merge;
pub mod number;
pub mod ser;
pub mod structure;
pub mod value;

pub use merge::NodeView;
pub use number::Number;
pub use number::NumberView;
pub use ser::Error;
pub use ser::Formatter;
pub use ser::SerState;
pub use ser::Serializer;
pub use ser::to_string;
pub use ser::to_vec;
pub use ser::to_writer;
pub use structure::Attribute;
pub use structure::AttributeView;
pub use structure::Block;
pub use structure::BlockBuilder;
pub use structure::BlockLabel;
pub use structure::BlockView;
pub use structure::Body;
pub use structure::BodyBuilder;
pub use structure::LabelView;
pub use structure::Structure;
pub use structure::StructureView;
pub use value::ObjectMap;
pub use value::Value;
pub use value::ValueView;
