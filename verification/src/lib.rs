//! In-memory model of OpenStreetMap elements: nodes, ways and relations,
//! with the attribute record they share and the fixed-point encoding of
//! geographic coordinates.

pub mod binary64;
pub mod coordinate;
pub mod element_info;
pub mod node;
pub mod relation;
pub mod rounding;
pub mod tags;
pub mod text;
pub mod timestamp;
pub mod way;

pub use element_info::ElementInfo;
pub use node::Node;
pub use relation::{Relation, RelationMember, RelationMemberType};
pub use tags::{Tag, Tags};
pub use timestamp::Timestamp;
pub use way::Way;
