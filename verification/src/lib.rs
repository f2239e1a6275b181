//! A verified decoder for the Bond Compact Binary protocol, version 2: a
//! self-describing, tag-driven binary format for structured records. The
//! decoder walks a byte stream by its embedded type tags and materializes
//! one owned value tree, or reports the first inconsistency it meets.

pub mod decode;
pub mod stream;
pub mod types;

pub use types::BondType;
pub use types::BondValue;
pub use types::Guid;
pub use types::MadeleineError;
