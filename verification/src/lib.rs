//! Reading and writing of the BIN1 binary resource format.
pub mod bytes;
pub mod de;
pub mod ser;
pub mod primitives;
pub mod types;
pub mod layout;
pub mod typegen;
pub mod roundtrip;
