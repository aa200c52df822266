//! Values shared by every stage: document locations and variable addresses.

pub mod address;
pub mod doc_loc;
pub mod table;
