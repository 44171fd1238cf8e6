pub mod doc;
pub mod layout;
pub mod laws;
