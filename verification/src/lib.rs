pub mod buffer;
pub mod data;
pub mod layout;
pub mod lemmas;
pub mod mode;
pub mod version;
