pub mod compactor;
pub mod failure;
pub mod layered;
pub mod policy;
pub mod recovery;
pub mod status;
pub mod string_map;
pub mod text;
