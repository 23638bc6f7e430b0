pub mod archive;
pub mod paths;
pub mod scan;
