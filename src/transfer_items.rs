pub mod referencing_traits;
