pub mod data_collection;
