pub mod factmap;

pub use factmap::FactMap;
