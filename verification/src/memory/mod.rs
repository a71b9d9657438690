pub mod assets;
pub mod atomic;
pub mod context;
pub mod evidence;
pub mod extract;
pub mod facts;
pub mod json;
pub mod learning;
pub mod pipeline;
pub mod ledger;
pub mod scope;
pub mod supermemory;
pub mod writes;
