pub mod types;
pub mod stemmers;
pub mod tally;
pub mod rankers;
pub mod ingest;
pub mod search;
