pub mod batch;
pub mod funding;
pub mod hash;
pub mod journal;
pub mod markets;
pub mod matching;
pub mod oracle;
pub mod tree;
pub mod updates;
