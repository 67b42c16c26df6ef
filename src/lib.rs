pub mod text;
pub mod genotype;
pub mod batch;
pub mod report;
pub mod stats;
pub mod util;
