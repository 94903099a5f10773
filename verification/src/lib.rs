pub mod text;
pub mod manifest;
pub mod git;
pub mod audit;
pub mod config;
pub mod presets;
pub mod paths;
pub mod suggest;
pub mod concepts;
pub mod coverage;
pub mod concept_graph;
pub mod report;
pub mod ops;
