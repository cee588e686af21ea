pub mod acquisition;
pub mod catalog;
pub mod claim_laws;
pub mod coverage_laws;
pub mod deletion_laws;
pub mod error;
pub mod execution;
pub mod job;
pub mod job_laws;
pub mod job_rows;
pub mod layout;
pub mod lifecycle;
pub mod locator_laws;
pub mod locators;
pub mod lookups;
pub mod messages;
pub mod ownership;
pub mod paths;
pub mod pending;
pub mod profile_laws;
pub mod publish;
pub mod publish_laws;
pub mod reconcile;
pub mod recovery;
pub mod recovery_laws;
pub mod retention;
pub mod rows;
pub mod run_messages;
pub mod runner;
pub mod segment;
pub mod segment_laws;
pub mod serving_laws;
pub mod settling;
pub mod source;
pub mod source_plan;
pub mod source_stream;
pub mod store_jobs;
pub mod writer_laws;
