//! Reproducible compatibility baselines for representative projects: the
//! candidate a baseline binds, the evidence captured from Salesforce, and the
//! measurements a local run reports.

pub mod manifest;
pub mod runner;
pub mod salesforce;

pub use manifest::{CandidateIdentity, EnterpriseInput, ENTERPRISE_SCHEMA_VERSION};
pub use salesforce::{SalesforceCapture, SalesforceTestOutcome};
