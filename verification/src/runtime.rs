//! The provider runtime of the gateway: health state of targets, selection of the next attempt,
//! materialization of an attempt and classification of its response.

pub mod accepted;
pub mod accepted_laws;
pub mod attempt;
pub mod attempt_laws;
pub mod body;
pub mod budget_laws;
pub mod facts;
pub mod materialization;
pub mod materialization_laws;
pub mod precommit;
pub mod precommit_laws;
pub mod profile;
pub mod provider;
pub mod response;
pub mod response_laws;
pub mod selection;
pub mod selection_laws;
pub mod state;
pub mod state_laws;
pub mod stream_laws;
