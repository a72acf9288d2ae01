//! The handlers of the site's requests.
pub mod auth;
pub mod collected;
pub mod commit_idx;
pub mod dashboard;
pub mod dashboard_laws;
pub mod days;
pub mod graph;
pub mod graph_data;
pub mod graph_laws;
pub mod info;
pub mod push;
pub mod reply;
pub mod self_profile;
pub mod self_profile_laws;
pub mod self_profile_request;
pub mod serve;
pub mod status;
