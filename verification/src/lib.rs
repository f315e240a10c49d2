//! Request authentication and sticky session routing for a gateway.

pub mod affinity_laws;
pub mod auth;
pub mod auth_laws;
pub mod binding_table;
pub mod clock;
pub mod headers;
pub mod request_laws;
pub mod routing_laws;
pub mod session_affinity;
pub mod sticky;
pub mod text;
