//! Core of a hierarchical group-management service backed by a directory
//! store. Groups are organised as a tree of stems (inner nodes) and groups
//! (leaves); each node carries four membership rights (member, reader,
//! updater, admin). This crate holds the verified logic: the identifier and
//! path model, the right algebra, the authorization resolver, the mutation
//! validator and simplifier, and the flattening engine. The directory
//! transport, HTTP surface and remote SQL execution live outside, in the
//! surrounding application, which feeds this library plain values.

pub mod api;
pub mod api_post;
pub mod cas_auth;
pub mod flatten;
pub mod ids;
pub mod ldap_filter;
pub mod ldap_wrapper;
pub mod my_ldap;
pub mod my_ldap_check_rights;
pub mod my_types;
pub mod remote_query;
pub mod str_set;
pub mod str_utils;

pub use api::is_disjoint;
