pub mod chance;
pub mod common;
pub mod dispatcher;
pub mod echo;
pub mod jmap_requests;
pub mod jmap_transport;
pub mod json;
pub mod mail;
pub mod octets;
pub mod opengpg_utils;
pub mod pgp;
pub mod post;
pub mod registry;
pub mod security_layer;
pub mod subject;
pub mod subsystem;
pub mod terminal;
pub mod text;
