//! What the command line asks for.

pub mod args;
pub mod connect;
pub mod connector;
pub mod credentials;
pub mod decode;
pub mod describe;
pub mod dns;
pub mod files;
pub mod forward;
pub mod http;
pub mod http_proxy;
pub mod lines;
pub mod login;
pub mod profile;
pub mod routing;
pub mod state;
pub mod store;
pub mod uri;
