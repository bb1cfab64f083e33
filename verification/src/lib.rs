pub mod auth;
pub mod client;
pub mod cookie;
pub mod error;
pub mod external;
pub mod models;
pub mod output;
pub mod text;
pub mod thread;

pub use auth::{default_session_store, validate_session};
pub use client::PonyMailClient;
pub use cookie::parse_ponymail_cookie;
pub use error::{Error, Result};
pub use models::{
    Email, EmailSummary, ListAddress, Login, LoginCredentials, Preferences, Session, SessionStore,
    StatsResponse, ThreadResponse,
};
