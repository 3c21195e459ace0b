//! Verified logic of the AgentOS web interface: authentication and CSRF rules, replay
//! buffers for live streams, artifact rendering, pipeline graphs, chat history assembly
//! and the request rules of the pages.

pub mod auth;
pub mod chat_inflight;
pub mod chat_store;
pub mod clock;
pub mod convo_inflight;
pub mod convo_store;
pub mod crypto;
pub mod csrf;
pub mod escape;
pub mod file_store;
pub mod handlers;
pub mod ids;
pub mod inflight;
pub mod json;
pub mod markdown;
pub mod pipeline;
pub mod reply;
pub mod router;
pub mod routes;
pub mod select;
pub mod server;
pub mod sizes;
pub mod sort;
pub mod stream;
pub mod table;
pub mod task_events;
pub mod templates;
pub mod text;
pub mod textmap;
pub mod toast;
pub mod watch;
pub mod yaml;
