//! The rules behind the pages and endpoints.

pub mod a2a;
pub mod agent_convo;
pub mod agent_detail;
pub mod agents;
pub mod artifacts;
pub mod audit;
pub mod channels;
pub mod chat;
pub mod chat_pages;
pub mod chat_send;
pub mod config_page;
pub mod connectors;
pub mod costs;
pub mod dag;
pub mod dashboard;
pub mod doctor;
pub mod escalations;
pub mod events;
pub mod events_log;
pub mod files;
pub mod hal_page;
pub mod identity_page;
pub mod logs;
pub mod manual_page;
pub mod marketplace;
pub mod mcp_page;
pub mod mentions;
pub mod notifications;
pub mod observability;
pub mod oauth;
pub mod pipeline_layout;
pub mod pipeline_meta;
pub mod pipeline_runs;
pub mod pipeline_ui;
pub mod pipelines;
pub mod plugins;
pub mod prefs;
pub mod profile;
pub mod roles;
pub mod schedules;
pub mod scratchpad;
pub mod secrets;
pub mod tasks;
pub mod teams;
pub mod tools;
pub mod webhooks;
pub mod webhooks_page;
pub mod workflow;
