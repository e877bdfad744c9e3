//! Verified core of the Grok (xAI) integration and the terminal Gantt renderer.

pub mod agent_communication;
pub mod calendar;
pub mod catalog;
pub mod diagram;
pub mod frames;
pub mod gantt;
pub mod grouped;
pub mod json;
pub mod login;
pub mod paint;
pub mod prompt_cache;
pub mod schedule;
pub mod text;
pub mod timeline;
pub mod xai_items;
pub mod xai_oauth;
pub mod xai_responses;
pub mod xai_tools;
