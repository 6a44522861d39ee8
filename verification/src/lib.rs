//! Parsing and decision logic for GitHub Copilot support: quota snapshot
//! headers, the Copilot user-info document, token lookup and the built-in
//! Copilot model provider.
pub mod text;
pub mod numbers;
pub mod keyed;
pub mod outside;
pub mod quota;
pub mod json;
pub mod auth;
pub mod provider;
pub mod std_calls;
