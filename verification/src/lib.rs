//! Backend session core of a desktop browser shell: a registry of open tabs
//! kept in sync with their renderer surfaces, an in-memory permission store,
//! a registry of in-flight downloads with cooperative cancellation, and a
//! verified codec for the on-disk session file.

pub mod codec;
pub mod download;
pub mod ext;
pub mod session;
pub mod tab;
