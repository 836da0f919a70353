//! Worker-side logic for running queued circuit jobs: reading the sample
//! counts an engine wrote, rendering them for the task service, preparing a
//! job's source, and deciding what the worker does next.

pub mod text;
pub mod data;
pub mod numbers;
pub mod document;
pub mod task;
pub mod engine;
pub mod service;
pub mod lifecycle;
