//! Running pipelines in the earlier step form.

pub mod dag;
