//! Turns one or more repository file trees into Markdown prompt artifacts.
//!
//! The pipeline matches each file's relative path against ignore patterns,
//! assigns surviving files to named buckets driven by configured split
//! folders, renders every file into a fenced, annotated text block, and
//! assembles the buckets into output artifacts, either one per repository
//! or merged across all repositories.

pub mod bucket;
pub mod config;
pub mod file_utils;
pub mod ignore;
pub mod processing;
pub mod render;
pub mod repository;
pub mod text;
