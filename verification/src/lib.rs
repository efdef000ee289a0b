//! Encrypted day-journal core: notes, vault metadata, search, timeline and
//! two-way sync merging, with their contracts proved by Verus.

pub mod errors;
pub mod export_service;
pub mod text;
pub mod auth_service;
pub mod calendar;
pub mod commands;
pub mod crypto;
pub mod decimal;
pub mod drive;
pub mod dto;
pub mod encoding;
pub mod entities;
pub mod ids;
pub mod meta;
pub mod sorting;
pub mod multiset_facts;
pub mod note_service;
pub mod oauth;
pub mod on_this_day_service;
pub mod search_service;
pub mod session;
pub mod store;
pub mod sync;
pub mod sync_laws;
pub mod sync_service;
pub mod tag_service;
pub mod timeline_service;
