//! Verified logic behind two repository tools: the generation of the
//! language specification's topic pages (slugs, navigation entries, page
//! text and the production location table) and the planning of the
//! `pipenv` setup commands.
pub mod grammar;
pub mod pipenv;
pub mod text;
pub mod topics;
