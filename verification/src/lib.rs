pub mod article;
pub mod ids;
pub mod text;
pub mod metadata;
pub mod jobs;
pub mod search;
pub mod prompts;
pub mod services;
pub mod api;
pub mod html;
pub mod collection;
pub mod errors;
pub mod vector_store;
