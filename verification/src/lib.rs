//! Verified core of an HTML-to-PDF engine for paged media.

pub mod config;
pub mod copies;
pub mod draw;
pub mod drawables;
pub mod duplicate;
pub mod gcpm;
pub mod image_export;
pub mod inspect;
pub mod limits;
pub mod model;
pub mod multicol;
pub mod multicol_layout;
pub mod name_map;
pub mod pageable;
pub mod pagination;
pub mod paint;
pub mod scene;
pub mod text;
