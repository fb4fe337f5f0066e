//! Verified core of a media-ranking tool: list filtering and ordering, pair
//! selection and its history, the forms and what every key does, the rules
//! of the type catalogue, the statistics and what each screen shows.

pub mod text;
pub mod model;
pub mod listing;
pub mod pairer;
pub mod forms;
pub mod app;
pub mod keys;
pub mod server;
pub mod stats;
pub mod layout;
pub mod view;
