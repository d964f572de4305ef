pub mod cycle;
pub mod dedup;
pub mod domain;
pub mod history;
pub mod leaderboard;
pub mod pipeline;
pub mod rank;
pub mod read_model;
pub mod story;
pub mod text;
pub mod window;

pub use domain::extract_domain;
