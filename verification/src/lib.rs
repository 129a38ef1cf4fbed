pub mod admin;
pub mod backend;
pub mod clock;
pub mod config;
pub mod decimal;
pub mod ids;
pub mod load_test;
pub mod middleware;
pub mod queue;
pub mod reaper;
pub mod redis_backend;
pub mod scheduler;
pub mod session;
pub mod state;
pub mod text;
pub mod waiting;
