pub mod app_state;
pub mod cli;
pub mod desktop_state;
pub mod discovery;
pub mod execution;
pub mod html_export;
pub mod json;
pub mod keyed;
pub mod merge;
pub mod model;
pub mod operations;
pub mod order;
pub mod path_mapper;
pub mod rollout;
pub mod scanner;
pub mod selection;
pub mod session_index;
pub mod settings;
pub mod sqlite_adapter;
pub mod text;
pub mod transaction;
pub mod validator;
