pub mod ci_provider;
pub mod config;
pub mod err_parse;
pub mod issue;
pub mod text;
pub mod unicode;
pub mod util;
