//! Verified core of `xrayctl`, a manager for an Xray-core server set up
//! with VLESS + TCP + Reality: the configuration model, the credential file
//! format, connection links and the decisions behind each command.

pub mod error;
pub mod json;
pub mod text;
pub mod utils;
pub mod cmd;
