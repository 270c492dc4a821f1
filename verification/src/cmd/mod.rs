//! The decisions behind each command of the tool.

pub mod install;
pub mod listusers;
pub mod mainuser;
pub mod newuser;
pub mod rmuser;
pub mod sharelink;
