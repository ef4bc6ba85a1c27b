//! Verified core of the dsh desktop client: the `/api` envelope, the profile
//! patch layer, the plugin task board, the supervisor's decisions, the Node
//! preflight and the launch-plan resolution.

pub mod text;
pub mod patch;
pub mod json;
pub mod ids;
pub mod bridge;
pub mod supervisor;
pub mod preflight;
pub mod resolve;
pub mod home;
pub mod tasks;
pub mod shell;
