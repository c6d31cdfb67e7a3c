//! Portboard: which dev servers, ports and URLs belong to one Git worktree.
#![allow(unused_imports)]

use vstd::prelude::*;

pub mod bounded_http;
pub mod browser_url;
pub mod current_workspace_panel;
pub mod current_workspace_status;
pub mod current_worktree;
pub mod dashboard_server;
pub mod herdr_workspace;
pub mod ip_text;
pub mod launch_target_config;
pub mod launch_target_ensure;
pub mod launch_target_lock;
pub mod launch_target_open;
pub mod launch_target_processes;
pub mod launch_target_readiness;
pub mod launch_target_stop;
pub mod lossy_text;
pub mod manifest_approval;
pub mod numbers;
pub mod ordered;
pub mod path_text;
pub mod portboard_cli;
pub mod portboard_error;
pub mod process_endpoints;
pub mod process_identity;
pub mod runtime_metadata;
pub mod state_paths;
pub mod text;
pub mod worktree_processes;

verus! {

} // verus!
