pub mod complete;
pub mod distance;
pub mod git_commands;
pub mod github;
pub mod graph;
pub mod jira;
pub mod lex;
pub mod netrc;
pub mod nodejs;
pub mod output;
pub mod plugin;
pub mod plugin_context;
pub mod renderer;
pub mod renderer_config;
pub mod repo_state;
pub mod self_update;
pub mod state;
pub mod strs;
pub mod switch;
pub mod switch_plan;
pub mod text;
pub mod tree_renderer;
pub mod user_experience;
pub mod worktree;
pub mod utils;
pub mod stale;
pub mod tree_xref;
pub mod branch_graph;
pub mod tree;
pub mod dependency_resolver;
pub mod tree_deep;
