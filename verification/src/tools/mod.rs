//! Agent-callable tools: the decisions each of them makes.
pub mod decide_cached;
pub mod epistemic;
pub mod error;
pub mod generate_image;
pub mod github_issue;
pub mod load_brain_file;
pub mod rebuild;
pub mod result;
pub mod seen_skills;
pub mod serper_search;
pub mod slash_command;
pub mod web_search;
pub mod whatsapp_history;
pub mod whatsapp_send;
