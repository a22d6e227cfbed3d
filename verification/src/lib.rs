//! Reads Ansible content the way Ansible does: the YAML of playbooks and task files, the keywords
//! and their places, free-form arguments, the Jinja in them, and the files that they refer to.

pub mod assign;
pub mod assigned;
pub mod ast;
pub mod directories;
pub mod faults;
pub mod fs;
pub mod gather;
pub mod include_vars;
pub mod jinja;
pub mod keyword_count;
pub mod keywords;
pub mod known;
pub mod mutation;
pub mod order;
pub mod parse;
pub mod parse_libyaml;
pub mod paths;
pub mod placement;
pub mod quoting;
pub mod references;
pub mod resolve;
pub mod reverse;
pub mod search;
pub mod splitter;
pub mod targets;
pub mod text;
pub mod trees;
pub mod vocabulary;
pub mod yaml_input;
