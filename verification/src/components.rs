pub mod dependency_cause_panel;
pub mod file_dependent_panel;
pub mod file_panel;
pub mod instructions;
pub mod search_input;
