pub mod decimal;
pub mod digit_runs;
pub mod external_types;
pub mod version;
