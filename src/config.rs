//! The plain parts of the configuration: which adapter is the default, the
//! logging level, and the function-calling settings.

use vstd::prelude::*;

verus! {

/// Which adapter answers by default.
#[derive(Clone, Debug)]
pub struct DefaultConfig {
    pub adapter: String,
}

/// How much is logged.
#[derive(Clone, Debug)]
pub struct LoggingConfig {
    pub level: String,
}

/// Which function declarations an adapter may call, and how.
#[derive(Clone, Debug)]
pub struct FunctionCallingConfig {
    pub mode: String,
    pub allowed_function_names: Option<Vec<String>>,
    pub function_declaration_names: Vec<String>,
}

} // verus!
