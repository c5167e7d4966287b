//! Errors raised while building the configuration.
use vstd::prelude::*;

verus! {

/// Why a configuration could not be built.
#[derive(Debug)]
pub enum ConfigError {
    /// A malformed rule string, or one whose detector glob is malformed; holds the rule.
    InvalidRule(String),
    /// A malformed age or size filter; holds a description.
    InvalidConfig(String),
}

impl ConfigError {
    /// A one-line description for the user.
    pub fn message(&self) -> (r: String)
        ensures
            self matches ConfigError::InvalidRule(rule) ==> r@ == "Invalid rule '"@ + rule@ + "'"@,
            self matches ConfigError::InvalidConfig(what) ==> r@ == what@,
    {
        match self {
            ConfigError::InvalidRule(rule) => {
                let mut m = "Invalid rule '".to_owned();
                m.append(rule.as_str());
                m.append("'");
                m
            },
            ConfigError::InvalidConfig(what) => what.clone(),
        }
    }
}

} // verus!
