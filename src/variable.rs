//! Beamfile variables.

use vstd::prelude::*;

use crate::text::copy_str;

verus! {

/// A variable declared in a Beamfile.
#[derive(Clone, Debug)]
pub struct Variable {
    /// Its name.
    pub name: String,
    /// Its value where nothing overrides it.
    pub default: Option<String>,
    /// What it is for.
    pub description: Option<String>,
}

impl Variable {
    /// A variable with no default and no description.
    pub fn new(name: &str) -> (r: Variable)
        ensures
            r.name@ == name@,
            r.default is None,
            r.description is None,
    {
        Variable { name: copy_str(name), default: None, description: None }
    }

    /// Sets the default value.
    pub fn with_default(self, default: &str) -> (r: Variable)
        ensures
            r.default matches Some(d) && d@ == default@,
            r.name == self.name,
            r.description == self.description,
    {
        Variable { default: Some(copy_str(default)), ..self }
    }

    /// Sets the description.
    pub fn with_description(self, description: &str) -> (r: Variable)
        ensures
            r.description matches Some(d) && d@ == description@,
            r.name == self.name,
            r.default == self.default,
    {
        Variable { description: Some(copy_str(description)), ..self }
    }
}

} // verus!
