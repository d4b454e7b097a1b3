//! The policy: three independent toggles that decide whether duplicate keys,
//! unmatched arguments and marker-less templates are accepted.

use vstd::prelude::*;

use crate::error::Error;
use crate::scan::has_dup;
use crate::state::State;

verus! {

/// A set of options configuring how a template is parsed and applied.
///
/// Every toggle defaults to the strict (disallowing) state:
/// - `optional`: when false, every argument supplied at apply time must match
///   a template key, else the application fails.
/// - `duplicate`: when false, a template holding the same key name more than
///   once is rejected at parse time.
/// - `empty`: when false, a template holding no markers is rejected at parse
///   time; when true, such a template is an identity transform.
#[derive(Debug, Clone, Copy, PartialEq, Eq, Structural)]
pub struct Opts {
    pub optional: bool,
    pub duplicate: bool,
    pub empty: bool,
}

impl Default for Opts {
    /// The default policy: all three toggles off.
    fn default() -> (r: Self)
        ensures
            r == (Opts { optional: false, duplicate: false, empty: false }),
    {
        Opts { optional: false, duplicate: false, empty: false }
    }
}

/// What validation decides, checked in this order: a template without keys is
/// rejected unless `empty` is set, then a template with a repeated key name is
/// rejected unless `duplicate` is set.
pub open spec fn validate_spec(opts: Opts, keys: Seq<Seq<char>>) -> Result<(), Error> {
    if keys.len() == 0 && !opts.empty {
        Err(Error::EmptyTemplate)
    } else if has_dup(keys) && !opts.duplicate {
        Err(Error::DuplicateKeys)
    } else {
        Ok(())
    }
}

impl Opts {
    /// Flip the `optional` toggle: arguments without a matching template key
    /// are silently skipped instead of failing the application.
    pub fn optional_keys(self) -> (r: Self)
        ensures
            r == (Opts { optional: !self.optional, ..self }),
    {
        Opts { optional: !self.optional, ..self }
    }

    /// Flip the `duplicate` toggle: a key repeated in the template is accepted,
    /// and one argument resolves every repetition.
    pub fn duplicate_keys(self) -> (r: Self)
        ensures
            r == (Opts { duplicate: !self.duplicate, ..self }),
    {
        Opts { duplicate: !self.duplicate, ..self }
    }

    /// Flip the `empty` toggle: a template without markers is accepted and
    /// applying it returns the original text unchanged.
    pub fn empty_template(self) -> (r: Self)
        ensures
            r == (Opts { empty: !self.empty, ..self }),
    {
        Opts { empty: !self.empty, ..self }
    }

    /// Finish building the option set.
    pub fn build(self) -> (r: Self)
        ensures
            r == self,
    {
        self
    }

    /// Check the extracted keys against this policy.
    pub(crate) fn validate(self, state: &State) -> (r: Result<(), Error>)
        ensures
            r == validate_spec(self, state@),
    {
        if !self.empty && !state.has_keys() {
            return Err(Error::EmptyTemplate);
        }
        if !self.duplicate && state.has_duplicates() {
            return Err(Error::DuplicateKeys);
        }
        Ok(())
    }
}

} // verus!
