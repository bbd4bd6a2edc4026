use vstd::prelude::*;

verus! {

/// What the driver does with the guest program.
#[derive(Clone, Copy, Debug, PartialEq, Eq)]
pub enum Mode {
    /// Run the guest without proving and report its output byte.
    Execute,
    /// Prove the guest's run, then verify that proof.
    Prove,
}

/// The driver's flags do not name exactly one mode.
#[derive(Clone, Copy, Debug, PartialEq, Eq)]
pub enum ConfigError {
    NeitherOrBoth,
}

/// The mode named by the two flags; exactly one of them must be set.
pub fn select_mode(execute: bool, prove: bool) -> (r: Result<Mode, ConfigError>)
    ensures
        execute == prove <==> r == Err::<Mode, ConfigError>(ConfigError::NeitherOrBoth),
        execute && !prove <==> r == Ok::<Mode, ConfigError>(Mode::Execute),
        prove && !execute <==> r == Ok::<Mode, ConfigError>(Mode::Prove),
{
    if execute == prove {
        Err(ConfigError::NeitherOrBoth)
    } else if execute {
        Ok(Mode::Execute)
    } else {
        Ok(Mode::Prove)
    }
}

} // verus!
