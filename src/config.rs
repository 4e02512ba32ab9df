use vstd::prelude::*;

verus! {

/// Global switches given before the pipeline on the command line.
#[derive(Debug, Clone, Copy, PartialEq, Eq, Structural)]
pub enum Config {
    Version,
    Help,
    Verbose,
    DryRun,
    Nocase,
    Eval,
}

/// Whether `configs` holds the global `Nocase` switch.
pub open spec fn has_nocase(configs: Seq<Config>) -> bool {
    exists|i: int| 0 <= i < configs.len() && configs[i] == Config::Nocase
}

/// Case is ignored when the command asks for it or the global switch is on.
pub fn is_nocase(nocase: bool, configs: &[Config]) -> (r: bool)
    ensures
        r == (nocase || has_nocase(configs@)),
{
    if nocase {
        return true;
    }
    let mut i: usize = 0;
    while i < configs.len()
        invariant
            0 <= i <= configs@.len(),
            forall|j: int| 0 <= j < i ==> configs@[j] != Config::Nocase,
        decreases configs@.len() - i,
    {
        if configs[i] == Config::Nocase {
            return true;
        }
        i += 1;
    }
    false
}

} // verus!
