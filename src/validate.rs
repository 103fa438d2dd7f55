//! The checks that a parsed Beamfile must pass before it runs.

use vstd::prelude::*;

use crate::beamfile::Beamfile;
use crate::dag::{DependencyGraph, beamfile_acyclic, dependencies_declared, dependency_entries};
use crate::error::AuroraError;
use crate::text::copy_str;

verus! {

/// Whether the default beam, where one is set, is a beam of the Beamfile.
pub open spec fn default_declared(bf: Beamfile) -> bool {
    match bf.default_beam {
        Some(d) => bf.has_beam(d@),
        None => true,
    }
}

/// Checks that every dependency names a beam, that the dependencies form
/// no cycle and that the default beam exists. Fails with `BeamNotFound`
/// or `CycleDetected`.
pub fn validate(bf: &Beamfile) -> (r: Result<(), AuroraError>)
    requires
        bf.wf(),
        bf.beams@.len() < u32::MAX,
        dependency_entries(bf.beams@) < u32::MAX,
    ensures
        r is Ok <==> (dependencies_declared(*bf) && beamfile_acyclic(*bf) && default_declared(*bf)),
        r matches Err(e) ==> (e is BeamNotFound || e is CycleDetected),
        (r matches Err(e) && e is CycleDetected) ==> !beamfile_acyclic(*bf),
{
    match DependencyGraph::from_beamfile(bf) {
        Ok(_) => {},
        Err(e) => {
            return Err(e);
        },
    }
    match &bf.default_beam {
        Some(d) => {
            if bf.get_beam(d.as_str()).is_none() {
                return Err(AuroraError::BeamNotFound(copy_str(d.as_str())));
            }
            Ok(())
        },
        None => Ok(()),
    }
}

} // verus!
