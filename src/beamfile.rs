//! The parsed project model.

use vstd::prelude::*;

use crate::beam::Beam;
use crate::text::{copy_str, str_eq};
use crate::variable::Variable;

verus! {

/// A parsed Beamfile: its variables, its beams and its default beam.
#[derive(Clone, Debug)]
pub struct Beamfile {
    /// Where it was read from.
    pub path: String,
    /// Its variables, with distinct names.
    pub variables: Vec<Variable>,
    /// Its beams, with distinct names.
    pub beams: Vec<Beam>,
    /// The beam to run when no target is named.
    pub default_beam: Option<String>,
}

/// The names of a list of beams.
pub open spec fn beam_names_of(bs: Seq<Beam>) -> Seq<Seq<char>> {
    bs.map_values(|b: Beam| b.name@)
}

/// The names of a list of variables.
pub open spec fn variable_names_of(vs: Seq<Variable>) -> Seq<Seq<char>> {
    vs.map_values(|v: Variable| v.name@)
}

/// Whether the sequence holds no element twice.
pub open spec fn distinct(s: Seq<Seq<char>>) -> bool {
    forall|i: int, j: int| 0 <= i < j < s.len() ==> s[i] != s[j]
}

/// `s` with `x` put in place of the element equal to it, or added at the end.
pub open spec fn replace_or_push<T>(s: Seq<T>, keys: Seq<Seq<char>>, k: Seq<char>, x: T) -> Seq<T> {
    if exists|i: int| 0 <= i < keys.len() && keys[i] == k {
        s.update(choose|i: int| 0 <= i < keys.len() && keys[i] == k, x)
    } else {
        s.push(x)
    }
}

impl Beamfile {
    /// The names of the beams, in order.
    pub open spec fn names(&self) -> Seq<Seq<char>> {
        beam_names_of(self.beams@)
    }

    /// Whether beam and variable names are distinct and each beam is well formed.
    pub open spec fn wf(&self) -> bool {
        &&& distinct(self.names())
        &&& distinct(variable_names_of(self.variables@))
        &&& forall|i: int| 0 <= i < self.beams@.len() ==> (#[trigger] self.beams@[i]).wf()
    }

    /// Whether a beam of that name is declared.
    pub open spec fn has_beam(&self, name: Seq<char>) -> bool {
        self.names().contains(name)
    }

    /// An empty Beamfile read from `path`.
    pub fn new(path: &str) -> (r: Beamfile)
        ensures
            r.wf(),
            r.path@ == path@,
            r.variables@.len() == 0,
            r.beams@.len() == 0,
            r.default_beam is None,
    {
        let r = Beamfile {
            path: copy_str(path),
            variables: Vec::new(),
            beams: Vec::new(),
            default_beam: None,
        };
        assert(r.names() =~= Seq::empty());
        assert(variable_names_of(r.variables@) =~= Seq::empty());
        r
    }

    fn find_beam(&self, name: &str) -> (r: Option<usize>)
        ensures
            match r {
                Some(i) => i < self.beams@.len() && self.names()[i as int] == name@,
                None => !self.has_beam(name@),
            },
    {
        let mut i: usize = 0;
        while i < self.beams.len()
            invariant
                i <= self.beams@.len(),
                forall|j: int| 0 <= j < i ==> self.names()[j] != name@,
            decreases self.beams@.len() - i,
        {
            if str_eq(self.beams[i].name.as_str(), name) {
                return Some(i);
            }
            i = i + 1;
        }
        None
    }

    fn find_variable(&self, name: &str) -> (r: Option<usize>)
        ensures
            match r {
                Some(i) => i < self.variables@.len() && variable_names_of(self.variables@)[i as int]
                    == name@,
                None => !variable_names_of(self.variables@).contains(name@),
            },
    {
        let mut i: usize = 0;
        while i < self.variables.len()
            invariant
                i <= self.variables@.len(),
                forall|j: int| 0 <= j < i ==> variable_names_of(self.variables@)[j] != name@,
            decreases self.variables@.len() - i,
        {
            if str_eq(self.variables[i].name.as_str(), name) {
                return Some(i);
            }
            i = i + 1;
        }
        None
    }

    /// Adds a variable, replacing one of the same name.
    pub fn add_variable(&mut self, variable: Variable)
        requires
            old(self).wf(),
        ensures
            final(self).wf(),
            final(self).variables@ == replace_or_push(
                old(self).variables@,
                variable_names_of(old(self).variables@),
                variable.name@,
                variable,
            ),
            final(self).beams == old(self).beams,
            final(self).path == old(self).path,
            final(self).default_beam == old(self).default_beam,
    {
        let ghost names = variable_names_of(self.variables@);
        let ghost vname = variable.name@;
        match self.find_variable(variable.name.as_str()) {
            Some(i) => {
                self.variables.set(i, variable);
                proof {
                    let j = choose|j: int| 0 <= j < names.len() && names[j] == vname;
                    assert(j == i);
                    assert(variable_names_of(self.variables@) =~= names);
                }
            },
            None => {
                self.variables.push(variable);
                proof {
                    assert(variable_names_of(self.variables@) =~= names.push(vname));
                }
            },
        }
    }

    /// Adds a beam, replacing one of the same name.
    pub fn add_beam(&mut self, beam: Beam)
        requires
            old(self).wf(),
            beam.wf(),
        ensures
            final(self).wf(),
            final(self).beams@ == replace_or_push(old(self).beams@, old(self).names(), beam.name@, beam),
            final(self).variables == old(self).variables,
            final(self).path == old(self).path,
            final(self).default_beam == old(self).default_beam,
    {
        let ghost names = self.names();
        let ghost bname = beam.name@;
        match self.find_beam(beam.name.as_str()) {
            Some(i) => {
                self.beams.set(i, beam);
                proof {
                    let j = choose|j: int| 0 <= j < names.len() && names[j] == bname;
                    assert(j == i);
                    assert(self.names() =~= names);
                }
            },
            None => {
                self.beams.push(beam);
                proof {
                    assert(self.names() =~= names.push(bname));
                }
            },
        }
    }

    /// Sets the default beam.
    pub fn set_default_beam(&mut self, name: &str)
        ensures
            final(self).default_beam matches Some(d) && d@ == name@,
            final(self).beams == old(self).beams,
            final(self).variables == old(self).variables,
            final(self).path == old(self).path,
    {
        self.default_beam = Some(copy_str(name));
    }

    /// The beam of that name.
    pub fn get_beam(&self, name: &str) -> (r: Option<&Beam>)
        requires
            self.wf(),
        ensures
            match r {
                Some(b) => self.has_beam(name@) && exists|i: int| 0 <= i < self.beams@.len() && self.beams@[i] == *b && b.name@
                    == name@,
                None => !self.has_beam(name@),
            },
    {
        match self.find_beam(name) {
            Some(i) => {
                assert(self.names()[i as int] == name@);
                Some(&self.beams[i])
            },
            None => None,
        }
    }

    /// The variable of that name.
    pub fn get_variable(&self, name: &str) -> (r: Option<&Variable>)
        requires
            self.wf(),
        ensures
            match r {
                Some(v) => exists|i: int| 0 <= i < self.variables@.len() && self.variables@[i] == *v
                    && v.name@ == name@,
                None => !variable_names_of(self.variables@).contains(name@),
            },
    {
        match self.find_variable(name) {
            Some(i) => Some(&self.variables[i]),
            None => None,
        }
    }

    /// The names of all beams, in order.
    pub fn beam_names(&self) -> (r: Vec<String>)
        ensures
            r@.map_values(|s: String| s@) == self.names(),
    {
        let mut r: Vec<String> = Vec::new();
        let mut i: usize = 0;
        while i < self.beams.len()
            invariant
                i <= self.beams@.len(),
                r@.len() == i,
                forall|j: int| 0 <= j < i ==> (#[trigger] r@[j])@ == self.names()[j],
            decreases self.beams@.len() - i,
        {
            r.push(copy_str(self.beams[i].name.as_str()));
            i = i + 1;
        }
        assert(r@.map_values(|s: String| s@) =~= self.names());
        r
    }

    /// The names of all variables, in order.
    pub fn variable_names(&self) -> (r: Vec<String>)
        ensures
            r@.map_values(|s: String| s@) == variable_names_of(self.variables@),
    {
        let mut r: Vec<String> = Vec::new();
        let mut i: usize = 0;
        while i < self.variables.len()
            invariant
                i <= self.variables@.len(),
                r@.len() == i,
                forall|j: int| 0 <= j < i ==> (#[trigger] r@[j])@ == variable_names_of(self.variables@)[j],
            decreases self.variables@.len() - i,
        {
            r.push(copy_str(self.variables[i].name.as_str()));
            i = i + 1;
        }
        assert(r@.map_values(|s: String| s@) =~= variable_names_of(self.variables@));
        r
    }
}

impl Default for Beamfile {
    fn default() -> (r: Beamfile)
        ensures
            r.wf(),
            r.path@.len() == 0,
            r.variables@.len() == 0,
            r.beams@.len() == 0,
            r.default_beam is None,
    {
        proof {
            reveal_strlit("");
        }
        Beamfile::new("")
    }
}

} // verus!
