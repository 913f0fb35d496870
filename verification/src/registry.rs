//! The registry of step kinds: which kinds have a capability behind them,
//! and at which place.

use crate::run::Outcome;
use vstd::prelude::*;
use vstd::string::*;

verus! {

/// The kinds that steps can be of. What runs a step of a kind is kept by
/// the caller, under the place that [`Registry::register`] gives.
#[derive(Clone, Debug, PartialEq, Eq)]
pub struct Registry {
    pub kinds: Vec<String>,
}

/// The first place at or after `from` where `kind` stands.
pub open spec fn place_of(kinds: Seq<String>, kind: Seq<char>, from: int) -> Option<int>
    decreases kinds.len() - from,
{
    if from < 0 || from >= kinds.len() {
        None
    } else if kinds[from]@ == kind {
        Some(from)
    } else {
        place_of(kinds, kind, from + 1)
    }
}

/// Appending a kind leaves the places of the kinds before it.
proof fn lemma_place_after_push(kinds: Seq<String>, added: String, kind: Seq<char>, from: int)
    requires
        0 <= from <= kinds.len(),
    ensures
        place_of(kinds.push(added), kind, from) == match place_of(kinds, kind, from) {
            Some(i) => Some(i),
            None => if added@ == kind {
                Some(kinds.len() as int)
            } else {
                None
            },
        },
    decreases kinds.len() - from,
{
    reveal_with_fuel(place_of, 2);
    if from < kinds.len() {
        assert(kinds.push(added)[from] == kinds[from]);
        if kinds[from]@ != kind {
            lemma_place_after_push(kinds, added, kind, from + 1);
        }
    } else {
        assert(kinds.push(added)[from] == added);
    }
}

impl Registry {
    /// The place of `kind`, where it is registered.
    pub open spec fn place(&self, kind: Seq<char>) -> Option<int> {
        place_of(self.kinds@, kind, 0)
    }

    /// A registry without kinds.
    pub fn new() -> (r: Registry)
        ensures
            r.kinds@.len() == 0,
    {
        Registry { kinds: Vec::new() }
    }

    /// The place of `kind`, where it is registered.
    pub fn resolve(&self, kind: &str) -> (r: Option<usize>)
        ensures
            match r {
                Some(i) => self.place(kind@) == Some(i as int) && i < self.kinds@.len(),
                None => self.place(kind@) is None,
            },
    {
        let mut i: usize = 0;
        while i < self.kinds.len()
            invariant
                i <= self.kinds@.len(),
                place_of(self.kinds@, kind@, 0) == place_of(self.kinds@, kind@, i as int),
            decreases self.kinds@.len() - i,
        {
            if *self.kinds[i].as_str() == *kind {
                return Some(i);
            }
            i += 1;
        }
        None
    }

    /// Where a step of `kind` goes: to the capability at the kind's place,
    /// or, for a kind that is not registered, nowhere: the step has then
    /// failed, for the cause "unknown step kind".
    pub fn route(&self, kind: &str) -> (r: Result<usize, Outcome>)
        ensures
            match r {
                Ok(i) => self.place(kind@) == Some(i as int) && i < self.kinds@.len(),
                Err(outcome) => self.place(kind@) is None && (outcome matches Outcome::Failed(
                    cause,
                ) && cause@ == "unknown step kind"@),
            },
    {
        match self.resolve(kind) {
            Some(i) => Ok(i),
            None => Err(Outcome::Failed("unknown step kind".to_owned())),
        }
    }

    /// Registers `kind` and gives its place. A kind that is registered
    /// already keeps its place; a new one gets the next. The places of the
    /// other kinds stay.
    pub fn register(&mut self, kind: String) -> (r: usize)
        ensures
            final(self).place(kind@) == Some(r as int),
            match old(self).place(kind@) {
                Some(i) => r == i && final(self).kinds@ == old(self).kinds@,
                None => r == old(self).kinds@.len() && final(self).kinds@ == old(self).kinds@.push(
                    kind,
                ),
            },
            forall|other: Seq<char>|
                other != kind@ ==> #[trigger] final(self).place(other) == old(self).place(other),
    {
        match self.resolve(kind.as_str()) {
            Some(i) => i,
            None => {
                let i = self.kinds.len();
                proof {
                    lemma_place_after_push(self.kinds@, kind, kind@, 0);
                    assert forall|other: Seq<char>| other != kind@ implies #[trigger] place_of(
                        self.kinds@.push(kind),
                        other,
                        0,
                    ) == place_of(self.kinds@, other, 0) by {
                        lemma_place_after_push(self.kinds@, kind, other, 0);
                    }
                }
                self.kinds.push(kind);
                i
            },
        }
    }
}

} // verus!
