//! Diagnostics collected during a scan.
//!
//! The scanner never halts on a malformed lexeme: it records a diagnostic
//! and goes on.  A scan is handed a [`Diagnostics`] collector and appends
//! one entry per malformed lexeme; the caller inspects the collector
//! afterwards to decide what an accumulated error means for the run.

use vstd::prelude::*;

verus! {

/// One recorded diagnostic: the line it arose on and a human-readable
/// message.
#[derive(Debug)]
pub struct Diagnostic {
    pub line: usize,
    pub message: String,
}

/// The mathematical counterpart of [`Diagnostic`].
pub struct SpecDiag {
    pub line: int,
    pub message: Seq<char>,
}

impl View for Diagnostic {
    type V = SpecDiag;

    open spec fn view(&self) -> SpecDiag {
        SpecDiag { line: self.line as int, message: self.message@ }
    }
}

/// An ordered collection of diagnostics, viewed as the sequence of entries
/// recorded so far.
#[derive(Debug)]
pub struct Diagnostics {
    entries: Vec<Diagnostic>,
}

impl View for Diagnostics {
    type V = Seq<SpecDiag>;

    closed spec fn view(&self) -> Seq<SpecDiag> {
        self.entries@.map_values(|d: Diagnostic| d@)
    }
}

impl Diagnostics {
    /// An empty collector.
    pub fn new() -> (d: Self)
        ensures
            d@ == Seq::<SpecDiag>::empty(),
    {
        let d = Diagnostics { entries: Vec::new() };
        proof {
            assert(d@ =~= Seq::<SpecDiag>::empty());
        }
        d
    }

    /// Records one diagnostic.
    pub fn error(&mut self, line: usize, message: &str)
        ensures
            final(self)@ == old(self)@.push(
                SpecDiag { line: line as int, message: message@ },
            ),
    {
        self.entries.push(Diagnostic { line, message: message.to_owned() });
        proof {
            assert(self@ =~= old(self)@.push(
                SpecDiag { line: line as int, message: message@ },
            ));
        }
    }

    /// Whether any diagnostic has been recorded.
    pub fn had_error(&self) -> (r: bool)
        ensures
            r == (self@.len() != 0),
    {
        self.entries.len() != 0
    }

    /// Forgets every recorded diagnostic.
    pub fn reset_error(&mut self)
        ensures
            final(self)@ == Seq::<SpecDiag>::empty(),
    {
        self.entries.clear();
        proof {
            assert(self@ =~= Seq::<SpecDiag>::empty());
        }
    }

    /// The number of recorded diagnostics.
    pub fn len(&self) -> (n: usize)
        ensures
            n == self@.len(),
    {
        self.entries.len()
    }

    /// The entry at a given index.
    pub fn get(&self, i: usize) -> (d: &Diagnostic)
        requires
            i < self@.len(),
        ensures
            d@ == self@[i as int],
    {
        &self.entries[i]
    }
}

} // verus!
