//! The error sink shared by every compiler pass.
//!
//! Passes accumulate diagnostics here and never decide continuation
//! themselves: the pipeline driver reads the sink between passes and aborts
//! when an error was reported. Formatting and printing of diagnostics is the
//! embedding program's business.

use vstd::prelude::*;

use crate::resolver::FileId;

verus! {

/// A half-open region of a source file, by byte position and length.
#[derive(Copy, Clone, Debug, Eq, PartialEq, Structural)]
pub struct Location {
    pub pos: u32,
    pub len: u32,
    pub f_id: FileId,
}

/// One reported problem: where it was found, what it says, and whether it
/// reveals a bug in the compiler itself rather than in the program compiled.
pub struct Diagnostic {
    pub loc: Option<Location>,
    pub message: String,
    pub internal: bool,
}

/// The mathematical value of a diagnostic: its location, the text of its
/// message, and its kind.
#[verifier::ext_equal]
pub struct DiagV {
    pub loc: Option<Location>,
    pub message: Seq<char>,
    pub internal: bool,
}

impl View for Diagnostic {
    type V = DiagV;

    open spec fn view(&self) -> DiagV {
        DiagV { loc: self.loc, message: self.message@, internal: self.internal }
    }
}

/// The views of a list of diagnostics, element by element.
pub open spec fn diag_views(s: Seq<Diagnostic>) -> Seq<DiagV>
    decreases s,
{
    if s.len() == 0 {
        Seq::empty()
    } else {
        diag_views(s.drop_last()).push(s.last()@)
    }
}

/// `diag_views` takes each diagnostic to its view, in place.
pub proof fn lemma_diag_views(s: Seq<Diagnostic>)
    ensures
        diag_views(s).len() == s.len(),
        forall|i: int| 0 <= i < s.len() ==> diag_views(s)[i] == (#[trigger] s[i])@,
    decreases s,
{
    if s.len() > 0 {
        lemma_diag_views(s.drop_last());
        assert forall|i: int| 0 <= i < s.len()
            implies diag_views(s)[i] == (#[trigger] s[i])@ by {
            if i < s.len() - 1 {
                assert(s.drop_last()[i] == s[i]);
            } else {
                assert(s[i] == s.last());
            }
        }
    }
}

/// The error sink: an accumulating list of diagnostics.
pub struct ErrorHandler {
    diagnostics: Vec<Diagnostic>,
}

impl ErrorHandler {
    /// The diagnostics reported so far, oldest first.
    pub closed spec fn diags(&self) -> Seq<Diagnostic> {
        self.diagnostics@
    }

    /// The values of the diagnostics reported so far, oldest first.
    pub open spec fn dv(&self) -> Seq<DiagV> {
        diag_views(self.diags())
    }

    /// True when at least one error was reported.
    pub open spec fn has_error_spec(&self) -> bool {
        self.diags().len() > 0
    }

    /// Creates an empty sink.
    pub fn new() -> (r: Self)
        ensures
            r.diags() == Seq::<Diagnostic>::empty(),
    {
        let r = ErrorHandler { diagnostics: Vec::new() };
        proof {
            assert(r.diags() =~= Seq::<Diagnostic>::empty());
        }
        r
    }

    /// Reports an error at a source location.
    pub fn report(&mut self, loc: Location, message: String)
        ensures
            final(self).diags() == old(self).diags().push(
                Diagnostic { loc: Some(loc), message, internal: false },
            ),
            final(self).dv() == old(self).dv().push(
                DiagV { loc: Some(loc), message: message@, internal: false },
            ),
    {
        let ghost d0 = self.diags();
        self.diagnostics.push(Diagnostic { loc: Some(loc), message, internal: false });
        proof {
            assert(self.diags().drop_last() =~= d0);
        }
    }

    /// Reports an error that no source location can be given for.
    pub fn report_no_loc(&mut self, message: String)
        ensures
            final(self).diags() == old(self).diags().push(
                Diagnostic { loc: None, message, internal: false },
            ),
            final(self).dv() == old(self).dv().push(
                DiagV { loc: None, message: message@, internal: false },
            ),
    {
        let ghost d0 = self.diags();
        self.diagnostics.push(Diagnostic { loc: None, message, internal: false });
        proof {
            assert(self.diags().drop_last() =~= d0);
        }
    }

    /// Reports a state that an earlier pass should have made impossible: a
    /// bug in the compiler, at a source location.
    pub fn report_internal(&mut self, loc: Location, message: String)
        ensures
            final(self).diags() == old(self).diags().push(
                Diagnostic { loc: Some(loc), message, internal: true },
            ),
            final(self).dv() == old(self).dv().push(
                DiagV { loc: Some(loc), message: message@, internal: true },
            ),
    {
        let ghost d0 = self.diags();
        self.diagnostics.push(Diagnostic { loc: Some(loc), message, internal: true });
        proof {
            assert(self.diags().drop_last() =~= d0);
        }
    }

    /// Reports a state that an earlier pass should have made impossible: a
    /// bug in the compiler, with no source location.
    pub fn report_internal_no_loc(&mut self, message: String)
        ensures
            final(self).diags() == old(self).diags().push(
                Diagnostic { loc: None, message, internal: true },
            ),
            final(self).dv() == old(self).dv().push(
                DiagV { loc: None, message: message@, internal: true },
            ),
    {
        let ghost d0 = self.diags();
        self.diagnostics.push(Diagnostic { loc: None, message, internal: true });
        proof {
            assert(self.diags().drop_last() =~= d0);
        }
    }

    /// True when at least one error was reported.
    pub fn has_error(&self) -> (r: bool)
        ensures
            r == self.has_error_spec(),
    {
        self.diagnostics.len() > 0
    }

    /// Hands the accumulated diagnostics out and empties the sink, so the
    /// driver can print them and decide whether to go on.
    pub fn take_diagnostics(&mut self) -> (r: Vec<Diagnostic>)
        ensures
            r@ == old(self).diags(),
            final(self).diags() == Seq::<Diagnostic>::empty(),
    {
        let mut out: Vec<Diagnostic> = Vec::new();
        core::mem::swap(&mut out, &mut self.diagnostics);
        proof {
            assert(self.diags() =~= Seq::<Diagnostic>::empty());
        }
        out
    }
}

} // verus!
