use vstd::prelude::*;

use crate::error::diagnostic::Diagnostic;

verus! {

/// The diagnostics reported before are still there, first.
pub open spec fn spec_reported_after(old_ctx: Context, new_ctx: Context) -> bool {
    &&& old_ctx.diagnostics@.len() <= new_ctx.diagnostics@.len()
    &&& new_ctx.diagnostics@.subrange(0, old_ctx.diagnostics@.len() as int) == old_ctx.diagnostics@
}

pub broadcast proof fn lemma_reported_refl(c: Context)
    ensures
        #[trigger] spec_reported_after(c, c),
{
    assert(c.diagnostics@.subrange(0, c.diagnostics@.len() as int) =~= c.diagnostics@);
}

pub broadcast proof fn lemma_reported_trans(a: Context, b: Context, c: Context)
    requires
        #[trigger] spec_reported_after(a, b),
        #[trigger] spec_reported_after(b, c),
    ensures
        spec_reported_after(a, c),
{
    assert(c.diagnostics@.subrange(0, a.diagnostics@.len() as int) =~= b.diagnostics@.subrange(
        0,
        a.diagnostics@.len() as int,
    ));
}


/// The diagnostics gathered while compiling, in the order they were reported.
pub struct Context {
    pub diagnostics: Vec<Diagnostic>,
}

impl Context {
    /// Create a new context with no diagnostics.
    pub fn init() -> (res: Self)
        ensures
            res.diagnostics@.len() == 0,
    {
        Context { diagnostics: Vec::new() }
    }

    /// Add a diagnostic to this context.
    pub fn report(&mut self, diag: Diagnostic)
        ensures
            final(self).diagnostics@ == old(self).diagnostics@.push(diag),
            spec_reported_after(*old(self), *final(self)),
    {
        self.diagnostics.push(diag);
        assert(self.diagnostics@.subrange(0, old(self).diagnostics@.len() as int) =~= old(self).diagnostics@);
    }

    /// The number of diagnostics reported so far.
    pub fn error_count(&self) -> (res: usize)
        ensures
            res == self.diagnostics@.len(),
    {
        self.diagnostics.len()
    }

    /// Destroy the context, handing out its diagnostics in order.
    pub fn finish(self) -> (res: Vec<Diagnostic>)
        ensures
            res@ == self.diagnostics@,
    {
        self.diagnostics
    }
}

} // verus!
