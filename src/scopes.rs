//! The scope stack of a function under emission: which stack slot each
//! local occupies.
use vstd::prelude::*;
use crate::ast::Span;
use crate::error::{QueryError, QueryErrorKind};

verus! {

/// The locals by slot (`None` for an anonymous one), and where each open
/// scope starts.
pub struct Scopes {
    vars: Vec<Option<String>>,
    frames: Vec<usize>,
}

/// The slots' names.
pub open spec fn vars_view(v: Seq<Option<String>>) -> Seq<Option<Seq<char>>> {
    v.map_values(|x: Option<String>| match x {
        Some(s) => Some(s@),
        None => None,
    })
}

/// The slot of the innermost local called `name`.
pub open spec fn last_slot(vars: Seq<Option<Seq<char>>>, name: Seq<char>) -> Option<nat>
    decreases vars.len(),
{
    if vars.len() == 0 {
        None
    } else if vars.last() == Some(name) {
        Some((vars.len() - 1) as nat)
    } else {
        last_slot(vars.drop_last(), name)
    }
}

impl Scopes {
    /// The names of the slots, in slot order.
    pub closed spec fn vars(&self) -> Seq<Option<Seq<char>>> {
        vars_view(self.vars@)
    }

    /// Where each open scope starts, outermost first.
    pub closed spec fn frames(&self) -> Seq<usize> {
        self.frames@
    }

    pub open spec fn wf(&self) -> bool {
        &&& self.frames().len() > 0
        &&& forall|i: int| 0 <= i < self.frames().len() ==> #[trigger] self.frames()[i] <= self.vars().len()
        &&& forall|i: int, j: int| 0 <= i <= j < self.frames().len() ==> #[trigger] self.frames()[i] <= #[trigger] self.frames()[j]
    }

    /// Whether the innermost scope declares `name`.
    pub open spec fn in_top(&self, name: Seq<char>) -> bool {
        exists|j: int| self.frames().last() <= j < self.vars().len() && #[trigger] self.vars()[j] == Some(name)
    }

    /// A scope stack with one empty scope.
    pub fn new() -> (r: Scopes)
        ensures
            r.wf(),
            r.vars().len() == 0,
            r.frames() == seq![0usize],
    {
        let mut frames: Vec<usize> = Vec::new();
        frames.push(0);
        let r = Scopes { vars: Vec::new(), frames };
        assert(r.vars() =~= Seq::<Option<Seq<char>>>::empty());
        assert(r.frames() =~= seq![0usize]);
        r
    }

    /// Open a new, empty scope.
    pub fn push_scope(&mut self)
        requires
            old(self).wf(),
        ensures
            final(self).wf(),
            final(self).vars() == old(self).vars(),
            final(self).frames() == old(self).frames().push(old(self).vars().len() as usize),
            final(self).frames().last() as int == final(self).vars().len(),
    {
        let n = self.vars.len();
        self.frames.push(n);
    }

    /// Declare a named local at the next slot; a name that the innermost
    /// scope already declares is an error.
    pub fn new_var(&mut self, name: &String, span: Span) -> (r: Result<usize, QueryError>)
        requires
            old(self).wf(),
        ensures
            final(self).wf(),
            old(self).in_top(name@) ==> (r matches Err(e) && e.span == span
                && e.kind == (QueryErrorKind::ShadowingInSameScope { name: *name }) && *final(self) == *old(self)),
            !old(self).in_top(name@) ==> r == Ok::<usize, QueryError>(old(self).vars().len() as usize)
                && final(self).vars() == old(self).vars().push(Some(name@))
                && final(self).frames() == old(self).frames(),
    {
        let start = self.frames[self.frames.len() - 1];
        let mut j = start;
        while j < self.vars.len()
            invariant
                self.wf(),
                start == self.frames().last(),
                start <= j <= self.vars().len(),
                forall|k: int| start <= k < j ==> #[trigger] self.vars()[k] != Some(name@),
            decreases self.vars@.len() - j,
        {
            match &self.vars[j] {
                Some(v) => {
                    if v.eq(name) {
                        proof {
                            assert(self.vars()[j as int] == Some(name@));
                        }
                        return Err(QueryError::new(span, QueryErrorKind::ShadowingInSameScope { name: name.clone() }));
                    }
                },
                None => {},
            }
            j = j + 1;
        }
        let slot = self.vars.len();
        self.vars.push(Some(name.clone()));
        proof {
            assert(self.vars() =~= old(self).vars().push(Some(name@)));
        }
        Ok(slot)
    }

    /// Declare an anonymous local at the next slot.
    pub fn decl_anon(&mut self, span: Span) -> (r: usize)
        requires
            old(self).wf(),
        ensures
            final(self).wf(),
            r == old(self).vars().len(),
            final(self).vars() == old(self).vars().push(None),
            final(self).frames() == old(self).frames(),
    {
        let slot = self.vars.len();
        self.vars.push(None);
        proof {
            assert(self.vars() =~= old(self).vars().push(None));
        }
        slot
    }

    /// The slot of the innermost local called `name`.
    pub fn get_var(&self, name: &String, span: Span) -> (r: Result<usize, QueryError>)
        ensures
            last_slot(self.vars(), name@) matches Some(s) ==> r == Ok::<usize, QueryError>(s as usize),
            last_slot(self.vars(), name@) is None ==> (r matches Err(e) && e.span == span
                && e.kind == (QueryErrorKind::VariableNotFound { name: *name })),
    {
        let mut i: usize = self.vars.len();
        proof {
            assert(vars_view(self.vars@.subrange(0, i as int)) =~= self.vars());
        }
        while i > 0
            invariant
                i <= self.vars@.len(),
                last_slot(self.vars(), name@) == last_slot(vars_view(self.vars@.subrange(0, i as int)), name@),
            decreases i,
        {
            proof {
                assert(vars_view(self.vars@.subrange(0, i as int)).drop_last() =~= vars_view(self.vars@.subrange(0, i as int - 1)));
            }
            match &self.vars[i - 1] {
                Some(v) => {
                    if v.eq(name) {
                        return Ok(i - 1);
                    }
                },
                None => {},
            }
            i = i - 1;
        }
        Err(QueryError::new(span, QueryErrorKind::VariableNotFound { name: name.clone() }))
    }

    /// The number of slots to clean on return.
    pub fn total_var_count(&self) -> (r: usize)
        ensures
            r == self.vars().len(),
    {
        self.vars.len()
    }

    /// Close the innermost scope, dropping its locals.
    pub fn pop_last(&mut self)
        requires
            old(self).wf(),
            old(self).frames().len() > 1,
        ensures
            final(self).wf(),
            final(self).frames() == old(self).frames().drop_last(),
            final(self).vars() == old(self).vars().subrange(0, old(self).frames().last() as int),
    {
        let start = self.frames[self.frames.len() - 1];
        self.frames.pop();
        self.vars.truncate(start);
        proof {
            assert(self.vars() =~= old(self).vars().subrange(0, start as int));
        }
    }
}

} // verus!
