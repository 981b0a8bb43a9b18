//! A catalog of the functions that a native package registers with the runtime.
use vstd::prelude::*;

verus! {

/// Whether a registered function is called freely or on a receiver.
#[derive(Clone, Copy, Debug, PartialEq, Eq, Structural)]
pub enum FnKind {
    Global,
    Instance,
}

/// One registered function: its kind and its name.
#[derive(Clone, Debug)]
pub struct ModuleFn {
    pub kind: FnKind,
    pub name: String,
}

/// Error raised when a function is registered twice.
#[derive(Clone, Debug)]
pub enum RegisterError {
    ConflictingFunction { name: String },
}

/// A module: its path and the functions registered in it, in order.
#[derive(Clone, Debug)]
pub struct Module {
    pub path: Vec<String>,
    pub functions: Vec<ModuleFn>,
}

/// The functions of a module, as (kind, name) pairs.
pub open spec fn fns_view(fs: Seq<ModuleFn>) -> Seq<(FnKind, Seq<char>)> {
    fs.map_values(|f: ModuleFn| (f.kind, f.name@))
}

impl Module {
    pub open spec fn entries(&self) -> Seq<(FnKind, Seq<char>)> {
        fns_view(self.functions@)
    }

    /// Construct an empty module under the given path.
    pub fn new(path: Vec<String>) -> (r: Module)
        ensures
            r.path == path,
            r.entries() == Seq::<(FnKind, Seq<char>)>::empty(),
    {
        let r = Module { path, functions: Vec::new() };
        assert(r.entries() =~= Seq::<(FnKind, Seq<char>)>::empty());
        r
    }

    /// Whether a function of this kind and name is already registered.
    pub fn contains(&self, kind: FnKind, name: &str) -> (r: bool)
        ensures
            r == self.entries().contains((kind, name@)),
    {
        let owned = name.to_string();
        assert(owned@ == name@);
        let mut i: usize = 0;
        while i < self.functions.len()
            invariant
                i <= self.functions@.len(),
                owned@ == name@,
                forall|j: int| 0 <= j < i ==> self.entries()[j] != (kind, name@),
            decreases self.functions@.len() - i,
        {
            let f = &self.functions[i];
            assert(self.entries()[i as int] == (f.kind, f.name@));
            let same_name = f.name.eq(&owned);
            let same_kind = f.kind == kind;
            if same_kind && same_name {
                assert(self.entries()[i as int] == (kind, name@));
                assert(self.entries().contains((kind, name@)));
                return true;
            }
            i = i + 1;
        }
        assert(!self.entries().contains((kind, name@))) by {
            if self.entries().contains((kind, name@)) {
                let j = choose|j: int| 0 <= j < self.entries().len() && self.entries()[j] == (kind, name@);
                assert(self.entries()[j] != (kind, name@));
            }
        }
        false
    }

    fn register(&mut self, kind: FnKind, name: &str) -> (r: Result<(), RegisterError>)
        ensures
            old(self).entries().contains((kind, name@)) ==> r is Err && *final(self) == *old(self),
            !old(self).entries().contains((kind, name@)) ==> r is Ok && final(self).path
                == old(self).path && final(self).entries() == old(self).entries().push(
                (kind, name@),
            ),
    {
        if self.contains(kind, name) {
            return Err(RegisterError::ConflictingFunction { name: name.to_string() });
        }
        self.functions.push(ModuleFn { kind, name: name.to_string() });
        proof {
            assert(self.entries() =~= old(self).entries().push((kind, name@)));
        }
        Ok(())
    }

    /// Register a free function under `name`; a second registration of the
    /// same name fails.
    pub fn global_fn(&mut self, name: &str) -> (r: Result<(), RegisterError>)
        ensures
            old(self).entries().contains((FnKind::Global, name@)) ==> r is Err && *final(self)
                == *old(self),
            !old(self).entries().contains((FnKind::Global, name@)) ==> r is Ok && final(self).path
                == old(self).path && final(self).entries() == old(self).entries().push(
                (FnKind::Global, name@),
            ),
    {
        self.register(FnKind::Global, name)
    }

    /// Register an instance function under `name`; a second registration of
    /// the same name fails.
    pub fn instance_fn(&mut self, name: &str) -> (r: Result<(), RegisterError>)
        ensures
            old(self).entries().contains((FnKind::Instance, name@)) ==> r is Err && *final(self)
                == *old(self),
            !old(self).entries().contains((FnKind::Instance, name@)) ==> r is Ok
                && final(self).path == old(self).path
                && final(self).entries() == old(self).entries().push((FnKind::Instance, name@)),
    {
        self.register(FnKind::Instance, name)
    }
}

} // verus!
