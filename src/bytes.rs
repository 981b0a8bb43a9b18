//! The `bytes` package: a growable byte container exposed to scripts.
use vstd::prelude::*;
use crate::module::{FnKind, Module, RegisterError};
use vstd::string::StringSliceAdditionalSpecFns;

verus! {

/// A bytes container.
#[derive(Clone, Debug)]
pub struct Bytes {
    bytes: Vec<u8>,
}

/// Relies on Vec::capacity: the capacity is never below the length.
#[verifier::external_body]
fn vec_capacity(v: &Vec<u8>) -> (r: usize)
    ensures
        r >= v@.len(),
{
    v.capacity()
}

/// Relies on Vec::reserve_exact: the elements are kept; it panics when the
/// new capacity would pass `isize::MAX` bytes, which `requires` leaves out.
#[verifier::external_body]
fn vec_reserve_exact(v: &mut Vec<u8>, additional: usize)
    requires
        old(v)@.len() + additional <= isize::MAX,
    ensures
        final(v)@ == old(v)@,
{
    v.reserve_exact(additional)
}

/// Relies on Vec::shrink_to_fit: the elements are kept.
#[verifier::external_body]
fn vec_shrink_to_fit(v: &mut Vec<u8>)
    ensures
        final(v)@ == old(v)@,
{
    v.shrink_to_fit()
}

impl View for Bytes {
    type V = Seq<u8>;

    closed spec fn view(&self) -> Seq<u8> {
        self.bytes@
    }
}

impl Bytes {
    /// Construct from a byte array.
    pub fn from_bytes(bytes: Vec<u8>) -> (r: Self)
        ensures
            r@ == bytes@,
    {
        Self { bytes }
    }

    /// The bytes as a slice.
    pub fn as_slice(&self) -> (r: &[u8])
        ensures
            r@ == self@,
    {
        self.bytes.as_slice()
    }

    /// Construct a new, empty bytes container.
    pub fn new() -> (r: Self)
        ensures
            r@ == Seq::<u8>::empty(),
    {
        Bytes { bytes: Vec::new() }
    }

    /// Construct a new, empty bytes container with the specified capacity.
    pub fn with_capacity(cap: usize) -> (r: Self)
        requires
            cap <= isize::MAX,
        ensures
            r@ == Seq::<u8>::empty(),
    {
        Bytes { bytes: Vec::with_capacity(cap) }
    }

    /// Append the contents of `other`.
    pub fn extend(&mut self, other: &Self)
        ensures
            final(self)@ == old(self)@ + other@,
    {
        self.bytes.extend_from_slice(other.bytes.as_slice());
    }

    /// Append the UTF-8 encoding of `s`.
    pub fn push_str(&mut self, s: &str)
        ensures
            final(self)@ == old(self)@ + s.spec_bytes(),
    {
        self.bytes.extend_from_slice(s.as_bytes());
    }

    /// Get the length of the bytes collection.
    pub fn len(&self) -> (r: usize)
        ensures
            r == self@.len(),
    {
        self.bytes.len()
    }

    /// Get the capacity of the bytes collection.
    pub fn capacity(&self) -> (r: usize)
        ensures
            r >= self@.len(),
    {
        vec_capacity(&self.bytes)
    }

    /// Remove every byte.
    pub fn clear(&mut self)
        ensures
            final(self)@ == Seq::<u8>::empty(),
    {
        self.bytes.clear();
    }

    /// Reserve room for at least `additional` more bytes.
    pub fn reserve(&mut self, additional: usize)
        requires
            old(self)@.len() + additional <= isize::MAX,
        ensures
            final(self)@ == old(self)@,
    {
        self.bytes.reserve(additional);
    }

    /// Reserve room for exactly `additional` more bytes.
    pub fn reserve_exact(&mut self, additional: usize)
        requires
            old(self)@.len() + additional <= isize::MAX,
        ensures
            final(self)@ == old(self)@,
    {
        vec_reserve_exact(&mut self.bytes, additional);
    }

    /// Release unused capacity.
    pub fn shrink_to_fit(&mut self)
        ensures
            final(self)@ == old(self)@,
    {
        vec_shrink_to_fit(&mut self.bytes);
    }

    /// Remove and return the last byte.
    pub fn pop(&mut self) -> (r: Option<u8>)
        ensures
            old(self)@.len() == 0 ==> r is None && final(self)@ == old(self)@,
            old(self)@.len() > 0 ==> r == Some(old(self)@.last()) && final(self)@ == old(
                self,
            )@.drop_last(),
    {
        self.bytes.pop()
    }

    /// Return the last byte, if any.
    pub fn last(&mut self) -> (r: Option<u8>)
        ensures
            final(self)@ == old(self)@,
            old(self)@.len() == 0 ==> r is None,
            old(self)@.len() > 0 ==> r == Some(old(self)@.last()),
    {
        let n = self.bytes.len();
        if n == 0 {
            None
        } else {
            Some(self.bytes[n - 1])
        }
    }
}

/// The functions that the `bytes` package registers, in order.
pub open spec fn bytes_module_entries() -> Seq<(FnKind, Seq<char>)> {
    seq![
        (FnKind::Global, "new"@),
        (FnKind::Global, "with_capacity"@),
        (FnKind::Instance, "extend"@),
        (FnKind::Instance, "pop"@),
        (FnKind::Instance, "last"@),
        (FnKind::Instance, "len"@),
        (FnKind::Instance, "capacity"@),
        (FnKind::Instance, "clear"@),
        (FnKind::Instance, "push_str"@),
        (FnKind::Instance, "reserve"@),
        (FnKind::Instance, "reserve_exact"@),
        (FnKind::Instance, "clone"@),
        (FnKind::Instance, "shrink_to_fit"@),
    ]
}

proof fn lemma_fresh(s: Seq<(FnKind, Seq<char>)>, x: (FnKind, Seq<char>))
    requires
        forall|i: int| 0 <= i < s.len() ==> s[i] != x,
    ensures
        !s.contains(x),
{
}

/// Get the module for the bytes package.
pub fn module() -> (r: Result<Module, RegisterError>)
    ensures
        r is Ok,
        r.unwrap().path@.len() == 1,
        r.unwrap().path@[0]@ == "bytes"@,
        r.unwrap().entries() == bytes_module_entries(),
{
    proof {
        reveal_strlit("bytes");
        assert("bytes"@.len() == 5 && "bytes"@[0] == 'b' && "bytes"@[2] == 't');
        reveal_strlit("new");
        assert("new"@.len() == 3 && "new"@[0] == 'n' && "new"@[2] == 'w');
        reveal_strlit("with_capacity");
        assert("with_capacity"@.len() == 13 && "with_capacity"@[0] == 'w' && "with_capacity"@[2] == 't');
        reveal_strlit("extend");
        assert("extend"@.len() == 6 && "extend"@[0] == 'e' && "extend"@[2] == 't');
        reveal_strlit("pop");
        assert("pop"@.len() == 3 && "pop"@[0] == 'p' && "pop"@[2] == 'p');
        reveal_strlit("last");
        assert("last"@.len() == 4 && "last"@[0] == 'l' && "last"@[2] == 's');
        reveal_strlit("len");
        assert("len"@.len() == 3 && "len"@[0] == 'l' && "len"@[2] == 'n');
        reveal_strlit("capacity");
        assert("capacity"@.len() == 8 && "capacity"@[0] == 'c' && "capacity"@[2] == 'p');
        reveal_strlit("clear");
        assert("clear"@.len() == 5 && "clear"@[0] == 'c' && "clear"@[2] == 'e');
        reveal_strlit("push_str");
        assert("push_str"@.len() == 8 && "push_str"@[0] == 'p' && "push_str"@[2] == 's');
        reveal_strlit("reserve");
        assert("reserve"@.len() == 7 && "reserve"@[0] == 'r' && "reserve"@[2] == 's');
        reveal_strlit("reserve_exact");
        assert("reserve_exact"@.len() == 13 && "reserve_exact"@[0] == 'r' && "reserve_exact"@[2] == 's');
        reveal_strlit("clone");
        assert("clone"@.len() == 5 && "clone"@[0] == 'c' && "clone"@[2] == 'o');
        reveal_strlit("shrink_to_fit");
        assert("shrink_to_fit"@.len() == 13 && "shrink_to_fit"@[0] == 's' && "shrink_to_fit"@[2] == 'r');
    }
    let mut path: Vec<String> = Vec::new();
    path.push("bytes".to_string());
    let mut module = Module::new(path);
    proof { lemma_fresh(module.entries(), (FnKind::Global, "new"@)); }
    module.global_fn("new")?;
    proof { lemma_fresh(module.entries(), (FnKind::Global, "with_capacity"@)); }
    module.global_fn("with_capacity")?;
    proof { lemma_fresh(module.entries(), (FnKind::Instance, "extend"@)); }
    module.instance_fn("extend")?;
    proof { lemma_fresh(module.entries(), (FnKind::Instance, "pop"@)); }
    module.instance_fn("pop")?;
    proof { lemma_fresh(module.entries(), (FnKind::Instance, "last"@)); }
    module.instance_fn("last")?;
    proof { lemma_fresh(module.entries(), (FnKind::Instance, "len"@)); }
    module.instance_fn("len")?;
    proof { lemma_fresh(module.entries(), (FnKind::Instance, "capacity"@)); }
    module.instance_fn("capacity")?;
    proof { lemma_fresh(module.entries(), (FnKind::Instance, "clear"@)); }
    module.instance_fn("clear")?;
    proof { lemma_fresh(module.entries(), (FnKind::Instance, "push_str"@)); }
    module.instance_fn("push_str")?;
    proof { lemma_fresh(module.entries(), (FnKind::Instance, "reserve"@)); }
    module.instance_fn("reserve")?;
    proof { lemma_fresh(module.entries(), (FnKind::Instance, "reserve_exact"@)); }
    module.instance_fn("reserve_exact")?;
    proof { lemma_fresh(module.entries(), (FnKind::Instance, "clone"@)); }
    module.instance_fn("clone")?;
    proof { lemma_fresh(module.entries(), (FnKind::Instance, "shrink_to_fit"@)); }
    module.instance_fn("shrink_to_fit")?;
    assert(module.entries() =~= bytes_module_entries());
    Ok(module)
}

} // verus!
