//! Canonical item names, their hashes, and the registry that hands out names
//! for nested and anonymous declarations.
use vstd::prelude::*;
use vstd::string::StrSliceExecFns;

verus! {

/// One component of an item path.
#[derive(Clone, Debug)]
pub enum Component {
    /// A named declaration.
    Str(String),
    /// The n-th anonymous closure or async block under the same parent.
    Anon(usize),
}

/// The mathematical value of a component.
pub ghost enum ComponentView {
    Str(Seq<char>),
    Anon(nat),
}

impl View for Component {
    type V = ComponentView;

    open spec fn view(&self) -> ComponentView {
        match self {
            Component::Str(s) => ComponentView::Str(s@),
            Component::Anon(n) => ComponentView::Anon(*n as nat),
        }
    }
}

/// A canonical, ordered sequence of name components identifying a declaration.
#[derive(Clone, Debug)]
pub struct Item {
    pub components: Vec<Component>,
}

impl View for Item {
    type V = Seq<ComponentView>;

    open spec fn view(&self) -> Seq<ComponentView> {
        self.components@.map_values(|c: Component| c@)
    }
}

pub const HASH_OFFSET: u64 = 0xcbf29ce484222325;

pub const HASH_PRIME: u64 = 0x100000001b3;

/// One step of the digest: fold `x` into the running hash `h`.
pub open spec fn mix(h: u64, x: u64) -> u64 {
    (h ^ x).wrapping_mul(HASH_PRIME)
}

/// The digest of the characters `s`, continuing from `h`.
pub open spec fn hash_chars(h: u64, s: Seq<char>) -> u64
    decreases s.len(),
{
    if s.len() == 0 {
        h
    } else {
        mix(hash_chars(h, s.drop_last()), s.last() as u32 as u64)
    }
}

/// The digest of one component, continuing from `h`.
pub open spec fn hash_component(h: u64, c: ComponentView) -> u64 {
    match c {
        ComponentView::Str(s) => mix(hash_chars(mix(h, 1), s), 0xff),
        ComponentView::Anon(n) => mix(mix(h, 2), n as u64),
    }
}

/// The digest of an item path: order-sensitive over its components.
pub open spec fn hash_path(p: Seq<ComponentView>) -> u64
    decreases p.len(),
{
    if p.len() == 0 {
        HASH_OFFSET
    } else {
        hash_component(hash_path(p.drop_last()), p.last())
    }
}

fn mix_exec(h: u64, x: u64) -> (r: u64)
    ensures
        r == mix(h, x),
{
    (h ^ x).wrapping_mul(HASH_PRIME)
}

fn hash_str(h: u64, s: &String) -> (r: u64)
    ensures
        r == hash_chars(h, s@),
{
    let n = s.as_str().unicode_len();
    let mut acc = h;
    let mut i: usize = 0;
    while i < n
        invariant
            n == s@.len(),
            i <= n,
            acc == hash_chars(h, s@.subrange(0, i as int)),
        decreases n - i,
    {
        let c = s.as_str().get_char(i);
        proof {
            assert(s@.subrange(0, i as int + 1).drop_last() =~= s@.subrange(0, i as int));
        }
        acc = mix_exec(acc, c as u32 as u64);
        i = i + 1;
    }
    proof {
        assert(s@.subrange(0, n as int) =~= s@);
    }
    acc
}

impl Component {
    /// Whether two components are the same.
    pub fn same(&self, other: &Component) -> (r: bool)
        ensures
            r == (self@ == other@),
    {
        match (self, other) {
            (Component::Str(a), Component::Str(b)) => a.eq(b),
            (Component::Anon(a), Component::Anon(b)) => *a == *b,
            _ => false,
        }
    }
}

impl Item {
    /// The root item, with no components.
    pub fn root() -> (r: Item)
        ensures
            r@ == Seq::<ComponentView>::empty(),
    {
        let r = Item { components: Vec::new() };
        assert(r@ =~= Seq::<ComponentView>::empty());
        r
    }

    /// The item one level below `self`.
    pub fn join(&self, c: Component) -> (r: Item)
        ensures
            r@ == self@.push(c@),
    {
        let mut components: Vec<Component> = Vec::new();
        let mut i: usize = 0;
        while i < self.components.len()
            invariant
                i <= self.components@.len(),
                components@.len() == i,
                forall|j: int| 0 <= j < i ==> components@[j]@ == self.components@[j]@,
            decreases self.components@.len() - i,
        {
            components.push(self.components[i].clone_component());
            i = i + 1;
        }
        components.push(c);
        let r = Item { components };
        assert(r@ =~= self@.push(c@));
        r
    }

    /// A copy of the item with the same path.
    pub fn duplicate(&self) -> (r: Item)
        ensures
            r@ == self@,
    {
        let mut components: Vec<Component> = Vec::new();
        let mut i: usize = 0;
        while i < self.components.len()
            invariant
                i <= self.components@.len(),
                components@.len() == i,
                forall|j: int| 0 <= j < i ==> components@[j]@ == self.components@[j]@,
            decreases self.components@.len() - i,
        {
            components.push(self.components[i].clone_component());
            i = i + 1;
        }
        let r = Item { components };
        assert(r@ =~= self@);
        r
    }

    /// Whether two items are the same path.
    pub fn same(&self, other: &Item) -> (r: bool)
        ensures
            r == (self@ == other@),
    {
        if self.components.len() != other.components.len() {
            proof {
                assert(self@.len() != other@.len());
            }
            return false;
        }
        let mut i: usize = 0;
        while i < self.components.len()
            invariant
                i <= self.components@.len(),
                self.components@.len() == other.components@.len(),
                forall|j: int| 0 <= j < i ==> self@[j] == other@[j],
            decreases self.components@.len() - i,
        {
            if !self.components[i].same(&other.components[i]) {
                proof {
                    assert(self@[i as int] != other@[i as int]);
                }
                return false;
            }
            i = i + 1;
        }
        assert(self@ =~= other@);
        true
    }

    /// The deterministic 64-bit digest of this item.
    pub fn hash(&self) -> (r: u64)
        ensures
            r == hash_path(self@),
    {
        let mut h: u64 = HASH_OFFSET;
        let mut i: usize = 0;
        while i < self.components.len()
            invariant
                i <= self.components@.len(),
                h == hash_path(self@.subrange(0, i as int)),
            decreases self.components@.len() - i,
        {
            proof {
                assert(self@.subrange(0, i as int + 1).drop_last() =~= self@.subrange(0, i as int));
            }
            h = match &self.components[i] {
                Component::Str(s) => {
                    let h1 = hash_str(mix_exec(h, 1), s);
                    mix_exec(h1, 0xff)
                },
                Component::Anon(n) => mix_exec(mix_exec(h, 2), *n as u64),
            };
            i = i + 1;
        }
        proof {
            assert(self@.subrange(0, self@.len() as int) =~= self@);
        }
        h
    }
}

impl Component {
    /// A copy of the component.
    pub fn clone_component(&self) -> (r: Component)
        ensures
            r@ == self@,
    {
        match self {
            Component::Str(s) => Component::Str(s.clone()),
            Component::Anon(n) => Component::Anon(*n),
        }
    }
}

/// What a new declaration is called.
#[derive(Clone, Debug)]
pub enum NameHint {
    /// A declaration with a name of its own.
    Named(String),
    /// An anonymous declaration: a closure or an async block.
    Anonymous,
}

/// The registry of anonymous-name counters, one per parent item.
pub struct Registry {
    counters: Vec<(Item, usize)>,
}

impl Registry {
    /// The counters by parent path, latest entry first.
    pub closed spec fn counter_of(self, parent: Seq<ComponentView>) -> nat {
        counter_in(self.counters@, parent)
    }

    /// An empty registry: every counter starts at zero.
    pub fn new() -> (r: Registry)
        ensures
            forall|p: Seq<ComponentView>| r.counter_of(p) == 0,
    {
        Registry { counters: Vec::new() }
    }

    /// The next anonymous index under `parent`.
    pub fn next_anon(&self, parent: &Item) -> (r: usize)
        ensures
            r as nat == self.counter_of(parent@),
    {
        let mut i: usize = self.counters.len();
        assert(self.counters@.subrange(0, i as int) =~= self.counters@);
        while i > 0
            invariant
                i <= self.counters@.len(),
                counter_in(self.counters@, parent@) == counter_in(
                    self.counters@.subrange(0, i as int),
                    parent@,
                ),
            decreases i,
        {
            let ghost s = self.counters@.subrange(0, i as int);
            proof {
                assert(s.drop_last() =~= self.counters@.subrange(0, i as int - 1));
            }
            if self.counters[i - 1].0.same(parent) {
                return self.counters[i - 1].1;
            }
            i = i - 1;
        }
        0
    }

    /// Derive a nested item under `parent`. A named hint gives the same item
    /// every time; an anonymous one gives a fresh item, numbered by a counter
    /// kept for each parent.
    pub fn register(&mut self, parent: &Item, hint: NameHint) -> (r: Item)
        requires
            old(self).counter_of(parent@) < usize::MAX,
        ensures
            match hint {
                NameHint::Named(s) => r@ == parent@.push(ComponentView::Str(s@)) && *final(self)
                    == *old(self),
                NameHint::Anonymous => r@ == parent@.push(
                    ComponentView::Anon(old(self).counter_of(parent@)),
                ) && final(self).counter_of(parent@) == old(self).counter_of(parent@) + 1
                    && forall|p: Seq<ComponentView>|
                    p != parent@ ==> #[trigger] final(self).counter_of(p) == old(self).counter_of(
                        p,
                    ),
            },
    {
        match hint {
            NameHint::Named(s) => parent.join(Component::Str(s)),
            NameHint::Anonymous => {
                let n = self.next_anon(parent);
                self.counters.push((parent.duplicate(), n + 1));
                proof {
                    assert(self.counters@.drop_last() =~= old(self).counters@);
                }
                parent.join(Component::Anon(n))
            },
        }
    }
}

/// The latest counter recorded for `parent` in `cs`, or zero.
pub open spec fn counter_in(cs: Seq<(Item, usize)>, parent: Seq<ComponentView>) -> nat
    decreases cs.len(),
{
    if cs.len() == 0 {
        0
    } else if cs.last().0@ == parent {
        cs.last().1 as nat
    } else {
        counter_in(cs.drop_last(), parent)
    }
}

/// Anonymous items declared under one parent are pairwise distinct (the
/// counter behind them only grows), and so are their hashes.
pub proof fn lemma_anonymous_items_distinct(parent: Seq<ComponentView>, a: nat, b: nat)
    requires
        a != b,
        a <= usize::MAX,
        b <= usize::MAX,
    ensures
        parent.push(ComponentView::Anon(a)) != parent.push(ComponentView::Anon(b)),
        hash_path(parent.push(ComponentView::Anon(a))) != hash_path(parent.push(ComponentView::Anon(b))),
{
    let pa = parent.push(ComponentView::Anon(a));
    let pb = parent.push(ComponentView::Anon(b));
    assert(pa.last() != pb.last());
    assert(pa.drop_last() =~= parent);
    assert(pb.drop_last() =~= parent);
    let h = mix(hash_path(parent), 2);
    let x = a as u64;
    let y = b as u64;
    if hash_path(pa) == hash_path(pb) {
        assert(mix(h, x) == mix(h, y));
        lemma_prime_injective(h ^ x, h ^ y);
        assert(x == y) by (bit_vector)
            requires
                h ^ x == h ^ y,
        ;
    }
}

/// Multiplying by the digest's odd prime never maps two words to one.
proof fn lemma_prime_injective(x: u64, y: u64)
    requires
        x.wrapping_mul(HASH_PRIME) == y.wrapping_mul(HASH_PRIME),
    ensures
        x == y,
{
    let px = (x as nat * HASH_PRIME as nat) % 0x10000000000000000nat;
    let py = (y as nat * HASH_PRIME as nat) % 0x10000000000000000nat;
    assert(px == py);
    assert(((x as nat * 0x100000001b3nat) % 0x10000000000000000nat * 0xce965057aff6957bnat) % 0x10000000000000000nat == x as nat) by (nonlinear_arith);
    assert(((y as nat * 0x100000001b3nat) % 0x10000000000000000nat * 0xce965057aff6957bnat) % 0x10000000000000000nat == y as nat) by (nonlinear_arith);
}

} // verus!
