//! The lazy query engine: the index of declarations, the metadata cache, and
//! the build queue that resolution feeds.
use vstd::prelude::*;
use crate::ast::{Block, Call, ExprClosure, ItemFn, Span, StructBody};
use crate::error::{IrErrorKind, MetaTag, QueryError, QueryErrorKind};
use crate::ir::{consts_view, env_view, eval_expr, eval_spec, Ir, IrKind, DEFAULT_BUDGET};
use crate::item::{hash_path, ComponentView, Item};
use crate::meta::{
    captures_view, copy_captures, copy_strings, strings_view, AsyncBlock, Build, BuildEntry,
    Capture, Closure, CompileMeta, CompileSource, Const, Function, Indexed, IndexedEntry, MetaKind,
    MetaKindView, Struct, Used, Variant,
};
use crate::table::{Keyed, Table};

verus! {

/// The shape of the metadata of a struct or variant body.
pub open spec fn body_kind(item: Seq<ComponentView>, enum_item: Option<Seq<ComponentView>>, body: StructBody) -> MetaKindView {
    let type_of = hash_path(item);
    match body {
        StructBody::Empty => match enum_item {
            Some(e) => MetaKindView::TupleVariant { type_of, enum_item: e, args: 0 },
            None => MetaKindView::Tuple { type_of, args: 0 },
        },
        StructBody::Tuple(n) => match enum_item {
            Some(e) => MetaKindView::TupleVariant { type_of, enum_item: e, args: n as nat },
            None => MetaKindView::Tuple { type_of, args: n as nat },
        },
        StructBody::Named(fields) => match enum_item {
            Some(e) => MetaKindView::ObjectVariant { type_of, enum_item: e, fields: strings_view(fields@).to_set() },
            None => MetaKindView::Struct { type_of, fields: strings_view(fields@).to_set() },
        },
    }
}

/// The shape of the metadata that an indexed declaration resolves to; none
/// for a constant, whose value comes from its evaluation.
pub open spec fn meta_kind_of(item: Seq<ComponentView>, e: Indexed) -> Option<MetaKindView> {
    let type_of = hash_path(item);
    match e {
        Indexed::Enum => Some(MetaKindView::Enum { type_of }),
        Indexed::Struct(s) => Some(body_kind(item, None, s.body)),
        Indexed::Variant(v) => Some(body_kind(item, Some(v.enum_item@), v.body)),
        Indexed::Function(f) => Some(MetaKindView::Function { type_of, call: f.call }),
        Indexed::Closure(c) => Some(MetaKindView::Closure { type_of, captures: captures_view(c.captures@), call: c.call }),
        Indexed::AsyncBlock(a) => Some(MetaKindView::AsyncBlock { type_of, captures: captures_view(a.captures@), call: a.call }),
        Indexed::Const(_) => None,
    }
}

/// The constant items that `ir` refers to, with the spans of the
/// references, in evaluation order.
pub open spec fn ir_refs(ir: Ir) -> Seq<(Seq<ComponentView>, Span)>
    decreases ir,
{
    match ir.kind {
        IrKind::Binary(_, lhs, rhs) => ir_refs(*lhs) + ir_refs(*rhs),
        IrKind::Let(_, value, body) => ir_refs(*value) + ir_refs(*body),
        IrKind::Const(item) => seq![(item@, ir.span)],
        _ => Seq::empty(),
    }
}

/// The references of a list, as values.
pub open spec fn refs_view(s: Seq<(Item, Span)>) -> Seq<(Seq<ComponentView>, Span)> {
    s.map_values(|r: (Item, Span)| (r.0@, r.1))
}

/// The paths of a list of items.
pub open spec fn items_view(s: Seq<Item>) -> Seq<Seq<ComponentView>> {
    s.map_values(|i: Item| i@)
}

/// Whether every constant that `ir` refers to is already resolved in
/// `metas` as a constant, and none is under evaluation in `stack`.
pub open spec fn refs_ready(ir: Ir, metas: Map<Seq<ComponentView>, CompileMeta>, stack: Seq<Seq<ComponentView>>) -> bool {
    forall|j: int| 0 <= j < ir_refs(ir).len() ==> metas.contains_key(#[trigger] ir_refs(ir)[j].0)
        && metas[ir_refs(ir)[j].0].kind@ is Const && !stack.contains(ir_refs(ir)[j].0)
}

/// The values of the constants that `ir` refers to, as `metas` records them.
pub open spec fn ref_values(ir: Ir, metas: Map<Seq<ComponentView>, CompileMeta>) -> Seq<(Seq<ComponentView>, i64)> {
    ir_refs(ir).map_values(|r: (Seq<ComponentView>, Span)| (r.0, metas[r.0].kind@->Const_value))
}

/// Whether `item` only left the index, and nothing else changed.
pub open spec fn only_taken(old_q: Query, new_q: Query, item: Seq<ComponentView>) -> bool {
    &&& new_q.indexed.view() == old_q.indexed.view().remove(item)
    &&& new_q.metas.view() == old_q.metas.view()
    &&& new_q.queue@ == old_q.queue@
}

/// Whether the index, the cache and the queue are as they were.
pub open spec fn same_state(old_q: Query, new_q: Query) -> bool {
    &&& new_q.indexed.view() == old_q.indexed.view()
    &&& new_q.metas.view() == old_q.metas.view()
    &&& new_q.queue@ == old_q.queue@
}

/// Whether every declaration that left the index has its record cached.
pub open spec fn settled(old_q: Query, new_q: Query) -> bool {
    forall|k: Seq<ComponentView>| #[trigger] old_q.indexed.view().contains_key(k) && !new_q.indexed.view().contains_key(k)
        ==> new_q.metas.view().contains_key(k)
}

/// Whether the enum item of a variant resolves without a body to queue:
/// it is cached, unknown, or an enum or struct declaration.
pub open spec fn enum_ready(q: Query, e: Seq<ComponentView>) -> bool {
    q.metas.view().contains_key(e) || !q.indexed.view().contains_key(e)
        || q.indexed.view()[e].1.indexed is Enum || q.indexed.view()[e].1.indexed is Struct
}

/// The outcome of resolving a pending constant or variant. A constant
/// queried as used queues nothing. A constant whose first reference is to
/// itself fails with budget exhaustion at that reference. A constant whose
/// references are all resolved constants gets exactly the value, or the
/// error, of its evaluation with a fresh budget; a failure changes nothing
/// but taking it from the index. A variant whose enum is ready always
/// resolves and queues nothing.
pub open spec fn pending_outcome(
    old_q: Query,
    new_q: Query,
    item: Seq<ComponentView>,
    used: Used,
    stack: Seq<Seq<ComponentView>>,
    r: Result<Option<CompileMeta>, QueryError>,
) -> bool {
    old_q.indexed.view().contains_key(item) && !old_q.metas.view().contains_key(item) ==> {
        let e = old_q.indexed.view()[item].1;
        match e.indexed {
            Indexed::Const(c) => {
                let refs = ir_refs(c.ir);
                &&& r is Ok && used == Used::Used ==> new_q.queue@ == old_q.queue@
                &&& refs.len() > 0 && refs[0].0 == item ==> (r matches Err(err) && err.span == refs[0].1
                    && err.kind == (QueryErrorKind::IrError { error: IrErrorKind::BudgetExceeded })
                    && only_taken(old_q, new_q, item))
                &&& refs_ready(c.ir, old_q.metas.view(), stack) ==> match eval_spec(c.ir, Seq::empty(), ref_values(c.ir, old_q.metas.view()), DEFAULT_BUDGET as nat) {
                    Ok((v, _)) => r matches Ok(Some(m)) && m.kind@ == (MetaKindView::Const { value: v }),
                    Err((k, sp)) => r matches Err(err) && err.span == sp
                        && err.kind == (QueryErrorKind::IrError { error: k }) && only_taken(old_q, new_q, item),
                }
            },
            Indexed::Variant(v) => enum_ready(old_q, v.enum_item@) ==> r is Ok && new_q.queue@ == old_q.queue@,
            _ => true,
        }
    }
}

/// The build that resolving a function, closure or async block queues.
pub open spec fn build_of(e: Indexed) -> Option<Build> {
    match e {
        Indexed::Function(f) => Some(Build::Function(f)),
        Indexed::Closure(c) => Some(Build::Closure(c)),
        Indexed::AsyncBlock(a) => Some(Build::AsyncBlock(a)),
        _ => None,
    }
}

/// Whether a record of this shape has a body to emit.
pub open spec fn is_build_kind(k: MetaKindView) -> bool {
    k is Function || k is Closure || k is AsyncBlock
}

/// Whether `queue`, from position `from` on, holds an entry that emits the
/// body of `item`.
pub open spec fn queued_in(queue: Seq<BuildEntry>, from: int, item: Seq<ComponentView>) -> bool {
    exists|j: int| from <= j < queue.len() && #[trigger] queue[j].item@ == item && !(queue[j].build is UnusedConst)
}

/// Whether `e` resolves without further queries: all but variants and constants.
pub open spec fn is_leaf(e: Indexed) -> bool {
    !(e is Variant) && !(e is Const)
}

/// Whether each (item, value) of `t` is a constant of `metas` with that value.
pub open spec fn consts_in(t: Seq<(Seq<ComponentView>, i64)>, metas: Map<Seq<ComponentView>, CompileMeta>) -> bool {
    forall|j: int| 0 <= j < t.len() ==> metas.contains_key(#[trigger] t[j].0)
        && metas[t[j].0].kind@ == MetaKindView::Const { value: t[j].1 }
}

/// The value of an evaluation that succeeded.
pub open spec fn ok_value(r: Result<(i64, nat), (IrErrorKind, Span)>) -> Option<i64> {
    match r {
        Ok((v, _)) => Some(v),
        Err(_) => None,
    }
}

/// Whether `kind` is a constant whose value `ir` evaluates to, from a fresh
/// budget, with some of the constants resolved in `metas`.
pub open spec fn const_resolved(ir: Ir, metas: Map<Seq<ComponentView>, CompileMeta>, kind: MetaKindView) -> bool {
    exists|t: Seq<(Seq<ComponentView>, i64)>|
        consts_in(t, metas) && #[trigger] ok_value(eval_spec(ir, Seq::empty(), t, DEFAULT_BUDGET as nat))
            == Some(kind->Const_value) && kind is Const
}

/// Whether `q` is a build entry for `item`, from source `source_id`,
/// marked `used`, asking for `build`.
pub open spec fn entry_is(q: BuildEntry, item: Seq<ComponentView>, build: Build, source_id: usize, used: Used) -> bool {
    q.item@ == item && q.build == build && q.source_id == source_id && q.used == used
}

/// The shape of a struct or variant body's metadata.
fn body_meta(item: &Item, enum_item: Option<&Item>, body: &StructBody) -> (r: MetaKind)
    ensures
        r@ == body_kind(item@, match enum_item { Some(e) => Some(e@), None => None }, *body),
{
    let type_of = item.hash();
    match body {
        StructBody::Empty => match enum_item {
            Some(e) => MetaKind::TupleVariant { type_of, enum_item: e.duplicate(), args: 0 },
            None => MetaKind::Tuple { type_of, args: 0 },
        },
        StructBody::Tuple(n) => match enum_item {
            Some(e) => MetaKind::TupleVariant { type_of, enum_item: e.duplicate(), args: *n },
            None => MetaKind::Tuple { type_of, args: *n },
        },
        StructBody::Named(fields) => match enum_item {
            Some(e) => MetaKind::ObjectVariant { type_of, enum_item: e.duplicate(), fields: copy_strings(fields) },
            None => MetaKind::Struct { type_of, fields: copy_strings(fields) },
        },
    }
}

/// The constant items that `ir` refers to, with the spans of the references,
/// appended to `out` in evaluation order.
fn collect_refs(ir: &Ir, out: &mut Vec<(Item, Span)>)
    ensures
        refs_view(final(out)@) == refs_view(old(out)@) + ir_refs(*ir),
    decreases ir,
{
    match &ir.kind {
        IrKind::Value(_) => {
            assert(refs_view(out@) =~= refs_view(old(out)@) + ir_refs(*ir));
        },
        IrKind::Var(_) => {
            assert(refs_view(out@) =~= refs_view(old(out)@) + ir_refs(*ir));
        },
        IrKind::Binary(_, lhs, rhs) => {
            collect_refs(lhs, out);
            collect_refs(rhs, out);
            assert(refs_view(out@) =~= refs_view(old(out)@) + ir_refs(*ir));
        },
        IrKind::Let(_, value, body) => {
            collect_refs(value, out);
            collect_refs(body, out);
            assert(refs_view(out@) =~= refs_view(old(out)@) + ir_refs(*ir));
        },
        IrKind::Const(item) => {
            out.push((item.duplicate(), ir.span));
            assert(refs_view(out@) =~= refs_view(old(out)@) + ir_refs(*ir));
        },
    }
}

fn contains_item(items: &Vec<Item>, item: &Item) -> (r: bool)
    ensures
        r == exists|j: int| 0 <= j < items@.len() && #[trigger] items@[j]@ == item@,
{
    let mut i: usize = 0;
    while i < items.len()
        invariant
            i <= items@.len(),
            forall|j: int| 0 <= j < i ==> #[trigger] items@[j]@ != item@,
        decreases items@.len() - i,
    {
        if items[i].same(item) {
            return true;
        }
        i = i + 1;
    }
    false
}

/// The compilation context: declarations awaiting resolution, resolved
/// metadata, and the queue of bodies to emit.
pub struct Query {
    /// Declarations that have not been resolved yet.
    pub indexed: Table<(Item, IndexedEntry)>,
    /// Resolved metadata.
    pub metas: Table<CompileMeta>,
    /// Bodies to emit, first in first out.
    pub queue: Vec<BuildEntry>,
}

impl Query {
    /// The invariant of the context: an item is either awaiting resolution
    /// or resolved, never both, and indexed items have distinct hashes.
    pub open spec fn wf(&self) -> bool {
        &&& self.indexed.wf()
        &&& self.metas.wf()
        &&& forall|k: Seq<ComponentView>| #[trigger] self.indexed.view().contains_key(k) ==> !self.metas.view().contains_key(k)
        &&& forall|k1: Seq<ComponentView>, k2: Seq<ComponentView>|
            #[trigger] self.indexed.view().contains_key(k1) && #[trigger] self.indexed.view().contains_key(k2) && k1 != k2
            ==> hash_path(k1) != hash_path(k2)
    }

    /// What holds of every query, whatever its outcome: declarations only
    /// leave the index, resolved metadata stays as it was, new metadata
    /// comes only from declarations that left the index, and the queue
    /// only grows at its tail, by at most one entry per declaration resolved.
    pub open spec fn query_frame(old_q: Query, new_q: Query) -> bool {
        &&& new_q.wf()
        &&& new_q.indexed.view().dom().subset_of(old_q.indexed.view().dom())
        &&& forall|k: Seq<ComponentView>| #[trigger] old_q.metas.view().contains_key(k) ==> new_q.metas.view().contains_key(k)
            && new_q.metas.view()[k] == old_q.metas.view()[k]
        &&& forall|k: Seq<ComponentView>| #[trigger] new_q.metas.view().contains_key(k) ==> old_q.metas.view().contains_key(k)
            || (old_q.indexed.view().contains_key(k) && !new_q.indexed.view().contains_key(k))
        &&& new_q.queue@.len() >= old_q.queue@.len()
        &&& new_q.queue@.subrange(0, old_q.queue@.len() as int) == old_q.queue@
        &&& new_q.queue@.len() - old_q.queue@.len() <= old_q.indexed.values().len() - new_q.indexed.values().len()
        &&& forall|k: Seq<ComponentView>| #[trigger] new_q.metas.view().contains_key(k) && !old_q.metas.view().contains_key(k)
            && is_build_kind(new_q.metas.view()[k].kind@) ==> queued_in(new_q.queue@, old_q.queue@.len() as int, k)
    }

    /// Construct a new compilation context.
    pub fn new() -> (r: Self)
        ensures
            r.wf(),
            r.indexed.view() == Map::<Seq<ComponentView>, (Item, IndexedEntry)>::empty(),
            r.metas.view() == Map::<Seq<ComponentView>, CompileMeta>::empty(),
            r.queue@.len() == 0,
    {
        Query { indexed: Table::new(), metas: Table::new(), queue: Vec::new() }
    }

    /// Public query meta which marks things as used.
    pub fn query_meta(&mut self, item: &Item) -> (r: Result<Option<CompileMeta>, QueryError>)
        requires
            old(self).wf(),
        ensures
            Query::query_frame(*old(self), *final(self)),
            Query::resolved(*old(self), *final(self), item@, Used::Used, r),
            pending_outcome(*old(self), *final(self), item@, Used::Used, Seq::empty(), r),
            r is Ok ==> settled(*old(self), *final(self)),
    {
        let stack: Vec<Item> = Vec::new();
        proof {
            assert(items_view(stack@) =~= Seq::<Seq<ComponentView>>::empty());
        }
        self.query_meta_with_use(item, Used::Used, &stack)
    }

    /// The outcome of resolving `item`, marked `used`: a cached record is
    /// returned as it is; an unknown item gives `None`; an indexed one leaves
    /// the index, and on success its record is cached and returned, built as
    /// its declaration says, and a function, closure or async block is queued.
    pub open spec fn resolved(
        old_q: Query,
        new_q: Query,
        item: Seq<ComponentView>,
        used: Used,
        r: Result<Option<CompileMeta>, QueryError>,
    ) -> bool {
        if old_q.metas.view().contains_key(item) {
            &&& r matches Ok(Some(m)) && m@ == old_q.metas.view()[item]@
            &&& new_q.indexed.view() == old_q.indexed.view()
            &&& new_q.metas.view() == old_q.metas.view()
            &&& new_q.queue@ == old_q.queue@
        } else if !old_q.indexed.view().contains_key(item) {
            &&& r matches Ok(None)
            &&& new_q.indexed.view() == old_q.indexed.view()
            &&& new_q.metas.view() == old_q.metas.view()
            &&& new_q.queue@ == old_q.queue@
        } else {
            let e = old_q.indexed.view()[item].1;
            &&& !new_q.indexed.view().contains_key(item)
            &&& r is Err ==> !new_q.metas.view().contains_key(item)
            &&& r is Ok ==> {
                &&& r matches Ok(Some(m))
                &&& new_q.metas.view().contains_key(item)
                &&& new_q.metas.view()[item]@ == m@
                &&& m.item@ == item
                &&& m.source == CompileSource { span: e.span, source_id: e.source_id }
                &&& meta_kind_of(item, e.indexed) matches Some(k) ==> m.kind@ == k
                &&& match e.indexed {
                    Indexed::Variant(v) => (old_q.metas.view().contains_key(v.enum_item@)
                        || old_q.indexed.view().contains_key(v.enum_item@))
                        ==> new_q.metas.view().contains_key(v.enum_item@),
                    Indexed::Const(c) => const_resolved(c.ir, new_q.metas.view(), m.kind@)
                        && (used == Used::Unused ==> new_q.queue@.len() > 0
                        && entry_is(new_q.queue@.last(), item, Build::UnusedConst(c), e.source_id, used)),
                    _ => true,
                }
            }
            &&& is_leaf(e.indexed) ==> {
                &&& r is Ok
                &&& new_q.indexed.view() == old_q.indexed.view().remove(item)
                &&& new_q.metas.view().dom() == old_q.metas.view().dom().insert(item)
                &&& match build_of(e.indexed) {
                    Some(b) => new_q.queue@.len() == old_q.queue@.len() + 1
                        && entry_is(new_q.queue@.last(), item, b, e.source_id, used),
                    None => new_q.queue@ == old_q.queue@,
                }
            }
        }
    }

    /// Query meta with control over whether or not to mark things as used.
    /// `stack` holds the constants whose evaluation is under way: a reference
    /// back to one of them can never finish within any budget, and is
    /// reported as budget exhaustion at the reference.
    pub fn query_meta_with_use(&mut self, item: &Item, used: Used, stack: &Vec<Item>) -> (r: Result<Option<CompileMeta>, QueryError>)
        requires
            old(self).wf(),
        ensures
            Query::query_frame(*old(self), *final(self)),
            Query::resolved(*old(self), *final(self), item@, used, r),
            pending_outcome(*old(self), *final(self), item@, used, items_view(stack@), r),
            r is Ok ==> settled(*old(self), *final(self)),
        decreases old(self).indexed.values().len(), 1nat,
    {
        proof {
            self.metas.lemma_keys();
            self.indexed.lemma_keys();
            lemma_frame_refl(*self);
        }
        match self.metas.get(item) {
            Some(meta) => {
                return Ok(Some(meta.duplicate()));
            },
            None => {},
        }
        let (key, entry) = match self.indexed.take(item) {
            Some(e) => e,
            None => {
                return Ok(None);
            },
        };
        let ghost taken = self.indexed.values().len();
        let IndexedEntry { span, source_id, indexed } = entry;
        let source = CompileSource { span, source_id };
        let kind = match indexed {
            Indexed::Enum => MetaKind::Enum { type_of: item.hash() },
            Indexed::Struct(st) => body_meta(item, None, &st.body),
            Indexed::Variant(v) => {
                let _ = self.query_meta_with_use(&v.enum_item, Used::Used, stack)?;
                proof {
                    assert(!self.metas.view().contains_key(item@));
                }
                body_meta(item, Some(&v.enum_item), &v.body)
            },
            Indexed::Function(f) => {
                let call = f.call;
                self.queue.push(BuildEntry { item: key, build: Build::Function(f), source_id, used });
                proof {
                    assert(self.queue@.subrange(0, old(self).queue@.len() as int) =~= old(self).queue@);
                }
                let r = self.finish(item, MetaKind::Function { type_of: item.hash(), call }, source);
                proof {
                    assert(self.queue@[old(self).queue@.len() as int].item@ == item@);
                }
                return r;
            },
            Indexed::Closure(c) => {
                let captures = copy_captures(&c.captures);
                let call = c.call;
                self.queue.push(BuildEntry { item: key, build: Build::Closure(c), source_id, used });
                proof {
                    assert(self.queue@.subrange(0, old(self).queue@.len() as int) =~= old(self).queue@);
                }
                let r = self.finish(item, MetaKind::Closure { type_of: item.hash(), captures, call }, source);
                proof {
                    assert(self.queue@[old(self).queue@.len() as int].item@ == item@);
                }
                return r;
            },
            Indexed::AsyncBlock(a) => {
                let captures = copy_captures(&a.captures);
                let call = a.call;
                self.queue.push(BuildEntry { item: key, build: Build::AsyncBlock(a), source_id, used });
                proof {
                    assert(self.queue@.subrange(0, old(self).queue@.len() as int) =~= old(self).queue@);
                }
                let r = self.finish(item, MetaKind::AsyncBlock { type_of: item.hash(), captures, call }, source);
                proof {
                    assert(self.queue@[old(self).queue@.len() as int].item@ == item@);
                }
                return r;
            },
            Indexed::Const(c) => {
                let value = self.eval_const(item, &c.ir, stack)?;
                if used.is_unused() {
                    let ghost before = self.queue@;
                    self.queue.push(BuildEntry { item: key, build: Build::UnusedConst(c), source_id, used });
                    proof {
                        assert(self.queue@.subrange(0, old(self).queue@.len() as int) =~= old(self).queue@) by {
                            assert(before.subrange(0, old(self).queue@.len() as int) == old(self).queue@);
                            assert(self.queue@.subrange(0, old(self).queue@.len() as int) =~= before.subrange(0, old(self).queue@.len() as int));
                        }
                        assert forall|k: Seq<ComponentView>| #[trigger] self.metas.view().contains_key(k) && !old(self).metas.view().contains_key(k)
                            && is_build_kind(self.metas.view()[k].kind@) implies queued_in(self.queue@, old(self).queue@.len() as int, k) by {
                            assert(queued_in(before, old(self).queue@.len() as int, k));
                            let j = choose|j: int| old(self).queue@.len() <= j < before.len() && #[trigger] before[j].item@ == k && !(before[j].build is UnusedConst);
                            assert(self.queue@[j] == before[j]);
                        }
                    }
                }
                MetaKind::Const { value }
            },
        };
        let ghost pre = *self;
        proof {
            assert(!is_build_kind(kind@));
        }
        let r = self.finish(item, kind, source);
        proof {
            assert forall|k: Seq<ComponentView>| #[trigger] self.metas.view().contains_key(k) && !old(self).metas.view().contains_key(k)
                && is_build_kind(self.metas.view()[k].kind@) implies queued_in(self.queue@, old(self).queue@.len() as int, k) by {
                if k != item@ {
                    assert(pre.metas.view().contains_key(k));
                    assert(pre.metas.view()[k] == self.metas.view()[k]);
                }
            }
        }
        r
    }

    /// Cache the record of `item`, taken from the index, and return a copy.
    fn finish(&mut self, item: &Item, kind: MetaKind, source: CompileSource) -> (r: Result<Option<CompileMeta>, QueryError>)
        requires
            old(self).wf(),
            !old(self).indexed.view().contains_key(item@),
            !old(self).metas.view().contains_key(item@),
        ensures
            final(self).wf(),
            final(self).indexed == old(self).indexed,
            final(self).queue == old(self).queue,
            final(self).metas.view() == old(self).metas.view().insert(item@, final(self).metas.view()[item@]),
            r matches Ok(Some(m)) && m.item@ == item@ && m.kind@ == kind@ && m.source == source
                && final(self).metas.view()[item@]@ == m@,
    {
        let meta = CompileMeta { item: item.duplicate(), kind, source };
        let out = meta.duplicate();
        self.metas.insert(meta);
        Ok(Some(out))
    }

    /// Evaluate the constant `item` with a fresh budget, after resolving the
    /// constants that it refers to.
    #[verifier::rlimit(80)]
    fn eval_const(&mut self, item: &Item, ir: &Ir, stack: &Vec<Item>) -> (r: Result<i64, QueryError>)
        requires
            old(self).wf(),
            !old(self).indexed.view().contains_key(item@),
            !old(self).metas.view().contains_key(item@),
        ensures
            Query::query_frame(*old(self), *final(self)),
            !final(self).metas.view().contains_key(item@),
            r matches Ok(v) ==> const_resolved(*ir, final(self).metas.view(), MetaKindView::Const { value: v }),
            r is Ok ==> final(self).queue@ == old(self).queue@ && settled(*old(self), *final(self)),
            ir_refs(*ir).len() > 0 && ir_refs(*ir)[0].0 == item@ ==> (r matches Err(err) && err.span == ir_refs(*ir)[0].1
                && err.kind == (QueryErrorKind::IrError { error: IrErrorKind::BudgetExceeded })
                && same_state(*old(self), *final(self))),
            refs_ready(*ir, old(self).metas.view(), items_view(stack@)) ==> same_state(*old(self), *final(self))
                && match eval_spec(*ir, Seq::empty(), ref_values(*ir, old(self).metas.view()), DEFAULT_BUDGET as nat) {
                    Ok((v, _)) => r == Ok::<i64, QueryError>(v),
                    Err((k, sp)) => r matches Err(err) && err.span == sp && err.kind == (QueryErrorKind::IrError { error: k }),
                },
        decreases old(self).indexed.values().len(), 2nat,
    {
        let mut refs: Vec<(Item, Span)> = Vec::new();
        collect_refs(ir, &mut refs);
        proof {
            assert(refs_view(refs@) =~= ir_refs(*ir));
        }
        let mut inner: Vec<Item> = Vec::new();
        let mut j: usize = 0;
        while j < stack.len()
            invariant
                j <= stack@.len(),
                items_view(inner@) == items_view(stack@).subrange(0, j as int),
            decreases stack@.len() - j,
        {
            let ghost prev = inner@;
            let d = stack[j].duplicate();
            inner.push(d);
            proof {
                assert(inner@ == prev.push(d));
                assert(items_view(inner@) =~= items_view(prev).push(d@));
                assert(items_view(stack@).subrange(0, j as int + 1) =~= items_view(stack@).subrange(0, j as int).push(stack@[j as int]@));
            }
            j = j + 1;
        }
        let ghost sv = items_view(stack@);
        proof {
            assert(items_view(stack@).subrange(0, stack@.len() as int) =~= sv);
        }
        let ghost prev = inner@;
        let d = item.duplicate();
        inner.push(d);
        proof {
            assert(inner@ == prev.push(d));
            assert(items_view(inner@) =~= items_view(prev).push(d@));
        }
        let ghost ready = refs_ready(*ir, old(self).metas.view(), sv);
        let ghost vals = ref_values(*ir, old(self).metas.view());
        let mut table: Vec<(Item, i64)> = Vec::new();
        let mut i: usize = 0;
        proof {
            lemma_frame_refl(*self);
            assert(consts_view(table@) =~= vals.subrange(0, 0));
        }
        while i < refs.len()
            invariant
                old(self).wf(),
                !old(self).indexed.view().contains_key(item@),
                !old(self).metas.view().contains_key(item@),
                refs_view(refs@) == ir_refs(*ir),
                items_view(inner@) == sv.push(item@),
                sv == items_view(stack@),
                ready == refs_ready(*ir, old(self).metas.view(), sv),
                vals == ref_values(*ir, old(self).metas.view()),
                i <= refs@.len(),
                Query::query_frame(*old(self), *self),
                self.queue@ == old(self).queue@,
                settled(*old(self), *self),
                consts_in(consts_view(table@), self.metas.view()),
                i == 0 ==> same_state(*old(self), *self),
                ir_refs(*ir).len() > 0 && ir_refs(*ir)[0].0 == item@ ==> i == 0,
                ready ==> same_state(*old(self), *self) && consts_view(table@) == vals.subrange(0, i as int),
            decreases refs@.len() - i,
        {
            let r_item = &refs[i].0;
            let r_span = refs[i].1;
            proof {
                assert(refs_view(refs@)[i as int] == (r_item@, r_span));
                assert(ir_refs(*ir)[i as int].0 == r_item@);
                assert(items_view(inner@).len() == inner@.len());
                assert(inner@.len() == sv.len() + 1);
            }
            if contains_item(&inner, r_item) {
                proof {
                    if ready {
                        let w = choose|w: int| 0 <= w < inner@.len() && #[trigger] inner@[w]@ == r_item@;
                        assert(items_view(inner@)[w] == r_item@);
                        assert(old(self).metas.view().contains_key(ir_refs(*ir)[i as int].0));
                        if w < sv.len() {
                            assert(items_view(inner@)[w] == sv[w]);
                            assert(sv.contains(ir_refs(*ir)[i as int].0));
                        } else {
                            assert(items_view(inner@)[w] == item@);
                        }
                        assert(false);
                    }
                }
                return Err(QueryError::new(r_span, QueryErrorKind::IrError { error: IrErrorKind::BudgetExceeded }));
            }
            proof {
                if ir_refs(*ir).len() > 0 && ir_refs(*ir)[0].0 == item@ {
                    assert(items_view(inner@)[sv.len() as int] == item@);
                    assert(inner@[sv.len() as int]@ == item@);
                    assert(false);
                }
            }
            let ghost before = *self;
            let res = self.query_meta_with_use(r_item, Used::Used, &inner);
            proof {
                lemma_frame_trans(*old(self), before, *self);
                self.metas.lemma_keys();
                before.metas.lemma_keys();
                assert forall|j: int| 0 <= j < consts_view(table@).len() implies self.metas.view().contains_key(#[trigger] consts_view(table@)[j].0)
                    && self.metas.view()[consts_view(table@)[j].0].kind@ == (MetaKindView::Const { value: consts_view(table@)[j].1 }) by {
                    assert(before.metas.view().contains_key(consts_view(table@)[j].0));
                }
                assert forall|k: Seq<ComponentView>| #[trigger] old(self).indexed.view().contains_key(k) && !self.indexed.view().contains_key(k)
                    implies res is Err || self.metas.view().contains_key(k) by {
                    if res is Ok && before.indexed.view().contains_key(k) {
                        assert(settled(before, *self));
                    }
                }
            }
            match res {
                Err(e) => {
                    return Err(e);
                },
                Ok(None) => {
                    return Err(QueryError::new(r_span, QueryErrorKind::MissingType { item: r_item.duplicate() }));
                },
                Ok(Some(m)) => {
                    let tag = m.kind.tag();
                    match m.kind {
                        MetaKind::Const { value } => {
                            let ghost t0 = table@;
                            proof {
                                assert(self.metas.view().contains_key(r_item@));
                                assert(m.item@ == r_item@);
                                if ready {
                                    assert(vals[i as int] == (r_item@, value));
                                }
                            }
                            table.push((m.item, value));
                            proof {
                                assert(consts_view(table@) =~= consts_view(t0).push((r_item@, value)));
                                if ready {
                                    assert(vals.subrange(0, i as int + 1) =~= vals.subrange(0, i as int).push(vals[i as int]));
                                }
                            }
                        },
                        _ => {
                            return Err(QueryError::new(r_span, QueryErrorKind::ExpectedMeta { expected: MetaTag::Const, actual: tag }));
                        },
                    }
                },
            }
            i = i + 1;
        }
        let mut env: Vec<(String, i64)> = Vec::new();
        let mut budget: usize = DEFAULT_BUDGET;
        proof {
            assert(env_view(env@) =~= Seq::<(Seq<char>, i64)>::empty());
            if ready {
                assert(vals.subrange(0, refs@.len() as int) =~= vals);
            }
        }
        match eval_expr(ir, &mut env, &table, &mut budget) {
            Ok(v) => {
                proof {
                    assert(ok_value(eval_spec(*ir, Seq::empty(), consts_view(table@), DEFAULT_BUDGET as nat)) == Some(v));
                    assert(consts_in(consts_view(table@), self.metas.view()));
                }
                Ok(v)
            },
            Err((k, sp)) => Err(QueryError::new(sp, QueryErrorKind::IrError { error: k })),
        }
    }
}

/// The record of a declaration that was resolved only because nothing used
/// it, with where it was declared, for tooling to collect.
pub struct Visit {
    pub source_id: usize,
    pub meta: CompileMeta,
    pub span: Span,
}

/// Whether every pending declaration resolves without further queries.
pub open spec fn all_leaves(q: Query) -> bool {
    forall|k: Seq<ComponentView>| #[trigger] q.indexed.view().contains_key(k) ==> is_leaf(q.indexed.view()[k].1.indexed)
}

/// The outcome of indexing `entry` under `item`: a declaration under the
/// same item, pending or resolved, is a conflict that points at the first
/// declaration; so is a pending declaration with the same hash; otherwise
/// the entry joins the index.
pub open spec fn indexed_outcome(old_q: Query, new_q: Query, item: Item, entry: IndexedEntry, r: Result<(), QueryError>) -> bool {
    if old_q.indexed.view().contains_key(item@) {
        &&& r matches Err(e) && e.span == old_q.indexed.view()[item@].1.span && e.kind == (QueryErrorKind::ItemConflict { existing: item })
        &&& new_q == old_q
    } else if old_q.metas.view().contains_key(item@) {
        &&& r matches Err(e) && e.span == old_q.metas.view()[item@].source.span && e.kind == (QueryErrorKind::ItemConflict { existing: item })
        &&& new_q == old_q
    } else if exists|k: Seq<ComponentView>| #[trigger] old_q.indexed.view().contains_key(k) && hash_path(k) == hash_path(item@) {
        &&& r matches Err(e) && e.span == entry.span && e.kind is HashConflict
        &&& new_q == old_q
    } else {
        &&& r is Ok
        &&& new_q.wf()
        &&& new_q.indexed.view() == old_q.indexed.view().insert(item@, (item, entry))
        &&& new_q.metas == old_q.metas
        &&& new_q.queue == old_q.queue
    }
}

impl Query {
    /// Index the given declaration.
    pub fn index(&mut self, item: Item, entry: IndexedEntry) -> (r: Result<(), QueryError>)
        requires
            old(self).wf(),
        ensures
            final(self).wf(),
            indexed_outcome(*old(self), *final(self), item, entry, r),
    {
        proof {
            self.indexed.lemma_keys();
            self.metas.lemma_keys();
        }
        match self.indexed.get(&item) {
            Some(old_entry) => {
                return Err(QueryError::new(old_entry.1.span, QueryErrorKind::ItemConflict { existing: item }));
            },
            None => {},
        }
        match self.metas.get(&item) {
            Some(meta) => {
                return Err(QueryError::new(meta.source.span, QueryErrorKind::ItemConflict { existing: item }));
            },
            None => {},
        }
        let h = item.hash();
        let n = self.indexed.len();
        proof {
            self.indexed.lemma_len();
        }
        let mut i: usize = 0;
        while i < n
            invariant
                n == self.indexed.values().len(),
                i <= n,
                h == hash_path(item@),
                self.wf(),
                *self == *old(self),
                !self.indexed.view().contains_key(item@),
                !self.metas.view().contains_key(item@),
                forall|j: int| 0 <= j < i ==> hash_path(#[trigger] self.indexed.values()[j].key()) != h,
            decreases n - i,
        {
            let other = self.indexed.at(i);
            if other.0.hash() == h {
                proof {
                    self.indexed.lemma_values(i as int);
                    let k = self.indexed.values()[i as int].key();
                    assert(self.indexed.view().contains_key(k) && hash_path(k) == hash_path(item@));
                }
                return Err(QueryError::new(entry.span, QueryErrorKind::HashConflict { existing: other.0.duplicate() }));
            }
            i = i + 1;
        }
        proof {
            assert forall|k: Seq<ComponentView>| #[trigger] self.indexed.view().contains_key(k) implies hash_path(k) != h by {
                self.indexed.lemma_values_cover(k);
                let j = choose|j: int| 0 <= j < self.indexed.values().len() && #[trigger] self.indexed.values()[j].key() == k;
                assert(hash_path(self.indexed.values()[j].key()) != h);
            }
        }
        self.indexed.insert((item, entry));
        Ok(())
    }

    /// Index a constant expression.
    pub fn index_const(&mut self, item: Item, source_id: usize, ir: Ir, span: Span) -> (r: Result<(), QueryError>)
        requires
            old(self).wf(),
        ensures
            final(self).wf(),
            indexed_outcome(*old(self), *final(self), item,
                IndexedEntry { span, source_id, indexed: Indexed::Const(Const { ir }) }, r),
    {
        self.index(item, IndexedEntry { span, source_id, indexed: Indexed::Const(Const { ir }) })
    }

    /// Add a new enum item.
    pub fn index_enum(&mut self, item: Item, source_id: usize, span: Span) -> (r: Result<(), QueryError>)
        requires
            old(self).wf(),
        ensures
            final(self).wf(),
            indexed_outcome(*old(self), *final(self), item, IndexedEntry { span, source_id, indexed: Indexed::Enum }, r),
    {
        self.index(item, IndexedEntry { span, source_id, indexed: Indexed::Enum })
    }

    /// Add a new struct item that can be queried.
    pub fn index_struct(&mut self, item: Item, body: StructBody, source_id: usize, span: Span) -> (r: Result<(), QueryError>)
        requires
            old(self).wf(),
        ensures
            final(self).wf(),
            indexed_outcome(*old(self), *final(self), item,
                IndexedEntry { span, source_id, indexed: Indexed::Struct(Struct { body }) }, r),
    {
        self.index(item, IndexedEntry { span, source_id, indexed: Indexed::Struct(Struct::new(body)) })
    }

    /// Add a new variant item that can be queried.
    pub fn index_variant(&mut self, item: Item, enum_item: Item, body: StructBody, source_id: usize, span: Span) -> (r: Result<(), QueryError>)
        requires
            old(self).wf(),
        ensures
            final(self).wf(),
            indexed_outcome(*old(self), *final(self), item,
                IndexedEntry { span, source_id, indexed: Indexed::Variant(Variant { enum_item, body }) }, r),
    {
        self.index(item, IndexedEntry { span, source_id, indexed: Indexed::Variant(Variant::new(enum_item, body)) })
    }

    /// Add a new function that can be queried for.
    pub fn index_function(&mut self, item: Item, ast: ItemFn, call: Call, source_id: usize) -> (r: Result<(), QueryError>)
        requires
            old(self).wf(),
        ensures
            final(self).wf(),
            indexed_outcome(*old(self), *final(self), item,
                IndexedEntry { span: ast.span, source_id, indexed: Indexed::Function(Function { ast, call }) }, r),
    {
        let span = ast.span;
        self.index(item, IndexedEntry { span, source_id, indexed: Indexed::Function(Function { ast, call }) })
    }

    /// Add a new closure that can be queried for.
    pub fn index_closure(&mut self, item: Item, ast: ExprClosure, captures: Vec<Capture>, call: Call, source_id: usize) -> (r: Result<(), QueryError>)
        requires
            old(self).wf(),
        ensures
            final(self).wf(),
            indexed_outcome(*old(self), *final(self), item,
                IndexedEntry { span: ast.span, source_id, indexed: Indexed::Closure(Closure { ast, captures, call }) }, r),
    {
        let span = ast.span;
        self.index(item, IndexedEntry { span, source_id, indexed: Indexed::Closure(Closure { ast, captures, call }) })
    }

    /// Add a new async block.
    pub fn index_async_block(&mut self, item: Item, ast: Block, captures: Vec<Capture>, call: Call, source_id: usize) -> (r: Result<(), QueryError>)
        requires
            old(self).wf(),
        ensures
            final(self).wf(),
            indexed_outcome(*old(self), *final(self), item,
                IndexedEntry { span: ast.span, source_id, indexed: Indexed::AsyncBlock(AsyncBlock { ast, captures, call }) }, r),
    {
        let span = ast.span;
        self.index(item, IndexedEntry { span, source_id, indexed: Indexed::AsyncBlock(AsyncBlock { ast, captures, call }) })
    }

    /// A copy of what the index holds, in insertion order: each item with
    /// its span and source id.
    pub fn iter_snapshot(&self) -> (r: Vec<(Item, Span, usize)>)
        requires
            self.wf(),
        ensures
            r@.len() == self.indexed.values().len(),
            r@.len() == self.indexed.view().dom().len(),
            forall|j: int| 0 <= j < r@.len() ==> (#[trigger] r@[j]).0@ == self.indexed.values()[j].key(),
            forall|j: int| 0 <= j < r@.len() ==> (#[trigger] r@[j]).1 == self.indexed.values()[j].1.span,
            forall|j: int| 0 <= j < r@.len() ==> (#[trigger] r@[j]).2 == self.indexed.values()[j].1.source_id,
    {
        proof {
            self.indexed.lemma_len();
        }
        let n = self.indexed.len();
        let mut out: Vec<(Item, Span, usize)> = Vec::new();
        let mut i: usize = 0;
        while i < n
            invariant
                n == self.indexed.values().len(),
                i <= n,
                out@.len() == i,
                forall|j: int| 0 <= j < i ==> (#[trigger] out@[j]).0@ == self.indexed.values()[j].key(),
                forall|j: int| 0 <= j < i ==> (#[trigger] out@[j]).1 == self.indexed.values()[j].1.span,
                forall|j: int| 0 <= j < i ==> (#[trigger] out@[j]).2 == self.indexed.values()[j].1.source_id,
            decreases n - i,
        {
            let e = self.indexed.at(i);
            out.push((e.0.duplicate(), e.1.span, e.1.source_id));
            i = i + 1;
        }
        out
    }

    /// Resolve, marked unused, every declaration still in the index, in
    /// index order, and append one visit per declaration to `visits`, with
    /// its source id, span and record. Returns whether there were any; after
    /// a successful pass the index is empty and every declaration that was
    /// pending is cached. An error comes back with the source id of the
    /// declaration whose resolution failed.
    pub fn queue_unused_entries(&mut self, visits: &mut Vec<Visit>) -> (r: Result<bool, (usize, QueryError)>)
        requires
            old(self).wf(),
        ensures
            Query::query_frame(*old(self), *final(self)),
            old(self).indexed.view().dom().len() == 0 ==> r == Ok::<bool, (usize, QueryError)>(false),
            r == Ok::<bool, (usize, QueryError)>(false) ==> same_state(*old(self), *final(self)) && final(visits)@ == old(visits)@,
            all_leaves(*old(self)) ==> r is Ok,
            all_leaves(*old(self)) ==> forall|j: int| old(self).queue@.len() <= j < final(self).queue@.len()
                ==> (#[trigger] final(self).queue@[j]).used == Used::Unused,
            r matches Ok(b) ==> final(self).indexed.view().dom().len() == 0
                && (b <==> old(self).indexed.view().dom().len() > 0)
                && settled(*old(self), *final(self))
                && final(visits)@.len() == old(visits)@.len() + old(self).indexed.values().len()
                && final(visits)@.subrange(0, old(visits)@.len() as int) == old(visits)@
                && forall|j: int| 0 <= j < old(self).indexed.values().len() ==> {
                    let k = old(self).indexed.values()[j].key();
                    let v = #[trigger] final(visits)@[old(visits)@.len() + j];
                    &&& v.source_id == old(self).indexed.values()[j].1.source_id
                    &&& v.span == old(self).indexed.values()[j].1.span
                    &&& final(self).metas.view().contains_key(k)
                    &&& v.meta@ == final(self).metas.view()[k]@
                },
            r matches Err((sid, _)) ==> exists|j: int| 0 <= j < old(self).indexed.values().len()
                && #[trigger] old(self).indexed.values()[j].1.source_id == sid,
    {
        proof {
            self.indexed.lemma_len();
            self.indexed.lemma_keys();
            lemma_frame_refl(*self);
        }
        let unused = self.iter_snapshot();
        let n = unused.len();
        if n == 0 {
            proof {
                assert(self.indexed.view().dom() =~= Set::<Seq<ComponentView>>::empty());
            }
            return Ok(false);
        }
        let ghost start = *self;
        let ghost v0 = visits@;
        let ghost leaves = all_leaves(start);
        let stack: Vec<Item> = Vec::new();
        proof {
            assert(items_view(stack@) =~= Seq::<Seq<ComponentView>>::empty());
        }
        let mut i: usize = 0;
        while i < n
            invariant
                n == start.indexed.values().len(),
                unused@.len() == n,
                i <= n,
                start == *old(self),
                start.wf(),
                v0 == old(visits)@,
                leaves == all_leaves(start),
                items_view(stack@) == Seq::<Seq<ComponentView>>::empty(),
                start.indexed.view().dom().len() == n,
                n > 0,
                forall|j: int| 0 <= j < n ==> (#[trigger] unused@[j]).0@ == start.indexed.values()[j].key(),
                forall|j: int| 0 <= j < n ==> (#[trigger] unused@[j]).1 == start.indexed.values()[j].1.span,
                forall|j: int| 0 <= j < n ==> (#[trigger] unused@[j]).2 == start.indexed.values()[j].1.source_id,
                Query::query_frame(start, *self),
                settled(start, *self),
                forall|j: int| 0 <= j < i ==> !self.indexed.view().contains_key(#[trigger] unused@[j].0@),
                leaves ==> forall|k: Seq<ComponentView>| #[trigger] self.indexed.view().contains_key(k)
                    ==> start.indexed.view().contains_key(k) && self.indexed.view()[k] == start.indexed.view()[k],
                leaves ==> forall|j: int| start.queue@.len() <= j < self.queue@.len() ==> (#[trigger] self.queue@[j]).used == Used::Unused,
                visits@.len() == v0.len() + i,
                visits@.subrange(0, v0.len() as int) == v0,
                forall|j: int| 0 <= j < i ==> {
                    let k = unused@[j].0@;
                    let v = #[trigger] visits@[v0.len() + j];
                    &&& v.source_id == unused@[j].2
                    &&& v.span == unused@[j].1
                    &&& self.metas.view().contains_key(k)
                    &&& v.meta@ == self.metas.view()[k]@
                },
            decreases n - i,
        {
            let ghost before = *self;
            let ghost k = unused@[i as int].0@;
            proof {
                start.indexed.lemma_values(i as int);
            }
            let res = self.query_meta_with_use(&unused[i].0, Used::Unused, &stack);
            proof {
                lemma_frame_trans(start, before, *self);
                before.metas.lemma_keys();
                if leaves && before.indexed.view().contains_key(k) && !before.metas.view().contains_key(k) {
                    assert(is_leaf(start.indexed.view()[k].1.indexed));
                }
            }
            match res {
                Err(e) => {
                    proof {
                        assert(start.indexed.values()[i as int].1.source_id == unused@[i as int].2);
                    }
                    return Err((unused[i].2, e));
                },
                Ok(Some(meta)) => {
                    let ghost vb = visits@;
                    visits.push(Visit { source_id: unused[i].2, meta, span: unused[i].1 });
                    proof {
                        assert(settled(start, *self)) by {
                            assert forall|q: Seq<ComponentView>| #[trigger] start.indexed.view().contains_key(q) && !self.indexed.view().contains_key(q)
                                implies self.metas.view().contains_key(q) by {
                                if before.indexed.view().contains_key(q) {
                                    assert(settled(before, *self));
                                } else {
                                    assert(before.metas.view().contains_key(q));
                                }
                            }
                        }
                        assert(self.metas.view().contains_key(k));
                        assert(visits@.subrange(0, v0.len() as int) =~= vb.subrange(0, v0.len() as int));
                        assert forall|j: int| 0 <= j < i + 1 implies {
                            let kk = unused@[j].0@;
                            let v = #[trigger] visits@[v0.len() + j];
                            &&& v.source_id == unused@[j].2
                            &&& v.span == unused@[j].1
                            &&& self.metas.view().contains_key(kk)
                            &&& v.meta@ == self.metas.view()[kk]@
                        } by {
                            if j < i {
                                assert(visits@[v0.len() + j] == vb[v0.len() + j]);
                                assert(before.metas.view().contains_key(unused@[j].0@));
                            }
                        }
                        if leaves {
                            assert forall|j: int| start.queue@.len() <= j < self.queue@.len() implies (#[trigger] self.queue@[j]).used == Used::Unused by {
                                if j < before.queue@.len() {
                                    assert(self.queue@.subrange(0, before.queue@.len() as int)[j] == before.queue@[j]);
                                }
                            }
                            assert forall|q: Seq<ComponentView>| #[trigger] self.indexed.view().contains_key(q)
                                implies start.indexed.view().contains_key(q) && self.indexed.view()[q] == start.indexed.view()[q] by {
                                assert(before.indexed.view().contains_key(q));
                            }
                        }
                    }
                },
                Ok(None) => {
                    proof {
                        assert(start.indexed.view().contains_key(k));
                        assert(false);
                    }
                },
            }
            i = i + 1;
        }
        proof {
            assert forall|q: Seq<ComponentView>| !#[trigger] self.indexed.view().contains_key(q) by {
                if self.indexed.view().contains_key(q) {
                    assert(start.indexed.view().contains_key(q));
                    start.indexed.lemma_values_cover(q);
                    let j = choose|j: int| 0 <= j < start.indexed.values().len() && #[trigger] start.indexed.values()[j].key() == q;
                    assert(unused@[j].0@ == q);
                }
            }
            assert(self.indexed.view().dom() =~= Set::<Seq<ComponentView>>::empty());
        }
        Ok(true)
    }
}

/// A query that changes nothing meets the frame.
pub proof fn lemma_frame_refl(a: Query)
    requires
        a.wf(),
    ensures
        Query::query_frame(a, a),
{
    assert(a.queue@.subrange(0, a.queue@.len() as int) =~= a.queue@);
}

/// Queries compose: what holds of each of two queries in a row holds of
/// the pair.
pub proof fn lemma_frame_trans(a: Query, b: Query, c: Query)
    requires
        Query::query_frame(a, b),
        Query::query_frame(b, c),
    ensures
        Query::query_frame(a, c),
{
    assert(c.queue@.subrange(0, a.queue@.len() as int) =~= c.queue@.subrange(0, b.queue@.len() as int).subrange(0, a.queue@.len() as int));
    assert forall|k: Seq<ComponentView>| #[trigger] c.metas.view().contains_key(k) && !a.metas.view().contains_key(k)
        && is_build_kind(c.metas.view()[k].kind@) implies queued_in(c.queue@, a.queue@.len() as int, k) by {
        if b.metas.view().contains_key(k) {
            assert(queued_in(b.queue@, a.queue@.len() as int, k));
            let j = choose|j: int| a.queue@.len() <= j < b.queue@.len() && #[trigger] b.queue@[j].item@ == k && !(b.queue@[j].build is UnusedConst);
            assert(c.queue@.subrange(0, b.queue@.len() as int)[j] == b.queue@[j]);
            assert(c.queue@[j].item@ == k);
        } else {
            assert(queued_in(c.queue@, b.queue@.len() as int, k));
            let j = choose|j: int| b.queue@.len() <= j < c.queue@.len() && #[trigger] c.queue@[j].item@ == k && !(c.queue@[j].build is UnusedConst);
            assert(c.queue@[j].item@ == k);
        }
    }
}

/// Resolution is idempotent: once a query of `item` has succeeded, the
/// item is no longer in the index, and a second query returns an equal
/// record and changes nothing.
pub proof fn lemma_idempotent_meta(
    q0: Query,
    q1: Query,
    q2: Query,
    item: Seq<ComponentView>,
    r1: Result<Option<CompileMeta>, QueryError>,
    r2: Result<Option<CompileMeta>, QueryError>,
)
    requires
        q0.wf(),
        Query::query_frame(q0, q1),
        Query::resolved(q0, q1, item, Used::Used, r1),
        r1 matches Ok(Some(_)),
        Query::query_frame(q1, q2),
        Query::resolved(q1, q2, item, Used::Used, r2),
    ensures
        q1.metas.view().contains_key(item),
        !q1.indexed.view().contains_key(item),
        r2 matches Ok(Some(m2)) && m2@ == r1->Ok_0->Some_0@,
        q2.indexed.view() == q1.indexed.view(),
        q2.metas.view() == q1.metas.view(),
        q2.queue@ == q1.queue@,
{
}

/// The capture list of a resolved closure is the one on the build entry
/// that resolution queued.
pub proof fn lemma_capture_stability(
    q0: Query,
    q1: Query,
    item: Seq<ComponentView>,
    used: Used,
    r: Result<Option<CompileMeta>, QueryError>,
)
    requires
        q0.wf(),
        !q0.metas.view().contains_key(item),
        q0.indexed.view().contains_key(item),
        q0.indexed.view()[item].1.indexed is Closure,
        Query::query_frame(q0, q1),
        Query::resolved(q0, q1, item, used, r),
    ensures
        r matches Ok(Some(m)),
        q1.queue@.len() > 0,
        q1.queue@.last().build is Closure,
        q1.queue@.last().build->Closure_0.captures == q0.indexed.view()[item].1.indexed->Closure_0.captures,
        r->Ok_0->Some_0.kind@ is Closure,
        r->Ok_0->Some_0.kind@->Closure_captures == captures_view(q1.queue@.last().build->Closure_0.captures@),
{
}

/// Distinct declarations that sit in the index together, such as the
/// anonymous closures of one parent, have distinct hashes: indexing refuses
/// a colliding one.
pub proof fn lemma_indexed_hashes_distinct(q: Query, a: Seq<ComponentView>, b: Seq<ComponentView>)
    requires
        q.wf(),
        q.indexed.view().contains_key(a),
        q.indexed.view().contains_key(b),
        a != b,
    ensures
        hash_path(a) != hash_path(b),
{
}

/// Resolving the same constant twice, from two contexts that hold the same
/// records and whose references are all resolved, gives the same outcome:
/// the same value, or the same error at the same span.
pub proof fn lemma_const_query_determinism(
    a0: Query,
    a1: Query,
    b0: Query,
    b1: Query,
    item: Seq<ComponentView>,
    used: Used,
    ra: Result<Option<CompileMeta>, QueryError>,
    rb: Result<Option<CompileMeta>, QueryError>,
)
    requires
        a0.indexed.view().contains_key(item),
        b0.indexed.view().contains_key(item),
        !a0.metas.view().contains_key(item),
        !b0.metas.view().contains_key(item),
        a0.indexed.view()[item].1.indexed is Const,
        b0.indexed.view()[item].1.indexed is Const,
        a0.indexed.view()[item].1.indexed->Const_0.ir == b0.indexed.view()[item].1.indexed->Const_0.ir,
        a0.metas.view() == b0.metas.view(),
        refs_ready(a0.indexed.view()[item].1.indexed->Const_0.ir, a0.metas.view(), Seq::empty()),
        pending_outcome(a0, a1, item, used, Seq::empty(), ra),
        pending_outcome(b0, b1, item, used, Seq::empty(), rb),
    ensures
        ra is Ok <==> rb is Ok,
        ra is Ok ==> ra->Ok_0 is Some && rb->Ok_0 is Some && ra->Ok_0->Some_0.kind@ == rb->Ok_0->Some_0.kind@,
        ra is Err ==> ra->Err_0.kind == rb->Err_0.kind && ra->Err_0.span == rb->Err_0.span,
{
}

} // verus!
