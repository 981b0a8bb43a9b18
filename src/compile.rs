//! The code emitter: walks the bodies that the build queue hands out and
//! appends instructions, and the drive loop that runs the queue to a fixed
//! point.
use vstd::prelude::*;
use crate::ast::{Expr, FnArg, Span};
use crate::error::{MetaTag, QueryError, QueryErrorKind, UnitBuilderError};
use crate::item::{hash_path, ComponentView, Item};
use crate::meta::{captures_view, tag_of, Build, BuildEntry, Capture, CompileMeta, MetaKind, MetaKindView};
use crate::query::{is_build_kind, is_leaf, queued_in, same_state, Query, Visit};
use crate::scopes::{last_slot, Scopes};

verus! {

/// An instruction of the virtual machine.
#[derive(Clone, Copy, Debug, PartialEq, Eq, Structural)]
pub enum Inst {
    /// Unpack the closure environment, a tuple on top of the stack.
    PushTuple,
    /// Drop `count` locals below the value on top of the stack.
    Clean { count: usize },
    /// Return the value on top of the stack.
    Return,
    /// Push a reference to the function with this hash.
    LoadFn { hash: u64 },
    /// Pop `count` values and package them with the function with this hash.
    Closure { hash: u64, count: usize },
    /// Push a copy of the local at `slot`.
    Copy { slot: usize },
    /// Push an integer.
    Integer { value: i64 },
    /// Pop a function value and call it with `args` arguments.
    CallFn { args: usize },
}

/// A compiled function of the unit.
pub struct UnitFn {
    pub item: Item,
    pub hash: u64,
    pub insts: Vec<Inst>,
}

/// The compiled functions, in the order their bodies were emitted.
pub struct Unit {
    pub functions: Vec<UnitFn>,
}

/// Whether `u` holds the compiled body of `item`.
pub open spec fn unit_has(u: Seq<UnitFn>, item: Seq<ComponentView>) -> bool {
    exists|j: int| 0 <= j < u.len() && #[trigger] u[j].item@ == item
}

/// The copies that move each capture from its slot in the enclosing
/// function onto the stack.
pub open spec fn capture_copies(vars: Seq<Option<Seq<char>>>, caps: Seq<Seq<char>>) -> Seq<Inst> {
    Seq::new(caps.len(), |j: int| Inst::Copy { slot: last_slot(vars, caps[j])->Some_0 as usize })
}

/// Whether no name occurs twice among the declared names of `s`.
pub open spec fn distinct_names(s: Seq<Option<Seq<char>>>) -> bool {
    forall|a: int, b: int| 0 <= a < b < s.len() && (#[trigger] s[b]) is Some ==> #[trigger] s[a] != s[b]
}

/// The instructions of a body: `before`, a `PushTuple` when there is an
/// environment, the body's own instructions, `Clean` of `count` slots when
/// there are any, and `Return`.
pub open spec fn body_code(before: Seq<Inst>, inner: Seq<Inst>, count: nat, env: bool) -> Seq<Inst> {
    (if env { before.push(Inst::PushTuple) } else { before }) + inner
        + (if count > 0 { seq![Inst::Clean { count: count as usize }] } else { Seq::empty() })
        + seq![Inst::Return]
}

/// Whether the body that `b` asks for compiles in a fresh function, with
/// the records `metas`: no `self` among a closure's parameters, no name
/// declared twice, and a body that compiles.
pub open spec fn build_ok(metas: Map<Seq<ComponentView>, CompileMeta>, b: Build) -> bool {
    match b {
        Build::Function(f) => distinct_names(params_view(f.ast.args@))
            && expr_ok(metas, params_view(f.ast.args@), f.ast.body),
        Build::Closure(c) => (forall|i: int| 0 <= i < c.ast.args@.len() ==> !(#[trigger] c.ast.args@[i] is SelfValue))
            && distinct_names(params_view(c.ast.args@) + capture_vars(c.captures@))
            && expr_ok(metas, params_view(c.ast.args@) + capture_vars(c.captures@), c.ast.body),
        Build::AsyncBlock(a) => distinct_names(capture_vars(a.captures@))
            && expr_ok(metas, capture_vars(a.captures@), a.ast.body),
        Build::UnusedConst(_) => true,
    }
}

/// The instructions of the function that `b` asks for.
pub open spec fn build_code(metas: Map<Seq<ComponentView>, CompileMeta>, b: Build) -> Seq<Inst> {
    match b {
        Build::Function(f) => body_code(Seq::empty(), expr_code(metas, params_view(f.ast.args@), f.ast.body),
            f.ast.args@.len(), false),
        Build::Closure(c) => body_code(Seq::empty(), expr_code(metas, params_view(c.ast.args@) + capture_vars(c.captures@), c.ast.body),
            c.ast.args@.len() + c.captures@.len(), c.captures@.len() > 0),
        Build::AsyncBlock(a) => body_code(Seq::empty(), expr_code(metas, capture_vars(a.captures@), a.ast.body),
            a.captures@.len(), a.captures@.len() > 0),
        Build::UnusedConst(_) => Seq::empty(),
    }
}

/// The items whose bodies the entries of `q` emit, in order: all but
/// unused constants.
pub open spec fn emitted(q: Seq<BuildEntry>) -> Seq<Seq<ComponentView>>
    decreases q.len(),
{
    if q.len() == 0 {
        Seq::empty()
    } else {
        emitted(q.drop_last()) + if q.last().build is UnusedConst {
            Seq::<Seq<ComponentView>>::empty()
        } else {
            seq![q.last().item@]
        }
    }
}

/// The items of the compiled functions, in order.
pub open spec fn unit_items(fs: Seq<UnitFn>) -> Seq<Seq<ComponentView>> {
    fs.map_values(|f: UnitFn| f.item@)
}

/// What a sequence of entries emits is what its parts emit, in order.
pub proof fn lemma_emitted_append(a: Seq<BuildEntry>, b: Seq<BuildEntry>)
    ensures
        emitted(a + b) == emitted(a) + emitted(b),
    decreases b.len(),
{
    if b.len() == 0 {
        assert(a + b =~= a);
        assert(emitted(b) =~= Seq::<Seq<ComponentView>>::empty());
        assert(emitted(a) + emitted(b) =~= emitted(a));
    } else {
        lemma_emitted_append(a, b.drop_last());
        assert((a + b).drop_last() =~= a + b.drop_last());
        assert((a + b).last() == b.last());
        let tail = if b.last().build is UnusedConst { Seq::<Seq<ComponentView>>::empty() } else { seq![b.last().item@] };
        assert(emitted(a) + emitted(b.drop_last()) + tail =~= emitted(a) + (emitted(b.drop_last()) + tail));
    }
}

/// The capture names of a cached closure record.
pub open spec fn closure_caps(metas: Map<Seq<ComponentView>, CompileMeta>, item: Seq<ComponentView>) -> Seq<Seq<char>> {
    metas[item].kind@->Closure_captures
}

/// Whether `e` compiles in the slots `vars`, with the records `metas`:
/// every variable it reads is declared, and every closure it constructs is
/// a cached closure whose captures are all declared.
pub open spec fn expr_ok(metas: Map<Seq<ComponentView>, CompileMeta>, vars: Seq<Option<Seq<char>>>, e: Expr) -> bool
    decreases e,
{
    match e {
        Expr::Integer(_, _) => true,
        Expr::Var(name, _) => last_slot(vars, name@) is Some,
        Expr::Closure(item, _) => metas.contains_key(item@) && metas[item@].kind@ is Closure
            && forall|j: int| 0 <= j < closure_caps(metas, item@).len() ==> #[trigger] last_slot(vars, closure_caps(metas, item@)[j]) is Some,
        Expr::Let { name, span: _, value, body } => expr_ok(metas, vars, *value) && expr_ok(metas, vars.push(Some(name@)), *body),
        Expr::Call(callee, _) => expr_ok(metas, vars, *callee),
    }
}

/// The instructions that `e` compiles to in the slots `vars`, with the
/// records `metas`.
pub open spec fn expr_code(metas: Map<Seq<ComponentView>, CompileMeta>, vars: Seq<Option<Seq<char>>>, e: Expr) -> Seq<Inst>
    decreases e,
{
    match e {
        Expr::Integer(v, _) => seq![Inst::Integer { value: v }],
        Expr::Var(name, _) => seq![Inst::Copy { slot: last_slot(vars, name@)->Some_0 as usize }],
        Expr::Closure(item, _) => {
            let caps = closure_caps(metas, item@);
            if caps.len() == 0 {
                seq![Inst::LoadFn { hash: hash_path(item@) }]
            } else {
                capture_copies(vars, caps) + seq![Inst::Closure { hash: hash_path(item@), count: caps.len() as usize }]
            }
        },
        Expr::Let { name, span: _, value, body } => expr_code(metas, vars, *value)
            + expr_code(metas, vars.push(Some(name@)), *body) + seq![Inst::Clean { count: 1 }],
        Expr::Call(callee, _) => expr_code(metas, vars, *callee) + seq![Inst::CallFn { args: 0 }],
    }
}

/// Caching more records keeps what compiles, and what it compiles to.
pub proof fn lemma_expr_stable(
    m1: Map<Seq<ComponentView>, CompileMeta>,
    m2: Map<Seq<ComponentView>, CompileMeta>,
    vars: Seq<Option<Seq<char>>>,
    e: Expr,
)
    requires
        expr_ok(m1, vars, e),
        forall|k: Seq<ComponentView>| #[trigger] m1.contains_key(k) ==> m2.contains_key(k) && m2[k] == m1[k],
    ensures
        expr_ok(m2, vars, e),
        expr_code(m2, vars, e) == expr_code(m1, vars, e),
    decreases e,
{
    match e {
        Expr::Let { name, span: _, value, body } => {
            lemma_expr_stable(m1, m2, vars, *value);
            lemma_expr_stable(m1, m2, vars.push(Some(name@)), *body);
        },
        Expr::Call(callee, _) => {
            lemma_expr_stable(m1, m2, vars, *callee);
        },
        Expr::Closure(item, _) => {
            assert(m2[item@] == m1[item@]);
        },
        _ => {},
    }
}

/// The names that a parameter list declares, `None` for `_`.
pub open spec fn params_view(args: Seq<FnArg>) -> Seq<Option<Seq<char>>> {
    args.map_values(|a: FnArg| match a {
        FnArg::Ident(s, _) => Some(s@),
        FnArg::SelfValue(_) => Some("self"@),
        FnArg::Ignore(_) => None,
    })
}

/// The names that a capture list declares.
pub open spec fn capture_vars(caps: Seq<Capture>) -> Seq<Option<Seq<char>>> {
    caps.map_values(|c: Capture| Some(c.ident@))
}

impl Unit {
    /// An empty unit.
    pub fn new() -> (r: Unit)
        ensures
            r.functions@.len() == 0,
    {
        Unit { functions: Vec::new() }
    }

    /// Add a compiled function; one whose hash is taken is an error.
    pub fn insert_fn(&mut self, f: UnitFn) -> (r: Result<(), UnitBuilderError>)
        ensures
            r is Ok <==> forall|j: int| 0 <= j < old(self).functions@.len() ==> #[trigger] old(self).functions@[j].hash != f.hash,
            r is Ok ==> final(self).functions@ == old(self).functions@.push(f),
            r is Err ==> r == Err::<(), UnitBuilderError>(UnitBuilderError::FunctionConflict { hash: f.hash })
                && final(self).functions@ == old(self).functions@,
    {
        let mut i: usize = 0;
        while i < self.functions.len()
            invariant
                i <= self.functions@.len(),
                forall|j: int| 0 <= j < i ==> #[trigger] self.functions@[j].hash != f.hash,
            decreases self.functions@.len() - i,
        {
            if self.functions[i].hash == f.hash {
                return Err(UnitBuilderError::FunctionConflict { hash: f.hash });
            }
            i = i + 1;
        }
        self.functions.push(f);
        Ok(())
    }
}

/// The emitter's state: the query engine, the unit under construction, and
/// the scopes and instructions of the body being emitted.
pub struct Compiler {
    pub query: Query,
    pub unit: Unit,
    pub scopes: Scopes,
    pub code: Vec<Inst>,
}

impl Compiler {
    /// Every resolved function, closure and async block is either waiting in
    /// the build queue or compiled into the unit.
    pub open spec fn builds_done(&self) -> bool {
        forall|k: Seq<ComponentView>| #[trigger] self.query.metas.view().contains_key(k)
            && is_build_kind(self.query.metas.view()[k].kind@)
            ==> queued_in(self.query.queue@, 0, k) || unit_has(self.unit.functions@, k)
    }

    pub open spec fn wf(&self) -> bool {
        self.query.wf() && self.scopes.wf() && self.builds_done()
    }

    /// A compiler over the declarations indexed in `query`, none of them
    /// resolved yet.
    pub fn new(query: Query) -> (r: Compiler)
        requires
            query.wf(),
            query.metas.view().dom().len() == 0,
            query.queue@.len() == 0,
        ensures
            r.wf(),
            r.query == query,
            r.unit.functions@.len() == 0,
            r.code@.len() == 0,
            r.scopes.vars().len() == 0,
            r.scopes.frames().len() == 1,
    {
        proof {
            query.metas.lemma_len();
            assert forall|k: Seq<ComponentView>| !#[trigger] query.metas.view().contains_key(k) by {
                if query.metas.view().contains_key(k) {
                    assert(query.metas.view().dom().contains(k));
                }
            }
        }
        Compiler { query, unit: Unit::new(), scopes: Scopes::new(), code: Vec::new() }
    }

    /// Emit the construction of the closure `item` at a use site: a bare
    /// function reference when it captures nothing, else a copy of each
    /// capture from the enclosing scopes and a `Closure` instruction.
    pub fn compile_closure_expr(&mut self, item: &Item, span: Span) -> (r: Result<(), QueryError>)
        requires
            old(self).query.wf(),
            old(self).scopes.wf(),
        ensures
            Query::query_frame(old(self).query, final(self).query),
            final(self).scopes == old(self).scopes,
            final(self).unit == old(self).unit,
            final(self).code@.len() >= old(self).code@.len(),
            final(self).code@.subrange(0, old(self).code@.len() as int) == old(self).code@,
            !final(self).query.metas.view().contains_key(item@) ==> r is Err,
            old(self).query.indexed.view().contains_key(item@) && is_leaf(old(self).query.indexed.view()[item@].1.indexed)
                ==> final(self).query.metas.view().contains_key(item@),
            old(self).query.metas.view().contains_key(item@) ==> same_state(old(self).query, final(self).query),
            !old(self).query.indexed.view().contains_key(item@) && !old(self).query.metas.view().contains_key(item@)
                ==> (r matches Err(e) && e.span == span && e.kind is MissingType) && final(self).code == old(self).code,
            final(self).query.metas.view().contains_key(item@) && !(final(self).query.metas.view()[item@].kind@ is Closure)
                ==> (r matches Err(e) && e.span == span
                && e.kind == (QueryErrorKind::ExpectedMeta { expected: MetaTag::Closure, actual: tag_of(final(self).query.metas.view()[item@].kind@) }))
                && final(self).code == old(self).code,
            final(self).query.metas.view().contains_key(item@) && final(self).query.metas.view()[item@].kind@ is Closure
                && (exists|j: int| 0 <= j < final(self).query.metas.view()[item@].kind@->Closure_captures.len()
                    && #[trigger] last_slot(old(self).scopes.vars(), final(self).query.metas.view()[item@].kind@->Closure_captures[j]) is None)
                ==> (r matches Err(e) && e.span == span && e.kind is VariableNotFound),
            final(self).query.metas.view().contains_key(item@) && final(self).query.metas.view()[item@].kind@ is Closure
                && (forall|j: int| 0 <= j < final(self).query.metas.view()[item@].kind@->Closure_captures.len()
                    ==> #[trigger] last_slot(old(self).scopes.vars(), final(self).query.metas.view()[item@].kind@->Closure_captures[j]) is Some)
                ==> r is Ok,
            r is Ok ==> final(self).query.metas.view().contains_key(item@) && ({
                let caps = final(self).query.metas.view()[item@].kind@->Closure_captures;
                &&& final(self).query.metas.view()[item@].kind@ is Closure
                &&& caps.len() == 0 ==> final(self).code@ == old(self).code@.push(Inst::LoadFn { hash: hash_path(item@) })
                &&& caps.len() > 0 ==> final(self).code@ == old(self).code@ + capture_copies(old(self).scopes.vars(), caps)
                    + seq![Inst::Closure { hash: hash_path(item@), count: caps.len() as usize }]
            }),
    {
        let ghost q0 = self.query;
        let res = self.query.query_meta(item);
        proof {
            self.query.metas.lemma_keys();
            q0.metas.lemma_keys();
        }
        let meta = match res {
            Err(e) => {
                proof {
                    crate::query::lemma_frame_refl(self.query);
                }
                return Err(e);
            },
            Ok(None) => {
                return Err(QueryError::new(span, QueryErrorKind::MissingType { item: item.duplicate() }));
            },
            Ok(Some(m)) => m,
        };
        proof {
            assert(self.query.metas.view()[item@]@ == meta@);
        }
        let hash = item.hash();
        let tag = meta.kind.tag();
        let ghost q1 = self.query;
        match &meta.kind {
            MetaKind::Closure { captures, .. } => {
                if captures.len() == 0 {
                    self.code.push(Inst::LoadFn { hash });
                    proof {
                        assert(self.code@.subrange(0, old(self).code@.len() as int) =~= old(self).code@);
                    }
                } else {
                    let ghost caps = captures_view(captures@);
                    let mut j: usize = 0;
                    while j < captures.len()
                        invariant
                            j <= captures@.len(),
                            caps == captures_view(captures@),
                            q1.metas.view().contains_key(item@),
                            q1.metas.view()[item@].kind@->Closure_captures == caps,
                            q1.metas.view()[item@].kind@ is Closure,
                            old(self).query.metas.view().contains_key(item@) ==> same_state(old(self).query, q1),
                            self.scopes == old(self).scopes,
                            self.query == q1,
                            Query::query_frame(old(self).query, q1),
                            self.unit == old(self).unit,
                            self.code@ == old(self).code@ + capture_copies(old(self).scopes.vars(), caps).subrange(0, j as int),
                            forall|k: int| 0 <= k < j ==> #[trigger] last_slot(old(self).scopes.vars(), caps[k]) is Some,
                        decreases captures@.len() - j,
                    {
                        proof {
                            assert(caps[j as int] == captures@[j as int].ident@);
                        }
                        let slot = self.scopes.get_var(&captures[j].ident, span)?;
                        self.code.push(Inst::Copy { slot });
                        proof {
                            assert(capture_copies(old(self).scopes.vars(), caps).subrange(0, j as int + 1)
                                =~= capture_copies(old(self).scopes.vars(), caps).subrange(0, j as int).push(Inst::Copy { slot }));
                        }
                        j = j + 1;
                    }
                    self.code.push(Inst::Closure { hash, count: captures.len() });
                    proof {
                        assert forall|k: int| 0 <= k < caps.len() implies #[trigger] last_slot(old(self).scopes.vars(), caps[k]) is Some by {}
                        assert(capture_copies(old(self).scopes.vars(), caps).subrange(0, caps.len() as int) =~= capture_copies(old(self).scopes.vars(), caps));
                        assert(self.code@ =~= old(self).code@ + capture_copies(old(self).scopes.vars(), caps)
                            + seq![Inst::Closure { hash: hash_path(item@), count: caps.len() as usize }]);
                        assert(self.code@.subrange(0, old(self).code@.len() as int) =~= old(self).code@);
                    }
                }
                Ok(())
            },
            _ => Err(QueryError::new(span, QueryErrorKind::ExpectedMeta { expected: MetaTag::Closure, actual: tag })),
        }
    }

    /// Emit `expr` so that its value ends on top of the stack. Locals that
    /// it declares are dropped again at the end of their scope.
    pub fn compile_expr(&mut self, expr: &Expr) -> (r: Result<(), QueryError>)
        requires
            old(self).query.wf(),
            old(self).scopes.wf(),
        ensures
            Query::query_frame(old(self).query, final(self).query),
            final(self).unit == old(self).unit,
            final(self).scopes.wf(),
            r is Ok ==> final(self).scopes.vars() == old(self).scopes.vars()
                && final(self).scopes.frames() == old(self).scopes.frames(),
            final(self).code@.len() >= old(self).code@.len(),
            final(self).code@.subrange(0, old(self).code@.len() as int) == old(self).code@,
            *expr matches Expr::Integer(v, _) ==> r is Ok && final(self).code@ == old(self).code@.push(Inst::Integer { value: v }),
            *expr matches Expr::Var(name, _) ==> match last_slot(old(self).scopes.vars(), name@) {
                Some(s) => r is Ok && final(self).code@ == old(self).code@.push(Inst::Copy { slot: s as usize }),
                None => r is Err,
            },
            *expr is Call && r is Ok ==> final(self).code@.len() > old(self).code@.len()
                && final(self).code@.last() == (Inst::CallFn { args: 0 }),
            *expr is Let && r is Ok ==> final(self).code@.len() > old(self).code@.len()
                && final(self).code@.last() == (Inst::Clean { count: 1 }),
            expr_ok(old(self).query.metas.view(), old(self).scopes.vars(), *expr) ==> r is Ok
                && final(self).code@ == old(self).code@ + expr_code(old(self).query.metas.view(), old(self).scopes.vars(), *expr),
        decreases expr,
    {
        proof {
            crate::query::lemma_frame_refl(self.query);
        }
        match expr {
            Expr::Integer(v, _) => {
                self.code.push(Inst::Integer { value: *v });
                proof {
                    assert(self.code@.subrange(0, old(self).code@.len() as int) =~= old(self).code@);
                    assert(self.code@ =~= old(self).code@ + expr_code(old(self).query.metas.view(), old(self).scopes.vars(), *expr));
                }
                Ok(())
            },
            Expr::Var(name, span) => {
                let slot = self.scopes.get_var(name, *span)?;
                self.code.push(Inst::Copy { slot });
                proof {
                    assert(self.code@.subrange(0, old(self).code@.len() as int) =~= old(self).code@);
                    assert(self.code@ =~= old(self).code@ + expr_code(old(self).query.metas.view(), old(self).scopes.vars(), *expr));
                }
                Ok(())
            },
            Expr::Closure(item, span) => {
                let r = self.compile_closure_expr(item, *span);
                proof {
                    let m = old(self).query.metas.view();
                    if expr_ok(m, old(self).scopes.vars(), *expr) {
                        assert(self.query.metas.view() == m);
                        assert(self.code@ =~= old(self).code@ + expr_code(m, old(self).scopes.vars(), *expr));
                    }
                }
                r
            },
            Expr::Let { name, span, value, body } => {
                self.compile_expr(value)?;
                let ghost c1 = self.code@;
                let ghost q1 = self.query;
                let start = self.scopes.total_var_count();
                self.scopes.push_scope();
                self.scopes.new_var(name, *span)?;
                proof {
                    let m = old(self).query.metas.view();
                    let vs = old(self).scopes.vars();
                    if expr_ok(m, vs, *expr) {
                        assert(self.scopes.vars() == vs.push(Some(name@)));
                        lemma_expr_stable(m, q1.metas.view(), vs.push(Some(name@)), **body);
                    }
                }
                let res = self.compile_expr(body);
                let ghost c2 = self.code@;
                proof {
                    crate::query::lemma_frame_trans(old(self).query, q1, self.query);
                    assert(self.code@.subrange(0, old(self).code@.len() as int) =~= old(self).code@) by {
                        assert(c1.subrange(0, old(self).code@.len() as int) == old(self).code@);
                        assert(c2.subrange(0, c1.len() as int) == c1);
                    }
                }
                if let Err(e) = res {
                    return Err(e);
                }
                let n = self.scopes.total_var_count();
                self.code.push(Inst::Clean { count: n - start });
                self.scopes.pop_last();
                proof {
                    let m = old(self).query.metas.view();
                    let vs = old(self).scopes.vars();
                    if expr_ok(m, vs, *expr) {
                        assert(c1 == old(self).code@ + expr_code(m, vs, **value));
                        assert(self.code@ =~= old(self).code@ + expr_code(m, vs, *expr));
                    }
                    assert(self.scopes.vars() =~= old(self).scopes.vars());
                    assert(self.code@.subrange(0, old(self).code@.len() as int) =~= old(self).code@) by {
                        assert(c1.subrange(0, old(self).code@.len() as int) == old(self).code@);
                        assert(c2.subrange(0, c1.len() as int) == c1);
                    }
                }
                Ok(())
            },
            Expr::Call(callee, _) => {
                self.compile_expr(callee)?;
                let ghost c1 = self.code@;
                self.code.push(Inst::CallFn { args: 0 });
                proof {
                    let m = old(self).query.metas.view();
                    if expr_ok(m, old(self).scopes.vars(), *expr) {
                        assert(self.code@ =~= old(self).code@ + expr_code(m, old(self).scopes.vars(), *expr));
                    }
                    assert(self.code@.subrange(0, old(self).code@.len() as int) =~= old(self).code@) by {
                        assert(c1.subrange(0, old(self).code@.len() as int) == old(self).code@);
                    }
                }
                Ok(())
            },
        }
    }

    /// Declare the parameters of a body in the innermost scope: a named one
    /// at the next slot, `_` as an anonymous slot. `self` is declared as a
    /// local of that name in a function, and is an error in a closure.
    pub fn bind_params(&mut self, args: &Vec<FnArg>, closure: bool) -> (r: Result<(), QueryError>)
        requires
            old(self).scopes.wf(),
        ensures
            final(self).scopes.wf(),
            final(self).query == old(self).query,
            final(self).unit == old(self).unit,
            final(self).code == old(self).code,
            closure && (exists|i: int| 0 <= i < args@.len() && #[trigger] args@[i] is SelfValue) ==> r is Err,
            closure && args@.len() > 0 && args@[0] is SelfValue ==> (r matches Err(e) && e.kind is UnsupportedSelf
                && e.span == args@[0]->SelfValue_0),
            r is Ok ==> final(self).scopes.vars() == old(self).scopes.vars() + params_view(args@)
                && final(self).scopes.frames() == old(self).scopes.frames(),
            (!closure || forall|i: int| 0 <= i < args@.len() ==> !(#[trigger] args@[i] is SelfValue))
                && old(self).scopes.frames().last() == old(self).scopes.vars().len()
                && distinct_names(params_view(args@)) ==> r is Ok,
    {
        let ghost fresh = (!closure || forall|i: int| 0 <= i < args@.len() ==> !(#[trigger] args@[i] is SelfValue))
            && old(self).scopes.frames().last() == old(self).scopes.vars().len()
            && distinct_names(params_view(args@));
        let ghost base = old(self).scopes.vars().len();
        let mut i: usize = 0;
        while i < args.len()
            invariant
                fresh == ((!closure || forall|i: int| 0 <= i < args@.len() ==> !(#[trigger] args@[i] is SelfValue))
                    && old(self).scopes.frames().last() == old(self).scopes.vars().len()
                    && distinct_names(params_view(args@))),
                base == old(self).scopes.vars().len(),
                i <= args@.len(),
                self.scopes.wf(),
                self.query == old(self).query,
                self.unit == old(self).unit,
                self.code == old(self).code,
                closure ==> forall|j: int| 0 <= j < i ==> !(#[trigger] args@[j] is SelfValue),
                self.scopes.vars() == old(self).scopes.vars() + params_view(args@).subrange(0, i as int),
                self.scopes.frames() == old(self).scopes.frames(),
            decreases args@.len() - i,
        {
            let ghost v0 = self.scopes.vars();
            proof {
                if fresh && params_view(args@)[i as int] is Some {
                    let nm = params_view(args@)[i as int]->Some_0;
                    assert(!self.scopes.in_top(nm)) by {
                        if self.scopes.in_top(nm) {
                            let j = choose|j: int| self.scopes.frames().last() <= j < self.scopes.vars().len() && #[trigger] self.scopes.vars()[j] == Some(nm);
                            assert(self.scopes.vars()[j] == params_view(args@)[j - base]);
                        }
                    }
                }
            }
            match &args[i] {
                FnArg::SelfValue(span) => {
                    if closure {
                        return Err(QueryError::new(*span, QueryErrorKind::UnsupportedSelf));
                    }
                    let name = "self".to_string();
                    proof {
                        reveal_strlit("self");
                    }
                    self.scopes.new_var(&name, *span)?;
                },
                FnArg::Ident(name, span) => {
                    self.scopes.new_var(name, *span)?;
                },
                FnArg::Ignore(span) => {
                    self.scopes.decl_anon(*span);
                },
            }
            proof {
                assert(params_view(args@).subrange(0, i as int + 1) =~= params_view(args@).subrange(0, i as int).push(params_view(args@)[i as int]));
                assert(self.scopes.vars() =~= old(self).scopes.vars() + params_view(args@).subrange(0, i as int + 1));
            }
            i = i + 1;
        }
        proof {
            assert(params_view(args@).subrange(0, args@.len() as int) =~= params_view(args@));
        }
        Ok(())
    }

    /// Declare each capture, in order, as a named local at the next slot:
    /// the closure body reads its environment through these locals.
    pub fn bind_captures(&mut self, captures: &Vec<Capture>, span: Span) -> (r: Result<(), QueryError>)
        requires
            old(self).scopes.wf(),
        ensures
            final(self).scopes.wf(),
            final(self).query == old(self).query,
            final(self).unit == old(self).unit,
            final(self).code == old(self).code,
            r is Ok ==> final(self).scopes.vars() == old(self).scopes.vars() + capture_vars(captures@)
                && final(self).scopes.frames() == old(self).scopes.frames(),
            distinct_names(old(self).scopes.vars().subrange(old(self).scopes.frames().last() as int, old(self).scopes.vars().len() as int)
                + capture_vars(captures@)) ==> r is Ok,
    {
        let ghost f = old(self).scopes.frames().last() as int;
        let ghost t = old(self).scopes.vars().subrange(f, old(self).scopes.vars().len() as int) + capture_vars(captures@);
        let ghost base = old(self).scopes.vars().len();
        let mut i: usize = 0;
        while i < captures.len()
            invariant
                f == old(self).scopes.frames().last() as int,
                t == old(self).scopes.vars().subrange(f, base as int) + capture_vars(captures@),
                base == old(self).scopes.vars().len(),
                f <= base,
                i <= captures@.len(),
                self.scopes.wf(),
                self.query == old(self).query,
                self.unit == old(self).unit,
                self.code == old(self).code,
                self.scopes.vars() == old(self).scopes.vars() + capture_vars(captures@).subrange(0, i as int),
                self.scopes.frames() == old(self).scopes.frames(),
            decreases captures@.len() - i,
        {
            proof {
                if distinct_names(t) {
                    let nm = captures@[i as int].ident@;
                    assert(t[base - f + i] == Some(nm));
                    assert(!self.scopes.in_top(nm)) by {
                        if self.scopes.in_top(nm) {
                            let j = choose|j: int| self.scopes.frames().last() <= j < self.scopes.vars().len() && #[trigger] self.scopes.vars()[j] == Some(nm);
                            assert(self.scopes.vars()[j] == t[j - f]);
                        }
                    }
                }
            }
            self.scopes.new_var(&captures[i].ident, span)?;
            proof {
                assert(capture_vars(captures@).subrange(0, i as int + 1) =~= capture_vars(captures@).subrange(0, i as int).push(Some(captures@[i as int].ident@)));
                assert(self.scopes.vars() =~= old(self).scopes.vars() + capture_vars(captures@).subrange(0, i as int + 1));
            }
            i = i + 1;
        }
        proof {
            assert(capture_vars(captures@).subrange(0, captures@.len() as int) =~= capture_vars(captures@));
        }
        Ok(())
    }

    /// Emit a body: open a scope, bind the parameters and, if there are
    /// captures, unpack the environment tuple into them; emit the body for
    /// its value, clean the locals, return, and close the scope.
    fn compile_body(&mut self, args: &Vec<FnArg>, body: &Expr, captures: &Vec<Capture>, closure: bool, span: Span) -> (r: Result<(), QueryError>)
        requires
            old(self).query.wf(),
            old(self).scopes.wf(),
        ensures
            Query::query_frame(old(self).query, final(self).query),
            final(self).unit == old(self).unit,
            final(self).scopes.wf(),
            closure && (exists|i: int| 0 <= i < args@.len() && #[trigger] args@[i] is SelfValue) ==> r is Err,
            closure && args@.len() > 0 && args@[0] is SelfValue ==> (r matches Err(e) && e.kind is UnsupportedSelf
                && e.span == args@[0]->SelfValue_0) && final(self).code == old(self).code,
            r is Ok ==> body_emitted(old(self).code@, final(self).code@, old(self).scopes.vars().len() + args@.len() + captures@.len(), captures@.len() > 0)
                && final(self).scopes.vars() == old(self).scopes.vars()
                && final(self).scopes.frames() == old(self).scopes.frames(),
            (!closure || forall|i: int| 0 <= i < args@.len() ==> !(#[trigger] args@[i] is SelfValue))
                && distinct_names(params_view(args@) + capture_vars(captures@))
                && expr_ok(old(self).query.metas.view(), old(self).scopes.vars() + params_view(args@) + capture_vars(captures@), *body)
                ==> r is Ok && final(self).code@ == body_code(old(self).code@,
                    expr_code(old(self).query.metas.view(), old(self).scopes.vars() + params_view(args@) + capture_vars(captures@), *body),
                    old(self).scopes.vars().len() + args@.len() + captures@.len(), captures@.len() > 0),
    {
        let ghost ns = params_view(args@) + capture_vars(captures@);
        let ghost vs = old(self).scopes.vars() + params_view(args@) + capture_vars(captures@);
        let ghost m = old(self).query.metas.view();
        proof {
            crate::query::lemma_frame_refl(self.query);
            if distinct_names(ns) {
                assert(distinct_names(params_view(args@))) by {
                    assert forall|a: int, b: int| 0 <= a < b < params_view(args@).len() && (#[trigger] params_view(args@)[b]) is Some
                        implies #[trigger] params_view(args@)[a] != params_view(args@)[b] by {
                        assert(ns[a] == params_view(args@)[a]);
                        assert(ns[b] == params_view(args@)[b]);
                    }
                }
            }
        }
        self.scopes.push_scope();
        self.bind_params(args, closure)?;
        if captures.len() > 0 {
            self.code.push(Inst::PushTuple);
            proof {
                let v = self.scopes.vars();
                assert(v.subrange(self.scopes.frames().last() as int, v.len() as int) + capture_vars(captures@) =~= ns);
            }
            self.bind_captures(captures, span)?;
        } else {
            proof {
                assert(capture_vars(captures@) =~= Seq::<Option<Seq<char>>>::empty());
            }
        }
        proof {
            assert(self.scopes.vars() =~= vs);
        }
        let ghost pre = self.code@;
        let count = self.scopes.total_var_count();
        self.compile_expr(body)?;
        let ghost mid = self.code@;
        if count != 0 {
            self.code.push(Inst::Clean { count });
        }
        self.code.push(Inst::Return);
        self.scopes.pop_last();
        proof {
            assert(self.scopes.vars() =~= old(self).scopes.vars());
            assert(self.code@.subrange(0, pre.len() as int) =~= pre) by {
                assert(mid.subrange(0, pre.len() as int) == pre);
            }
            assert(pre == (if captures@.len() > 0 { old(self).code@.push(Inst::PushTuple) } else { old(self).code@ }));
            if (!closure || forall|i: int| 0 <= i < args@.len() ==> !(#[trigger] args@[i] is SelfValue))
                && distinct_names(ns) && expr_ok(m, vs, *body) {
                assert(self.code@ =~= body_code(old(self).code@, expr_code(m, vs, *body), count as nat, captures@.len() > 0));
            }
        }
        Ok(())
    }

    /// Emit the body of a closure or async block with its capture list.
    pub fn compile_closure_body(&mut self, args: &Vec<FnArg>, body: &Expr, captures: &Vec<Capture>, span: Span) -> (r: Result<(), QueryError>)
        requires
            old(self).query.wf(),
            old(self).scopes.wf(),
        ensures
            Query::query_frame(old(self).query, final(self).query),
            final(self).unit == old(self).unit,
            final(self).scopes.wf(),
            (exists|i: int| 0 <= i < args@.len() && #[trigger] args@[i] is SelfValue) ==> r is Err,
            args@.len() > 0 && args@[0] is SelfValue ==> (r matches Err(e) && e.kind is UnsupportedSelf
                && e.span == args@[0]->SelfValue_0) && final(self).code == old(self).code,
            r is Ok ==> body_emitted(old(self).code@, final(self).code@, old(self).scopes.vars().len() + args@.len() + captures@.len(), captures@.len() > 0)
                && final(self).scopes.vars() == old(self).scopes.vars()
                && final(self).scopes.frames() == old(self).scopes.frames(),
            (forall|i: int| 0 <= i < args@.len() ==> !(#[trigger] args@[i] is SelfValue))
                && distinct_names(params_view(args@) + capture_vars(captures@))
                && expr_ok(old(self).query.metas.view(), old(self).scopes.vars() + params_view(args@) + capture_vars(captures@), *body)
                ==> r is Ok && final(self).code@ == body_code(old(self).code@,
                    expr_code(old(self).query.metas.view(), old(self).scopes.vars() + params_view(args@) + capture_vars(captures@), *body),
                    old(self).scopes.vars().len() + args@.len() + captures@.len(), captures@.len() > 0),
    {
        self.compile_body(args, body, captures, true, span)
    }

    /// Emit the body of a function.
    pub fn compile_fn_body(&mut self, args: &Vec<FnArg>, body: &Expr, span: Span) -> (r: Result<(), QueryError>)
        requires
            old(self).query.wf(),
            old(self).scopes.wf(),
        ensures
            Query::query_frame(old(self).query, final(self).query),
            final(self).unit == old(self).unit,
            final(self).scopes.wf(),
            r is Ok ==> body_emitted(old(self).code@, final(self).code@, old(self).scopes.vars().len() + args@.len(), false)
                && final(self).scopes.vars() == old(self).scopes.vars()
                && final(self).scopes.frames() == old(self).scopes.frames(),
            distinct_names(params_view(args@)) && expr_ok(old(self).query.metas.view(), old(self).scopes.vars() + params_view(args@), *body)
                ==> r is Ok && final(self).code@ == body_code(old(self).code@,
                    expr_code(old(self).query.metas.view(), old(self).scopes.vars() + params_view(args@), *body),
                    old(self).scopes.vars().len() + args@.len(), false),
    {
        let captures: Vec<Capture> = Vec::new();
        proof {
            assert(capture_vars(captures@) =~= Seq::<Option<Seq<char>>>::empty());
            assert(params_view(args@) + capture_vars(captures@) =~= params_view(args@));
            assert(old(self).scopes.vars() + params_view(args@) + capture_vars(captures@) =~= old(self).scopes.vars() + params_view(args@));
        }
        self.compile_body(args, body, &captures, false, span)
    }
}

impl Compiler {
    /// Emit the body that `entry` asks for as a new function of the unit;
    /// an unused constant emits nothing.
    pub fn emit(&mut self, entry: BuildEntry) -> (r: Result<(), QueryError>)
        requires
            old(self).query.wf(),
        ensures
            Query::query_frame(old(self).query, final(self).query),
            final(self).scopes.wf(),
            final(self).unit.functions@.len() >= old(self).unit.functions@.len(),
            final(self).unit.functions@.subrange(0, old(self).unit.functions@.len() as int) == old(self).unit.functions@,
            r is Ok && !(entry.build is UnusedConst) ==> final(self).unit.functions@.len() == old(self).unit.functions@.len() + 1
                && final(self).unit.functions@.last().item@ == entry.item@,
            entry.build is UnusedConst ==> r is Ok && final(self).unit == old(self).unit && final(self).query == old(self).query,
            !(entry.build is UnusedConst) && build_ok(old(self).query.metas.view(), entry.build)
                && (forall|j: int| 0 <= j < old(self).unit.functions@.len() ==> #[trigger] old(self).unit.functions@[j].hash != hash_path(entry.item@))
                ==> r is Ok && final(self).unit.functions@.last().insts@ == build_code(old(self).query.metas.view(), entry.build)
                    && final(self).unit.functions@.last().hash == hash_path(entry.item@),
    {
        proof {
            crate::query::lemma_frame_refl(self.query);
            assert(self.unit.functions@.subrange(0, self.unit.functions@.len() as int) =~= self.unit.functions@);
        }
        let BuildEntry { item, build, source_id: _, used: _ } = entry;
        self.scopes = Scopes::new();
        self.code = Vec::new();
        proof {
            let e0 = Seq::<Option<Seq<char>>>::empty();
            assert(self.scopes.vars() + params_view(Seq::<FnArg>::empty()) =~= e0);
            match &build {
                Build::Function(f) => {
                    assert(self.scopes.vars() + params_view(f.ast.args@) =~= params_view(f.ast.args@));
                },
                Build::Closure(c) => {
                    assert(self.scopes.vars() + params_view(c.ast.args@) + capture_vars(c.captures@) =~= params_view(c.ast.args@) + capture_vars(c.captures@));
                },
                Build::AsyncBlock(a) => {
                    assert(params_view(Seq::<FnArg>::empty()) =~= e0);
                    assert(self.scopes.vars() + params_view(Seq::<FnArg>::empty()) + capture_vars(a.captures@) =~= capture_vars(a.captures@));
                    assert(params_view(Seq::<FnArg>::empty()) + capture_vars(a.captures@) =~= capture_vars(a.captures@));
                },
                _ => {},
            }
        }
        match &build {
            Build::Function(f) => self.compile_fn_body(&f.ast.args, &f.ast.body, f.ast.span)?,
            Build::Closure(c) => self.compile_closure_body(&c.ast.args, &c.ast.body, &c.captures, c.ast.span)?,
            Build::AsyncBlock(a) => {
                let args: Vec<FnArg> = Vec::new();
                proof {
                    assert(args@ =~= Seq::<FnArg>::empty());
                }
                self.compile_closure_body(&args, &a.ast.body, &a.captures, a.ast.span)?
            },
            Build::UnusedConst(_) => {
                return Ok(());
            },
        }
        let mut code: Vec<Inst> = Vec::new();
        std::mem::swap(&mut code, &mut self.code);
        let hash = item.hash();
        match self.unit.insert_fn(UnitFn { item, hash, insts: code }) {
            Ok(()) => {
                proof {
                    assert(self.unit.functions@.subrange(0, old(self).unit.functions@.len() as int) =~= old(self).unit.functions@);
                }
                Ok(())
            },
            Err(e) => Err(QueryError::new(Span::empty(), QueryErrorKind::UnitBuilderError { error: e })),
        }
    }

    /// Emit queued bodies, first in first out, until the queue is empty.
    pub fn drain(&mut self) -> (r: Result<(), QueryError>)
        requires
            old(self).wf(),
        ensures
            r is Ok ==> final(self).wf() && final(self).query.queue@.len() == 0
                && final(self).query.indexed.values().len() <= old(self).query.indexed.values().len(),
            old(self).query.queue@.len() == 0 ==> r is Ok && *final(self) == *old(self),
            r is Ok ==> unit_items(final(self).unit.functions@).len() >= old(self).unit.functions@.len() + emitted(old(self).query.queue@).len()
                && unit_items(final(self).unit.functions@).subrange(0, old(self).unit.functions@.len() as int)
                    == unit_items(old(self).unit.functions@)
                && unit_items(final(self).unit.functions@).subrange(old(self).unit.functions@.len() as int,
                    (old(self).unit.functions@.len() + emitted(old(self).query.queue@).len()) as int) == emitted(old(self).query.queue@),
    {
        if self.query.queue.len() == 0 {
            proof {
                assert(emitted(old(self).query.queue@) =~= Seq::<Seq<ComponentView>>::empty());
                assert(unit_items(self.unit.functions@).subrange(0, old(self).unit.functions@.len() as int) =~= unit_items(old(self).unit.functions@));
                assert(unit_items(self.unit.functions@).subrange(old(self).unit.functions@.len() as int, old(self).unit.functions@.len() as int)
                    =~= Seq::<Seq<ComponentView>>::empty());
            }
            return Ok(());
        }
        let ghost base = old(self).unit.functions@.len();
        let ghost processed = Seq::<BuildEntry>::empty();
        proof {
            assert(processed + self.query.queue@ =~= old(self).query.queue@);
            assert(unit_items(self.unit.functions@) =~= unit_items(old(self).unit.functions@) + emitted(processed));
        }
        while self.query.queue.len() > 0
            invariant
                old(self).query.queue@.len() > 0,
                base == old(self).unit.functions@.len(),
                (processed + self.query.queue@).len() >= old(self).query.queue@.len(),
                (processed + self.query.queue@).subrange(0, old(self).query.queue@.len() as int) == old(self).query.queue@,
                unit_items(self.unit.functions@) == unit_items(old(self).unit.functions@) + emitted(processed),
                self.wf(),
                self.query.indexed.values().len() <= old(self).query.indexed.values().len(),
            decreases 2 * self.query.indexed.values().len() + self.query.queue@.len(),
        {
            let ghost q0 = self.query.queue@;
            let ghost u0 = self.unit.functions@;
            let entry = self.query.queue.remove(0);
            let ghost mid = *self;
            let ghost done_before = processed;
            let ghost k0 = entry.item@;
            let ghost emits = !(entry.build is UnusedConst);
            proof {
                assert(q0[0] == entry);
            }
            self.emit(entry)?;
            proof {
                processed = done_before.push(q0[0]);
                let n0 = old(self).query.queue@.len() as int;
                assert(q0 =~= seq![q0[0]] + mid.query.queue@);
                assert((processed + self.query.queue@).subrange(0, (done_before + q0).len() as int) =~= done_before + q0) by {
                    assert(self.query.queue@.subrange(0, mid.query.queue@.len() as int) == mid.query.queue@);
                }
                assert((processed + self.query.queue@).subrange(0, n0) =~= (done_before + q0).subrange(0, n0));
                assert(processed.drop_last() =~= done_before);
                if emits {
                    assert(self.unit.functions@ =~= u0.push(self.unit.functions@.last())) by {
                        assert(self.unit.functions@.subrange(0, u0.len() as int) == u0);
                    }
                    assert(unit_items(self.unit.functions@) =~= unit_items(u0).push(k0));
                    assert(unit_items(self.unit.functions@) =~= unit_items(old(self).unit.functions@) + emitted(processed));
                } else {
                    assert(self.unit.functions@ =~= u0);
                    assert(emitted(processed) =~= emitted(done_before));
                }
                assert forall|k: Seq<ComponentView>| #[trigger] self.query.metas.view().contains_key(k)
                    && is_build_kind(self.query.metas.view()[k].kind@)
                    implies queued_in(self.query.queue@, 0, k) || unit_has(self.unit.functions@, k) by {
                    if mid.query.metas.view().contains_key(k) {
                        assert(mid.query.metas.view()[k] == self.query.metas.view()[k]);
                        if unit_has(u0, k) {
                            let j = choose|j: int| 0 <= j < u0.len() && #[trigger] u0[j].item@ == k;
                            assert(self.unit.functions@.subrange(0, u0.len() as int)[j] == u0[j]);
                            assert(self.unit.functions@[j].item@ == k);
                        } else {
                            assert(queued_in(q0, 0, k));
                            let j = choose|j: int| 0 <= j < q0.len() && #[trigger] q0[j].item@ == k && !(q0[j].build is UnusedConst);
                            if j == 0 {
                                let n = self.unit.functions@.len() - 1;
                                assert(self.unit.functions@[n].item@ == k);
                            } else {
                                assert(mid.query.queue@[j - 1] == q0[j]);
                                assert(self.query.queue@.subrange(0, mid.query.queue@.len() as int)[j - 1] == q0[j]);
                                assert(self.query.queue@[j - 1].item@ == k);
                            }
                        }
                    } else {
                        assert(queued_in(self.query.queue@, mid.query.queue@.len() as int, k));
                    }
                }
            }
        }
        proof {
            let oq = old(self).query.queue@;
            assert(processed + self.query.queue@ =~= processed);
            assert(processed =~= oq + processed.subrange(oq.len() as int, processed.len() as int));
            lemma_emitted_append(oq, processed.subrange(oq.len() as int, processed.len() as int));
            let ui = unit_items(self.unit.functions@);
            assert(ui.subrange(0, base as int) =~= unit_items(old(self).unit.functions@));
            assert(ui.subrange(base as int, (base + emitted(oq).len()) as int) =~= emitted(oq));
        }
        Ok(())
    }

    /// Run the build queue to a fixed point: drain it, then resolve every
    /// declaration that nothing used (appending a visit for each to `visits`) and
    /// drain again, until the index is empty. On success no declaration is
    /// left in the index, the queue is empty, and every resolved function,
    /// closure and async block has its body in the unit.
    pub fn compile(&mut self, visits: &mut Vec<Visit>) -> (r: Result<(), QueryError>)
        requires
            old(self).wf(),
        ensures
            old(self).query.indexed.view().dom().len() == 0 && old(self).query.queue@.len() == 0
                ==> r is Ok && final(visits)@ == old(visits)@ && same_state(old(self).query, final(self).query),
            r is Ok ==> final(self).wf(),
            r is Ok ==> final(self).query.indexed.view().dom().len() == 0,
            r is Ok ==> final(self).query.queue@.len() == 0,
            r is Ok ==> forall|k: Seq<ComponentView>| #[trigger] final(self).query.metas.view().contains_key(k)
                && is_build_kind(final(self).query.metas.view()[k].kind@) ==> unit_has(final(self).unit.functions@, k),
    {
        let ghost empty0 = old(self).query.indexed.view().dom().len() == 0 && old(self).query.queue@.len() == 0;
        loop
            invariant
                self.wf(),
                empty0 == (old(self).query.indexed.view().dom().len() == 0 && old(self).query.queue@.len() == 0),
                empty0 ==> *self == *old(self) && visits@ == old(visits)@,
            decreases self.query.indexed.values().len(),
        {
            let ghost head = self.query.indexed.values().len();
            self.drain()?;
            let ghost mid = *self;
            proof {
                mid.query.indexed.lemma_len();
            }
            match self.query.queue_unused_entries(visits) {
                Err((_, e)) => {
                    return Err(e);
                },
                Ok(false) => {
                    return Ok(());
                },
                Ok(true) => {
                    proof {
                        lemma_builds_frame(mid, *self);
                        self.query.indexed.lemma_len();
                    }
                },
            }
        }
    }
}

/// A query keeps every resolved body accounted for: a new record that has a
/// body is queued by the query that made it.
pub proof fn lemma_builds_frame(a: Compiler, b: Compiler)
    requires
        a.wf(),
        Query::query_frame(a.query, b.query),
        b.unit == a.unit,
        b.scopes.wf(),
    ensures
        b.wf(),
{
    assert forall|k: Seq<ComponentView>| #[trigger] b.query.metas.view().contains_key(k)
        && is_build_kind(b.query.metas.view()[k].kind@)
        implies queued_in(b.query.queue@, 0, k) || unit_has(b.unit.functions@, k) by {
        if a.query.metas.view().contains_key(k) {
            if !unit_has(a.unit.functions@, k) {
                let j = choose|j: int| 0 <= j < a.query.queue@.len() && #[trigger] a.query.queue@[j].item@ == k
                    && !(a.query.queue@[j].build is UnusedConst);
                assert(b.query.queue@.subrange(0, a.query.queue@.len() as int)[j] == a.query.queue@[j]);
                assert(b.query.queue@[j].item@ == k);
            }
        } else {
            assert(queued_in(b.query.queue@, a.query.queue@.len() as int, k));
        }
    }
}

/// Whether `after` is `before` followed by an emitted body: a `PushTuple`
/// first when there is an environment, then the body, then `Clean` of
/// `count` slots when there are any, then `Return`.
pub open spec fn body_emitted(before: Seq<Inst>, after: Seq<Inst>, count: nat, env: bool) -> bool {
    let pre = if env { before.push(Inst::PushTuple) } else { before };
    &&& after.len() >= pre.len() + 1
    &&& after.subrange(0, pre.len() as int) == pre
    &&& after.last() == Inst::Return
    &&& count > 0 ==> after.len() >= pre.len() + 2 && after[after.len() - 2] == (Inst::Clean { count: count as usize })
}

} // verus!
