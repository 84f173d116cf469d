//! The mathematical model of evaluation.
//!
//! These specification functions define what rendering means: how an
//! expression evaluates against the scope stack and the data source, how a
//! run of templates reassembles literal text and tag output, and what each
//! built-in helper does. The executable evaluator is verified against this
//! model: wherever the model yields [`Step::Done`] or [`Step::Fail`], the
//! code must return exactly that output or error; [`Step::Hosted`] marks the
//! point where evaluation first reaches the host (a function call, a
//! host-supplied helper, raw code), beyond which no promise is made.

use vstd::prelude::*;
use crate::convert::Val;
use crate::convert::falsy;
use crate::convert::rv_eq;
use crate::convert::rv_str;
use crate::convert::num_cmp;
use crate::data::DataSource;
use crate::data::ds_get;
use crate::error::ErrV;
use crate::memory::ScopeV;
use crate::memory::scope_get;
use crate::memory::scope_set;
use crate::parser::BinaryOps;
use crate::parser::ExpressionKind;
use crate::parser::FnBlock;
use crate::parser::SubText;
use crate::parser::Template;
use crate::parser::TemplateKind;
use crate::parser::UnaryOps;
use crate::compiler::Compiler;
use crate::compiler::FnBlockHelper;
use crate::compiler::NativeHelper;

verus! {

/// One evaluation outcome: a value with the scope it left behind, a failure,
/// or the first contact with the host.
pub enum Step<T> {
    Done(T, ScopeV),
    Fail(ErrV),
    Hosted,
}

/// The helper registered under `k`: the latest registration wins.
pub open spec fn helper_get(hs: Seq<(String, FnBlockHelper)>, k: Seq<char>) -> Option<
    FnBlockHelper,
>
    decreases hs.len(),
{
    if hs.len() == 0 {
        None
    } else if hs.last().0@ == k {
        Some(hs.last().1)
    } else {
        helper_get(hs.drop_last(), k)
    }
}

/// The helper table without any entry named `n`, order kept.
pub open spec fn without_name(hs: Seq<(String, FnBlockHelper)>, n: Seq<char>) -> Seq<
    (String, FnBlockHelper),
>
    decreases hs.len(),
{
    if hs.len() == 0 {
        Seq::empty()
    } else {
        let rest = without_name(hs.drop_last(), n);
        if hs.last().0@ == n {
            rest
        } else {
            rest.push(hs.last())
        }
    }
}

/// Removing a name unregisters exactly that name: lookups of it find
/// nothing, and every other name resolves as before.
pub proof fn lemma_without_name(hs: Seq<(String, FnBlockHelper)>, n: Seq<char>, k: Seq<char>)
    ensures
        helper_get(without_name(hs, n), k) == if k == n {
            Option::<FnBlockHelper>::None
        } else {
            helper_get(hs, k)
        },
    decreases hs.len(),
{
    if hs.len() > 0 {
        lemma_without_name(hs.drop_last(), n, k);
        let rest = without_name(hs.drop_last(), n);
        if hs.last().0@ != n {
            assert(rest.push(hs.last()).last() == hs.last());
            assert(rest.push(hs.last()).drop_last() =~= rest);
        }
    }
}

/// Two helper tables that agree entry by entry on name text and
/// implementation.
pub open spec fn table_alike(
    a: Seq<(String, FnBlockHelper)>,
    b: Seq<(String, FnBlockHelper)>,
) -> bool {
    &&& a.len() == b.len()
    &&& forall|i: int| 0 <= i < a.len() ==> (#[trigger] a[i]).0@ == b[i].0@ && a[i].1 == b[i].1
}

/// Alike tables resolve every name alike.
pub proof fn lemma_table_alike_get(
    a: Seq<(String, FnBlockHelper)>,
    b: Seq<(String, FnBlockHelper)>,
    k: Seq<char>,
)
    requires
        table_alike(a, b),
    ensures
        helper_get(a, k) == helper_get(b, k),
    decreases a.len(),
{
    if a.len() > 0 {
        assert(forall|i: int| 0 <= i < a.len() - 1 ==> a.drop_last()[i] == a[i]
            && b.drop_last()[i] == b[i]);
        assert(a.last() == a[a.len() - 1] && b.last() == b[b.len() - 1]);
        lemma_table_alike_get(a.drop_last(), b.drop_last(), k);
    }
}

/// The template registered under `k` — its source and its tree — with the
/// latest registration winning.
pub open spec fn tpl_get(ts: Seq<(String, Vec<char>, SubText)>, k: Seq<char>) -> Option<
    (Seq<char>, SubText),
>
    decreases ts.len(),
{
    if ts.len() == 0 {
        None
    } else if ts.last().0@ == k {
        Some((ts.last().1@, ts.last().2))
    } else {
        tpl_get(ts.drop_last(), k)
    }
}

/// A dotted path's segments joined by dots: the memoization key of a path.
pub open spec fn join_path(ps: Seq<String>) -> Seq<char>
    decreases ps.len(),
{
    if ps.len() == 0 {
        Seq::empty()
    } else if ps.len() == 1 {
        ps[0]@
    } else {
        join_path(ps.drop_last()) + seq!['.'] + ps.last()@
    }
}

/// Descent through the data source along `path` from segment `i` on: each
/// step requires the current value to be an object and the next segment to
/// be one of its properties.
pub open spec fn sp_path(ds: DataSource, cur: Val, path: Seq<String>, i: int) -> Result<Val, ErrV>
    decreases path.len() - i,
{
    if i >= path.len() {
        Ok(cur)
    } else {
        match cur {
            Val::Object(oid) => match ds_get(ds, oid, path[i]@) {
                Some(v) => sp_path(ds, v, path, i + 1),
                None => Err(ErrV::PropNotExist(path[i]@)),
            },
            _ => Err(ErrV::ExpectedObject),
        }
    }
}

/// The binding name a helper parameter provides: a bare variable or a string
/// literal.
pub open spec fn binding_name(e: ExpressionKind) -> Option<Seq<char>> {
    match e {
        ExpressionKind::Var(n) => Some(n@),
        ExpressionKind::Str(s) => Some(s@),
        _ => None,
    }
}

/// What one expression evaluates to.
///
/// Literals evaluate to themselves. A variable is looked up in the scope
/// stack first; on a miss it is resolved from the data source and memoized.
/// A dotted path is looked up under its joined key, then under its first
/// segment, then resolved by descent and memoized under the joined key. `!`
/// negates truthiness, and the `?` marker is transparent. `==`/`!=` use
/// value equality; the orderings require two numbers; `&&` yields its left
/// operand when that is falsy and its right one otherwise, `||` the left
/// when truthy and the right otherwise. A call evaluates its arguments left
/// to right, requires its callee to name a host function, and then reaches
/// the host.
pub open spec fn sp_expr(e: ExpressionKind, ds: DataSource, root: int, sc: ScopeV) -> Step<Val>
    decreases e, 0int,
{
    match e {
        ExpressionKind::Str(s) => Step::Done(Val::Str(s@), sc),
        ExpressionKind::Number(s) => Step::Done(Val::Num(s@), sc),
        ExpressionKind::Bool(b) => Step::Done(Val::Bool(b), sc),
        ExpressionKind::Undefined => Step::Done(Val::Undefined, sc),
        ExpressionKind::Null => Step::Done(Val::Null, sc),
        ExpressionKind::Var(name) => match scope_get(sc, name@) {
            Some(v) => Step::Done(v, sc),
            None => match ds_get(ds, root, name@) {
                Some(v) => Step::Done(v, scope_set(sc, name@, v)),
                None => Step::Fail(ErrV::PropNotExist(name@)),
            },
        },
        ExpressionKind::VarDot(path) => {
            if path@.len() == 0 {
                Step::Fail(ErrV::MissingPropName)
            } else {
                let joined = join_path(path@);
                match scope_get(sc, joined) {
                    Some(v) => Step::Done(v, sc),
                    None => {
                        let start = match scope_get(sc, path@[0]@) {
                            Some(v) => Some(v),
                            None => ds_get(ds, root, path@[0]@),
                        };
                        match start {
                            None => Step::Fail(ErrV::PropNotExist(path@[0]@)),
                            Some(v0) => match sp_path(ds, v0, path@, 1) {
                                Ok(v) => Step::Done(v, scope_set(sc, joined, v)),
                                Err(er) => Step::Fail(er),
                            },
                        }
                    },
                }
            }
        },
        ExpressionKind::Unary(u) => match *u {
            UnaryOps::Not(inner) => match sp_expr(inner, ds, root, sc) {
                Step::Done(v, sc1) => Step::Done(Val::Bool(falsy(v)), sc1),
                Step::Fail(er) => Step::Fail(er),
                Step::Hosted => Step::Hosted,
            },
            UnaryOps::ShortCircuit(inner) => sp_expr(inner, ds, root, sc),
        },
        ExpressionKind::Binary(b) => sp_binary(*b, ds, root, sc),
        ExpressionKind::Call { var, params } => match *var {
            ExpressionKind::Var(name) => match sp_exprs(params@, ds, root, sc) {
                Step::Done(_, _) => match ds_get(ds, root, name@) {
                    None => Step::Fail(ErrV::PropNotExist(name@)),
                    Some(Val::Function(_)) => Step::Hosted,
                    Some(_) => Step::Fail(ErrV::NotCallable(name@)),
                },
                Step::Fail(er) => Step::Fail(er),
                Step::Hosted => Step::Hosted,
            },
            _ => Step::Fail(ErrV::NotCallable(Seq::empty())),
        },
    }
}

/// What a binary operation evaluates to; the operands evaluate left first,
/// threading the scope.
pub open spec fn sp_binary(b: BinaryOps, ds: DataSource, root: int, sc: ScopeV) -> Step<Val>
    decreases b, 1int,
{
    match b {
        BinaryOps::Compare(l, r) => match sp_expr(l, ds, root, sc) {
            Step::Done(lv, sc1) => match sp_expr(r, ds, root, sc1) {
                Step::Done(rv, sc2) => Step::Done(Val::Bool(rv_eq(lv, rv)), sc2),
                Step::Fail(er) => Step::Fail(er),
                Step::Hosted => Step::Hosted,
            },
            Step::Fail(er) => Step::Fail(er),
            Step::Hosted => Step::Hosted,
        },
        BinaryOps::Not(l, r) => match sp_expr(l, ds, root, sc) {
            Step::Done(lv, sc1) => match sp_expr(r, ds, root, sc1) {
                Step::Done(rv, sc2) => Step::Done(Val::Bool(!rv_eq(lv, rv)), sc2),
                Step::Fail(er) => Step::Fail(er),
                Step::Hosted => Step::Hosted,
            },
            Step::Fail(er) => Step::Fail(er),
            Step::Hosted => Step::Hosted,
        },
        BinaryOps::Gt(l, r) => match sp_expr(l, ds, root, sc) {
            Step::Done(lv, sc1) => match sp_expr(r, ds, root, sc1) {
                Step::Done(rv, sc2) => ord_step(lv, rv, false, false, sc2),
                Step::Fail(er) => Step::Fail(er),
                Step::Hosted => Step::Hosted,
            },
            Step::Fail(er) => Step::Fail(er),
            Step::Hosted => Step::Hosted,
        },
        BinaryOps::Lt(l, r) => match sp_expr(l, ds, root, sc) {
            Step::Done(lv, sc1) => match sp_expr(r, ds, root, sc1) {
                Step::Done(rv, sc2) => ord_step(lv, rv, true, false, sc2),
                Step::Fail(er) => Step::Fail(er),
                Step::Hosted => Step::Hosted,
            },
            Step::Fail(er) => Step::Fail(er),
            Step::Hosted => Step::Hosted,
        },
        BinaryOps::Gte(l, r) => match sp_expr(l, ds, root, sc) {
            Step::Done(lv, sc1) => match sp_expr(r, ds, root, sc1) {
                Step::Done(rv, sc2) => ord_step(lv, rv, false, true, sc2),
                Step::Fail(er) => Step::Fail(er),
                Step::Hosted => Step::Hosted,
            },
            Step::Fail(er) => Step::Fail(er),
            Step::Hosted => Step::Hosted,
        },
        BinaryOps::Lte(l, r) => match sp_expr(l, ds, root, sc) {
            Step::Done(lv, sc1) => match sp_expr(r, ds, root, sc1) {
                Step::Done(rv, sc2) => ord_step(lv, rv, true, true, sc2),
                Step::Fail(er) => Step::Fail(er),
                Step::Hosted => Step::Hosted,
            },
            Step::Fail(er) => Step::Fail(er),
            Step::Hosted => Step::Hosted,
        },
        BinaryOps::And(l, r) => match sp_expr(l, ds, root, sc) {
            Step::Done(lv, sc1) => if falsy(lv) {
                Step::Done(lv, sc1)
            } else {
                sp_expr(r, ds, root, sc1)
            },
            Step::Fail(er) => Step::Fail(er),
            Step::Hosted => Step::Hosted,
        },
        BinaryOps::Or(l, r) => match sp_expr(l, ds, root, sc) {
            Step::Done(lv, sc1) => if !falsy(lv) {
                Step::Done(lv, sc1)
            } else {
                sp_expr(r, ds, root, sc1)
            },
            Step::Fail(er) => Step::Fail(er),
            Step::Hosted => Step::Hosted,
        },
    }
}

/// The outcome of an ordering comparison of two evaluated operands: both
/// must be numbers, and the numeric order decides. `less` selects `<`-like
/// operators and `or_equal` admits equality.
pub open spec fn ord_step(lv: Val, rv: Val, less: bool, or_equal: bool, sc: ScopeV) -> Step<Val> {
    match (lv, rv) {
        (Val::Num(a), Val::Num(b)) => Step::Done(
            Val::Bool(ord_holds(num_cmp(a, b), less, or_equal)),
            sc,
        ),
        _ => Step::Fail(ErrV::NotNumbers),
    }
}

/// Whether an ordering outcome satisfies the selected comparison.
pub open spec fn ord_holds(o: core::cmp::Ordering, less: bool, or_equal: bool) -> bool {
    match o {
        core::cmp::Ordering::Less => less,
        core::cmp::Ordering::Equal => or_equal,
        core::cmp::Ordering::Greater => !less,
    }
}

/// The literal text between two offsets, empty when they are out of order.
pub open spec fn gap(src: Seq<char>, a: int, b: int) -> Seq<char> {
    if a < b {
        src.subrange(a, b)
    } else {
        Seq::empty()
    }
}

/// What a tree renders to: its templates in order, with the literal source
/// text between them, and the trailing literal up to the tree's end.
pub open spec fn sp_sub(
    st: SubText,
    src: Seq<char>,
    comp: Compiler,
    ds: DataSource,
    root: int,
    sc: ScopeV,
    depth: nat,
) -> Step<Seq<char>>
    decreases depth, st, 0int, 0int,
{
    sp_tpls(
        st.templates@,
        st.pos.start as int,
        st.pos.end as int,
        src,
        comp,
        ds,
        root,
        sc,
        depth,
    )
}

/// What a run of templates renders to, from a cursor over consumed source:
/// the literal gap before each tag, then the tag's own output, and after the
/// last tag the literal gap up to `stop`.
pub open spec fn sp_tpls(
    ts: Seq<Template>,
    cursor: int,
    stop: int,
    src: Seq<char>,
    comp: Compiler,
    ds: DataSource,
    root: int,
    sc: ScopeV,
    depth: nat,
) -> Step<Seq<char>>
    decreases depth, ts, 2int, 0int,
{
    if ts.len() == 0 {
        Step::Done(gap(src, cursor, stop), sc)
    } else {
        let t = ts.first();
        let lit = gap(src, cursor, t.pos.start as int);
        match sp_tpl(t, src, comp, ds, root, sc, depth) {
            Step::Done(s, sc1) => match sp_tpls(
                ts.drop_first(),
                t.pos.end as int,
                stop,
                src,
                comp,
                ds,
                root,
                sc1,
                depth,
            ) {
                Step::Done(rest, sc2) => Step::Done(lit + s + rest, sc2),
                Step::Fail(er) => Step::Fail(er),
                Step::Hosted => Step::Hosted,
            },
            Step::Fail(er) => Step::Fail(er),
            Step::Hosted => Step::Hosted,
        }
    }
}

/// What one tag renders to: an expression evaluates and stringifies, a block
/// dispatches to its helper.
pub open spec fn sp_tpl(
    t: Template,
    src: Seq<char>,
    comp: Compiler,
    ds: DataSource,
    root: int,
    sc: ScopeV,
    depth: nat,
) -> Step<Seq<char>>
    decreases depth, t, 0int, 0int,
{
    match t.kind {
        TemplateKind::Expression(e) => match sp_expr(e, ds, root, sc) {
            Step::Done(v, sc1) => Step::Done(rv_str(v), sc1),
            Step::Fail(er) => Step::Fail(er),
            Step::Hosted => Step::Hosted,
        },
        TemplateKind::Block(b) => sp_block(b, src, comp, ds, root, sc, depth),
    }
}

/// What a block renders to: the helper registered under its name decides. An
/// unregistered name fails; a host-supplied helper evaluates the parameters
/// and renders the body, then reaches the host; the built-ins follow their
/// own rules, and the raw-code helper reaches the host with its body text.
pub open spec fn sp_block(
    b: FnBlock,
    src: Seq<char>,
    comp: Compiler,
    ds: DataSource,
    root: int,
    sc: ScopeV,
    depth: nat,
) -> Step<Seq<char>>
    decreases depth, b, 3int, 0int,
{
    match helper_get(comp.helpers@, b.name@) {
        None => Step::Fail(ErrV::HelperNotFound(b.name@)),
        Some(FnBlockHelper::Js(_)) => match sp_exprs(b.params@, ds, root, sc) {
            Step::Done(_, sc1) => match b.block {
                Some(body) => match sp_sub(body, src, comp, ds, root, sc1, depth) {
                    Step::Done(_, _) => Step::Hosted,
                    Step::Fail(er) => Step::Fail(er),
                    Step::Hosted => Step::Hosted,
                },
                None => Step::Hosted,
            },
            Step::Fail(er) => Step::Fail(er),
            Step::Hosted => Step::Hosted,
        },
        Some(FnBlockHelper::Native(nh)) => match nh {
            NativeHelper::Each => sp_each_block(b, src, comp, ds, root, sc, depth),
            NativeHelper::If => sp_if_block(b, src, comp, ds, root, sc, depth),
            NativeHelper::Template => sp_template_block(b, src, comp, ds, root, sc, depth),
            NativeHelper::Js => match b.block {
                Some(_) => Step::Hosted,
                None => Step::Fail(ErrV::ExpectedBody("js"@)),
            },
        },
    }
}

/// What the `each` helper renders: its first parameter must evaluate to a
/// list and its second must be a binding name; a fresh frame is pushed, the
/// body rendered once per element in order with the name bound to that
/// element, and the frame popped.
pub open spec fn sp_each_block(
    b: FnBlock,
    src: Seq<char>,
    comp: Compiler,
    ds: DataSource,
    root: int,
    sc: ScopeV,
    depth: nat,
) -> Step<Seq<char>>
    decreases depth, b, 2int, 0int,
{
    match b.block {
        None => Step::Fail(ErrV::ExpectedBody("each"@)),
        Some(body) => {
            if b.params@.len() == 0 {
                Step::Fail(ErrV::InvalidArg(0))
            } else {
                match sp_expr(b.params@[0], ds, root, sc) {
                    Step::Done(v, sc1) => match v {
                        Val::List(items) => {
                            if b.params@.len() < 2 {
                                Step::Fail(ErrV::InvalidArg(1))
                            } else {
                                match binding_name(b.params@[1]) {
                                    None => Step::Fail(ErrV::InvalidArg(1)),
                                    Some(bn) => match sp_each(
                                        items,
                                        bn,
                                        body,
                                        src,
                                        comp,
                                        ds,
                                        root,
                                        sc1.push(Seq::empty()),
                                        depth,
                                    ) {
                                        Step::Done(out, sc2) => Step::Done(out, sc2.drop_last()),
                                        Step::Fail(er) => Step::Fail(er),
                                        Step::Hosted => Step::Hosted,
                                    },
                                }
                            }
                        },
                        _ => Step::Fail(ErrV::InvalidArg(0)),
                    },
                    Step::Fail(er) => Step::Fail(er),
                    Step::Hosted => Step::Hosted,
                }
            }
        },
    }
}

/// The concatenation of the body rendered once per element, in order, with
/// `bn` bound to the element in the innermost frame.
pub open spec fn sp_each(
    items: Seq<Val>,
    bn: Seq<char>,
    body: SubText,
    src: Seq<char>,
    comp: Compiler,
    ds: DataSource,
    root: int,
    sc: ScopeV,
    depth: nat,
) -> Step<Seq<char>>
    decreases depth, body, 1int, items.len(),
{
    if items.len() == 0 {
        Step::Done(Seq::empty(), sc)
    } else {
        match sp_sub(body, src, comp, ds, root, scope_set(sc, bn, items.first()), depth) {
            Step::Done(s, sc1) => match sp_each(
                items.drop_first(),
                bn,
                body,
                src,
                comp,
                ds,
                root,
                sc1,
                depth,
            ) {
                Step::Done(rest, sc2) => Step::Done(s + rest, sc2),
                Step::Fail(er) => Step::Fail(er),
                Step::Hosted => Step::Hosted,
            },
            Step::Fail(er) => Step::Fail(er),
            Step::Hosted => Step::Hosted,
        }
    }
}

/// What the `if` helper renders: the first parameter's truthiness selects
/// the body; a falsy condition follows the chain — a chained `if` evaluates
/// as a fresh conditional, a chained `else` renders its body, any other
/// chained name is an error — and with no chain renders nothing.
pub open spec fn sp_if_block(
    b: FnBlock,
    src: Seq<char>,
    comp: Compiler,
    ds: DataSource,
    root: int,
    sc: ScopeV,
    depth: nat,
) -> Step<Seq<char>>
    decreases depth, b, 2int, 0int,
{
    if b.params@.len() == 0 {
        Step::Fail(ErrV::InvalidArg(0))
    } else {
        match sp_expr(b.params@[0], ds, root, sc) {
            Step::Done(cond, sc1) => match b.block {
                None => Step::Fail(ErrV::ExpectedBody("if"@)),
                Some(body) => {
                    if !falsy(cond) {
                        sp_sub(body, src, comp, ds, root, sc1, depth)
                    } else {
                        match b.chain {
                            Some(c) => {
                                if c.name@ == "if"@ {
                                    sp_block(*c, src, comp, ds, root, sc1, depth)
                                } else if c.name@ == "else"@ {
                                    match c.block {
                                        Some(eb) => sp_sub(eb, src, comp, ds, root, sc1, depth),
                                        None => Step::Fail(ErrV::ExpectedBody("else"@)),
                                    }
                                } else {
                                    Step::Fail(ErrV::UnexpectedChain(c.name@))
                                }
                            },
                            None => Step::Done(Seq::empty(), sc1),
                        }
                    }
                },
            },
            Step::Fail(er) => Step::Fail(er),
            Step::Hosted => Step::Hosted,
        }
    }
}

/// What the `template` helper renders: no body allowed; the first parameter
/// names a registered template, the second evaluates to an object handle,
/// and the named template renders against that object with a fresh scope and
/// one inclusion level fewer. The including render's scope is untouched.
pub open spec fn sp_template_block(
    b: FnBlock,
    src: Seq<char>,
    comp: Compiler,
    ds: DataSource,
    root: int,
    sc: ScopeV,
    depth: nat,
) -> Step<Seq<char>>
    decreases depth, b, 2int, 0int,
{
    match b.block {
        Some(_) => Step::Fail(ErrV::UnexpectedBody("template"@)),
        None => {
            if b.params@.len() == 0 {
                Step::Fail(ErrV::InvalidArg(0))
            } else {
                match sp_expr(b.params@[0], ds, root, sc) {
                    Step::Done(nv, sc1) => match nv {
                        Val::Str(tname) => {
                            if b.params@.len() < 2 {
                                Step::Fail(ErrV::InvalidArg(1))
                            } else {
                                match sp_expr(b.params@[1], ds, root, sc1) {
                                    Step::Done(dv, sc2) => match dv {
                                        Val::Object(oid) => match tpl_get(
                                            comp.templates@,
                                            tname,
                                        ) {
                                            None => Step::Fail(ErrV::TemplateNotExist(tname)),
                                            Some(t) => {
                                                if depth == 0 {
                                                    Step::Fail(ErrV::RecursionLimit)
                                                } else {
                                                    match sp_sub(
                                                        t.1,
                                                        t.0,
                                                        comp,
                                                        ds,
                                                        oid,
                                                        seq![Seq::<(Seq<char>, Val)>::empty()],
                                                        (depth - 1) as nat,
                                                    ) {
                                                        Step::Done(out, _) => Step::Done(out, sc2),
                                                        Step::Fail(er) => Step::Fail(er),
                                                        Step::Hosted => Step::Hosted,
                                                    }
                                                }
                                            },
                                        },
                                        _ => Step::Fail(ErrV::ExpectedObject),
                                    },
                                    Step::Fail(er) => Step::Fail(er),
                                    Step::Hosted => Step::Hosted,
                                }
                            }
                        },
                        _ => Step::Fail(ErrV::InvalidArg(0)),
                    },
                    Step::Fail(er) => Step::Fail(er),
                    Step::Hosted => Step::Hosted,
                }
            }
        },
    }
}

/// What a run of expressions evaluates to, left to right, threading the
/// scope.
pub open spec fn sp_exprs(es: Seq<ExpressionKind>, ds: DataSource, root: int, sc: ScopeV) -> Step<
    Seq<Val>,
>
    decreases es, 1int,
{
    if es.len() == 0 {
        Step::Done(Seq::empty(), sc)
    } else {
        match sp_expr(es.first(), ds, root, sc) {
            Step::Done(v, sc1) => match sp_exprs(es.drop_first(), ds, root, sc1) {
                Step::Done(vs, sc2) => Step::Done(seq![v] + vs, sc2),
                Step::Fail(er) => Step::Fail(er),
                Step::Hosted => Step::Hosted,
            },
            Step::Fail(er) => Step::Fail(er),
            Step::Hosted => Step::Hosted,
        }
    }
}

} // verus!
