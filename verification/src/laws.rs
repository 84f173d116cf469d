//! The engine's general laws, stated over the evaluation model and proved
//! once and for all.

use vstd::prelude::*;
use crate::compiler::Compiler;
use crate::convert::Val;
use crate::convert::falsy;
use crate::data::DataSource;
use crate::data::ds_get;
use crate::memory::ScopeV;
use crate::memory::lemma_scope_set_get;
use crate::memory::scope_get;
use crate::memory::scope_set;
use crate::parser::ExpressionKind;
use crate::parser::SubText;
use crate::semantics::Step;
use crate::semantics::gap;
use crate::semantics::sp_each;
use crate::semantics::sp_expr;
use crate::semantics::sp_sub;

verus! {

/// Law: rendering a template that contains no tags returns the source
/// unchanged, whatever the data, registry, scope and depth.
pub proof fn lemma_no_tag_round_trip(
    st: SubText,
    src: Seq<char>,
    comp: Compiler,
    ds: DataSource,
    root: int,
    sc: ScopeV,
    depth: nat,
)
    requires
        st.templates@.len() == 0,
        st.pos.start == 0,
        st.pos.end == src.len(),
    ensures
        sp_sub(st, src, comp, ds, root, sc, depth) == Step::Done(src, sc),
{
    if src.len() > 0 {
        assert(gap(src, 0, src.len() as int) =~= src);
    } else {
        assert(gap(src, 0, src.len() as int) =~= src);
    }
}

/// Law: iterating an empty list renders the empty string and leaves the
/// scope as it was.
pub proof fn lemma_each_empty(
    bn: Seq<char>,
    body: SubText,
    src: Seq<char>,
    comp: Compiler,
    ds: DataSource,
    root: int,
    sc: ScopeV,
    depth: nat,
)
    ensures
        sp_each(Seq::empty(), bn, body, src, comp, ds, root, sc, depth) == Step::<Seq<char>>::Done(
            Seq::empty(),
            sc,
        ),
{
}

/// Law: iterating a non-empty list renders the body once for its first
/// element — with the bound name set to that element, and visible to the
/// body — and then the rest of the list in order, concatenating the outputs.
pub proof fn lemma_each_unroll(
    items: Seq<Val>,
    bn: Seq<char>,
    body: SubText,
    src: Seq<char>,
    comp: Compiler,
    ds: DataSource,
    root: int,
    sc: ScopeV,
    depth: nat,
)
    requires
        items.len() > 0,
        sc.len() > 0,
    ensures
        scope_get(scope_set(sc, bn, items.first()), bn) == Some(items.first()),
        sp_each(items, bn, body, src, comp, ds, root, sc, depth) == match sp_sub(
            body,
            src,
            comp,
            ds,
            root,
            scope_set(sc, bn, items.first()),
            depth,
        ) {
            Step::Done(s, sc1) => match sp_each(
                items.drop_first(),
                bn,
                body,
                src,
                comp,
                ds,
                root,
                sc1,
                depth,
            ) {
                Step::Done(rest, sc2) => Step::Done(s + rest, sc2),
                Step::Fail(er) => Step::Fail(er),
                Step::Hosted => Step::Hosted,
            },
            Step::Fail(er) => Step::Fail(er),
            Step::Hosted => Step::Hosted,
        },
{
    lemma_scope_set_get(sc, bn, items.first());
}

/// Law: the empty string, the number zero, `false`, `null` and `undefined`
/// are falsy; every non-empty string, every other number, `true`, every list
/// (empty or not) and every object or function handle is truthy.
pub proof fn lemma_falsiness(s: Seq<char>, n: int)
    ensures
        falsy(Val::Str(s)) <==> s.len() == 0,
        falsy(Val::Num(s)) <==> s == seq!['0'],
        falsy(Val::Bool(false)) && !falsy(Val::Bool(true)),
        falsy(Val::Null) && falsy(Val::Undefined),
        forall|items: Seq<Val>| !falsy(Val::List(items)),
        !falsy(Val::Object(n)) && !falsy(Val::Function(n)),
{
}

/// Law: within one render, repeated references to the same variable observe
/// the memoization contract. A variable already bound in the scope evaluates
/// to that binding and leaves the scope untouched; a first resolution from
/// the data source writes the value into the innermost frame; and once a
/// reference has produced a value, evaluating the same variable again in the
/// scope it left behind produces the same value and changes nothing — even
/// if the data source would serve something fresh on a new query.
pub proof fn lemma_var_memoization(name: String, ds: DataSource, root: int, sc: ScopeV)
    requires
        sc.len() > 0,
    ensures
        scope_get(sc, name@) matches Some(v) ==> sp_expr(
            ExpressionKind::Var(name),
            ds,
            root,
            sc,
        ) == Step::Done(v, sc),
        scope_get(sc, name@) is None ==> (ds_get(ds, root, name@) matches Some(v) ==> sp_expr(
            ExpressionKind::Var(name),
            ds,
            root,
            sc,
        ) == Step::Done(v, scope_set(sc, name@, v))),
        forall|v: Val, sc1: ScopeV|
            sp_expr(ExpressionKind::Var(name), ds, root, sc) == Step::<Val>::Done(v, sc1)
                ==> sp_expr(ExpressionKind::Var(name), ds, root, sc1) == Step::<Val>::Done(
                v,
                sc1,
            ),
{
    match scope_get(sc, name@) {
        Some(v) => {},
        None => {
            match ds_get(ds, root, name@) {
                Some(v) => {
                    lemma_scope_set_get(sc, name@, v);
                },
                None => {},
            }
        },
    }
}

} // verus!
