//! The evaluator/compiler: walks a parsed tree against a data context and
//! reassembles literal text and evaluated tag output into the final string.
//!
//! A [`Compiler`] owns the template registry (name to source and tree) and
//! the helper registry (name to implementation). Rendering creates a fresh
//! scope stack per call, resolves expressions against it and the data
//! source, and dispatches block tags to their helpers. Every function here
//! is verified against the model in [`crate::semantics`]: deterministic
//! outcomes are exact, and only what follows the first host interaction is
//! left open.

use vstd::prelude::*;
use crate::convert::RawObject;
use crate::convert::RawValue;
use crate::convert::chars_string;
use crate::convert::compare_vals;
use crate::convert::rv_str;
use crate::convert::str_chars;
use crate::convert::str_eq;
use crate::convert::subvec;
use crate::data::DataSource;
use crate::data::HostEnv;
use crate::error::ErrV;
use crate::error::FinchError;
use crate::memory::Memory;
use crate::parser::ExpressionKind;
use crate::parser::BinaryOps;
use crate::parser::UnaryOps;
use crate::parser::FnBlock;
use crate::parser::FinchResult;
use crate::parser::Parser;
use crate::parser::SubText;
use crate::parser::Template;
use crate::parser::TemplateKind;
use crate::parser::wf_block;
use crate::parser::wf_sub;
use crate::parser::wf_tpl;
use crate::parser::lemma_wf_tpls_index;
use crate::semantics::Step;
use crate::semantics::helper_get;
use crate::semantics::join_path;
use crate::semantics::ord_step;
use crate::semantics::sp_binary;
use crate::semantics::sp_expr;
use crate::semantics::sp_exprs;
use crate::semantics::sp_path;
use crate::semantics::tpl_get;

verus! {

/// One of the engine's own block helpers.
#[derive(Clone, Copy, Debug)]
pub enum NativeHelper {
    /// `each(list, name)`: render the body once per element, binding `name`.
    Each,
    /// `template(name, data)`: render another registered template.
    Template,
    /// `js`: run the raw body text as host code.
    Js,
    /// `if(cond)`: render the body when truthy, else follow the chain.
    If,
}

/// A helper implementation: one of the engine's own, or a host-supplied
/// callback behind a handle.
#[derive(Clone, Copy, Debug)]
pub enum FnBlockHelper {
    Native(NativeHelper),
    Js(RawObject),
}

/// The engine: a registry of templates (name to source text and parsed
/// tree) and of helpers (name to implementation).
pub struct Compiler {
    pub templates: Vec<(String, Vec<char>, SubText)>,
    pub helpers: Vec<(String, FnBlockHelper)>,
}

impl Compiler {
    /// Every registered tree lies within its own source.
    pub open spec fn wf(&self) -> bool {
        forall|i: int| 0 <= i < self.templates@.len()
            ==> wf_sub(#[trigger] self.templates@[i].2, self.templates@[i].1@.len() as int)
    }
}

/// A registry whose every tree lies within its source serves any registered
/// name a well-formed pair.
pub proof fn lemma_tpl_get_wf(ts: Seq<(String, Vec<char>, SubText)>, k: Seq<char>)
    requires
        forall|i: int| 0 <= i < ts.len() ==> wf_sub(#[trigger] ts[i].2, ts[i].1@.len() as int),
    ensures
        tpl_get(ts, k) matches Some(t) ==> wf_sub(t.1, t.0.len() as int),
    decreases ts.len(),
{
    if ts.len() > 0 && ts.last().0@ != k {
        assert(forall|i: int| 0 <= i < ts.len() - 1 ==> ts.drop_last()[i] == ts[i]);
        lemma_tpl_get_wf(ts.drop_last(), k);
    }
}

impl ExpressionKind {
    /// Evaluates this expression to a value, exactly as [`sp_expr`] says:
    /// where the model is deterministic the returned value or error is the
    /// model's, and the scope stack afterwards holds exactly the model's
    /// memoized bindings.
    pub fn compile<H: HostEnv>(
        &self,
        ds: &DataSource,
        root: usize,
        cache: &mut Memory,
        host: &mut H,
    ) -> (r: FinchResult<RawValue>)
        requires
            old(cache)@.len() > 0,
        ensures
            final(cache)@.len() == old(cache)@.len(),
            match sp_expr(*self, *ds, root as int, old(cache)@) {
                Step::Done(v, sc) => (r matches Ok(rv) && rv@ == v) && final(cache)@ == sc,
                Step::Fail(e) => r matches Err(er) && er@ == e,
                Step::Hosted => true,
            },
            (*self matches ExpressionKind::Var(_) || *self matches ExpressionKind::VarDot(_))
                && sp_expr(*self, *ds, root as int, old(cache)@) is Fail ==> final(cache)@ == old(
                cache,
            )@,
        decreases *self, 0int,
    {
        match self {
            ExpressionKind::Str(s) => Ok(RawValue::Str(s.clone())),
            ExpressionKind::Number(s) => Ok(RawValue::Num(s.clone())),
            ExpressionKind::Bool(b) => Ok(RawValue::Bool(*b)),
            ExpressionKind::Undefined => Ok(RawValue::Undefined),
            ExpressionKind::Null => Ok(RawValue::Null),
            ExpressionKind::Var(name) => {
                match cache.get(name) {
                    Some(v) => Ok(v.clone()),
                    None => {
                        match ds.get_prop(root, name) {
                            Some(v) => {
                                let owned = v.clone();
                                let memo = owned.clone();
                                cache.set(name.clone(), memo);
                                Ok(owned)
                            },
                            None => Err(FinchError::PropNotExist(name.clone())),
                        }
                    },
                }
            },
            ExpressionKind::VarDot(path) => {
                if path.len() == 0 {
                    return Err(FinchError::MissingPropName);
                }
                let joined_chars = join_chars(path);
                let joined = chars_string(&joined_chars);
                match cache.get(&joined) {
                    Some(v) => Ok(v.clone()),
                    None => {
                        let start: RawValue = match cache.get(&path[0]) {
                            Some(v) => v.clone(),
                            None => {
                                match ds.get_prop(root, &path[0]) {
                                    Some(v) => v.clone(),
                                    None => {
                                        return Err(FinchError::PropNotExist(path[0].clone()));
                                    },
                                }
                            },
                        };
                        let mut cur = start;
                        let mut i: usize = 1;
                        while i < path.len()
                            invariant
                                1 <= i <= path@.len(),
                                sp_path(*ds, cur@, path@, i as int) == sp_path(
                                    *ds,
                                    sp_start(*ds, root as int, old(cache)@, path@),
                                    path@,
                                    1,
                                ),
                            decreases path@.len() - i,
                        {
                            match cur {
                                RawValue::Object(h) => {
                                    match ds.get_prop(h.0, &path[i]) {
                                        Some(v) => {
                                            cur = v.clone();
                                        },
                                        None => {
                                            return Err(FinchError::PropNotExist(path[i].clone()));
                                        },
                                    }
                                },
                                _ => {
                                    return Err(FinchError::ExpectedObject);
                                },
                            }
                            i += 1;
                        }
                        let memo = cur.clone();
                        cache.set(joined, memo);
                        Ok(cur)
                    },
                }
            },
            ExpressionKind::Unary(u) => {
                match &**u {
                    UnaryOps::Not(inner) => {
                        let v = inner.compile(ds, root, cache, host)?;
                        Ok(RawValue::Bool(v.is_falsey()))
                    },
                    UnaryOps::ShortCircuit(inner) => inner.compile(ds, root, cache, host),
                }
            },
            ExpressionKind::Binary(b) => {
                proof {
                    assert(sp_expr(*self, *ds, root as int, old(cache)@) == sp_binary(
                        **b,
                        *ds,
                        root as int,
                        old(cache)@,
                    ));
                }
                match &**b {
                    BinaryOps::Compare(l, r) => {
                        let lv = l.compile(ds, root, cache, host)?;
                        let rv = r.compile(ds, root, cache, host)?;
                        Ok(RawValue::Bool(lv.equals(&rv)))
                    },
                    BinaryOps::Not(l, r) => {
                        let lv = l.compile(ds, root, cache, host)?;
                        let rv = r.compile(ds, root, cache, host)?;
                        Ok(RawValue::Bool(!lv.equals(&rv)))
                    },
                    BinaryOps::Gt(l, r) => {
                        let lv = l.compile(ds, root, cache, host)?;
                        let rv = r.compile(ds, root, cache, host)?;
                        compare_ordering(&lv, &rv, false, false)
                    },
                    BinaryOps::Lt(l, r) => {
                        let lv = l.compile(ds, root, cache, host)?;
                        let rv = r.compile(ds, root, cache, host)?;
                        compare_ordering(&lv, &rv, true, false)
                    },
                    BinaryOps::Gte(l, r) => {
                        let lv = l.compile(ds, root, cache, host)?;
                        let rv = r.compile(ds, root, cache, host)?;
                        compare_ordering(&lv, &rv, false, true)
                    },
                    BinaryOps::Lte(l, r) => {
                        let lv = l.compile(ds, root, cache, host)?;
                        let rv = r.compile(ds, root, cache, host)?;
                        compare_ordering(&lv, &rv, true, true)
                    },
                    BinaryOps::And(l, r) => {
                        let lv = l.compile(ds, root, cache, host)?;
                        if lv.is_falsey() {
                            Ok(lv)
                        } else {
                            r.compile(ds, root, cache, host)
                        }
                    },
                    BinaryOps::Or(l, r) => {
                        let lv = l.compile(ds, root, cache, host)?;
                        if !lv.is_falsey() {
                            Ok(lv)
                        } else {
                            r.compile(ds, root, cache, host)
                        }
                    },
                }
            },
            ExpressionKind::Call { var, params } => {
                match &**var {
                    ExpressionKind::Var(name) => {
                        let args = compile_params(params, ds, root, cache, host)?;
                        match ds.get_prop(root, name) {
                            None => Err(FinchError::PropNotExist(name.clone())),
                            Some(f) => {
                                match f {
                                    RawValue::Function(h) => {
                                        let handle = *h;
                                        match host.call_function(&handle, args) {
                                            Ok(v) => Ok(v),
                                            Err(_) => Err(
                                                FinchError::ErrInFunction(name.clone()),
                                            ),
                                        }
                                    },
                                    _ => Err(FinchError::NotCallable(name.clone())),
                                }
                            },
                        }
                    },
                    _ => Err(FinchError::NotCallable(String::new())),
                }
            },
        }
    }

    /// Evaluates this expression to a value for the host's use. In this
    /// value model the host-facing and engine-native paths coincide, value
    /// for value, so this is [`Self::compile`] under the name the host
    /// boundary uses; it follows the same scope and memoization rules.
    pub fn compile_to_js<H: HostEnv>(
        &self,
        ds: &DataSource,
        root: usize,
        cache: &mut Memory,
        host: &mut H,
    ) -> (r: FinchResult<RawValue>)
        requires
            old(cache)@.len() > 0,
        ensures
            final(cache)@.len() == old(cache)@.len(),
            match sp_expr(*self, *ds, root as int, old(cache)@) {
                Step::Done(v, sc) => (r matches Ok(rv) && rv@ == v) && final(cache)@ == sc,
                Step::Fail(e) => r matches Err(er) && er@ == e,
                Step::Hosted => true,
            },
    {
        self.compile(ds, root, cache, host)
    }
}

/// How many template inclusions may nest within one render call.
pub const INCLUDE_DEPTH: u64 = 64;

impl SubText {
    /// Renders this tree, exactly as [`sp_sub`] says: literal source text
    /// between tags is copied verbatim, each tag's output is spliced in, and
    /// the scope stack afterwards holds exactly the model's bindings.
    pub fn compile<H: HostEnv>(
        &self,
        src: &Vec<char>,
        comp: &Compiler,
        ds: &DataSource,
        root: usize,
        cache: &mut Memory,
        host: &mut H,
        depth: u64,
    ) -> (r: FinchResult<Vec<char>>)
        requires
            wf_sub(*self, src@.len() as int),
            comp.wf(),
            old(cache)@.len() > 0,
        ensures
            r is Ok ==> final(cache)@.len() == old(cache)@.len() && final(cache)@.len() > 0,
            match crate::semantics::sp_sub(
                *self,
                src@,
                *comp,
                *ds,
                root as int,
                old(cache)@,
                depth as nat,
            ) {
                Step::Done(s, sc) => (r matches Ok(o) && o@ == s) && final(cache)@ == sc,
                Step::Fail(e) => r matches Err(er) && er@ == e,
                Step::Hosted => true,
            },
        decreases depth, *self, 0int, 0int,
    {
        let ghost full = crate::semantics::sp_sub(
            *self,
            src@,
            *comp,
            *ds,
            root as int,
            old(cache)@,
            depth as nat,
        );
        proof {
            lemma_wf_tpls_index(self.templates@, src@.len() as int);
            assert(self.templates@.skip(0) =~= self.templates@);
        }
        let mut out: Vec<char> = Vec::new();
        let mut cursor: usize = self.pos.start;
        let mut i: usize = 0;
        while i < self.templates.len()
            invariant
                i <= self.templates@.len(),
                wf_sub(*self, src@.len() as int),
                forall|j: int| 0 <= j < self.templates@.len() ==> wf_tpl(
                    #[trigger] self.templates@[j],
                    src@.len() as int,
                ),
                comp.wf(),
                cache@.len() == old(cache)@.len(),
                cache@.len() > 0,
                cursor <= src@.len(),
                full == crate::semantics::sp_sub(
                    *self,
                    src@,
                    *comp,
                    *ds,
                    root as int,
                    old(cache)@,
                    depth as nat,
                ),
                full is Hosted || match crate::semantics::sp_tpls(
                    self.templates@.skip(i as int),
                    cursor as int,
                    self.pos.end as int,
                    src@,
                    *comp,
                    *ds,
                    root as int,
                    cache@,
                    depth as nat,
                ) {
                    Step::Done(s, sc) => full == Step::Done(out@ + s, sc),
                    Step::Fail(e) => full == Step::<Seq<char>>::Fail(e),
                    Step::Hosted => full is Hosted,
                },
            decreases self.templates@.len() - i,
        {
            let ghost pre = cache@;
            let ghost pre_out = out@;
            let ghost cursor0 = cursor as int;
            let ghost tv = self.templates@[i as int];
            proof {
                assert(self.templates@.skip(i as int).first() == tv);
                assert(self.templates@.skip(i as int).drop_first() =~= self.templates@.skip(
                    i as int + 1,
                ));
            }
            let t = &self.templates[i];
            if cursor < t.pos.start {
                let mut lit = subvec(src, cursor, t.pos.start);
                out.append(&mut lit);
            }
            proof {
                assert(pre_out + Seq::<char>::empty() =~= pre_out);
                assert(out@ == pre_out + crate::semantics::gap(src@, cursor0, tv.pos.start as int));
            }
            let mut piece: Vec<char> = match &t.kind {
                TemplateKind::Expression(e) => {
                    proof {
                        assert(crate::semantics::sp_tpl(
                            tv,
                            src@,
                            *comp,
                            *ds,
                            root as int,
                            pre,
                            depth as nat,
                        ) == match sp_expr(*e, *ds, root as int, pre) {
                            Step::Done(v, sc1) => Step::Done(rv_str(v), sc1),
                            Step::Fail(er) => Step::Fail(er),
                            Step::Hosted => Step::Hosted,
                        });
                    }
                    let v = e.compile(ds, root, cache, host)?;
                    v.to_chars()
                },
                TemplateKind::Block(b) => {
                    proof {
                        assert(crate::semantics::sp_tpl(
                            tv,
                            src@,
                            *comp,
                            *ds,
                            root as int,
                            pre,
                            depth as nat,
                        ) == crate::semantics::sp_block(
                            *b,
                            src@,
                            *comp,
                            *ds,
                            root as int,
                            pre,
                            depth as nat,
                        ));
                    }
                    b.compile(src, comp, ds, root, cache, host, depth)?
                },
            };
            out.append(&mut piece);
            cursor = t.pos.end;
            i += 1;
            proof {
                let lit = crate::semantics::gap(src@, cursor0, tv.pos.start as int);
                match crate::semantics::sp_tpl(tv, src@, *comp, *ds, root as int, pre, depth as nat) {
                    Step::Done(s, sc1) => {
                        assert(out@ == (pre_out + lit) + s);
                        assert forall|rest: Seq<char>| (pre_out + (lit + s + rest)) =~= (out@
                            + rest) by {}
                    },
                    _ => {},
                }
            }
        }
        proof {
            assert(self.templates@.skip(self.templates@.len() as int) =~= Seq::<
                Template,
            >::empty());
        }
        let ghost pre_out = out@;
        let ghost cursor1 = cursor as int;
        if cursor < self.pos.end {
            let mut lit = subvec(src, cursor, self.pos.end);
            out.append(&mut lit);
        }
        proof {
            assert(pre_out + Seq::<char>::empty() =~= pre_out);
            assert(out@ == pre_out + crate::semantics::gap(src@, cursor1, self.pos.end as int));
            assert(crate::semantics::sp_tpls(
                Seq::<Template>::empty(),
                cursor1,
                self.pos.end as int,
                src@,
                *comp,
                *ds,
                root as int,
                cache@,
                depth as nat,
            ) == Step::<Seq<char>>::Done(
                crate::semantics::gap(src@, cursor1, self.pos.end as int),
                cache@,
            ));
        }
        Ok(out)
    }
}

impl FnBlock {
    /// Renders this block by dispatching to its named helper, exactly as
    /// [`sp_block`] says.
    pub fn compile<H: HostEnv>(
        &self,
        src: &Vec<char>,
        comp: &Compiler,
        ds: &DataSource,
        root: usize,
        cache: &mut Memory,
        host: &mut H,
        depth: u64,
    ) -> (r: FinchResult<Vec<char>>)
        requires
            wf_block(*self, src@.len() as int),
            comp.wf(),
            old(cache)@.len() > 0,
        ensures
            r is Ok ==> final(cache)@.len() == old(cache)@.len() && final(cache)@.len() > 0,
            match crate::semantics::sp_block(
                *self,
                src@,
                *comp,
                *ds,
                root as int,
                old(cache)@,
                depth as nat,
            ) {
                Step::Done(s, sc) => (r matches Ok(o) && o@ == s) && final(cache)@ == sc,
                Step::Fail(e) => r matches Err(er) && er@ == e,
                Step::Hosted => true,
            },
        decreases depth, *self, 3int, 0int,
    {
        match comp.get_helper(&self.name) {
            None => Err(FinchError::HelperNotFound(self.name.clone())),
            Some(FnBlockHelper::Js(h)) => {
                let args = compile_params(&self.params, ds, root, cache, host)?;
                let body_text: Option<String> = match &self.block {
                    Some(bsub) => {
                        let bo = bsub.compile(src, comp, ds, root, cache, host, depth)?;
                        Some(chars_string(&bo))
                    },
                    None => None,
                };
                match host.call_helper(&h, args, body_text) {
                    Ok(v) => Ok(v.to_chars()),
                    Err(m) => Err(FinchError::External(m)),
                }
            },
            Some(FnBlockHelper::Native(nh)) => {
                match nh {
                    NativeHelper::Each => crate::default_helpers::run_each(
                        self,
                        src,
                        comp,
                        ds,
                        root,
                        cache,
                        host,
                        depth,
                    ),
                    NativeHelper::If => crate::default_helpers::run_if(
                        self,
                        src,
                        comp,
                        ds,
                        root,
                        cache,
                        host,
                        depth,
                    ),
                    NativeHelper::Template => crate::default_helpers::run_template(
                        self,
                        src,
                        comp,
                        ds,
                        root,
                        cache,
                        host,
                        depth,
                    ),
                    NativeHelper::Js => {
                        match &self.block {
                            Some(bsub) => {
                                proof {
                                    assert(wf_sub(*bsub, src@.len() as int));
                                }
                                let code = subvec(src, bsub.pos.start, bsub.pos.end);
                                let code_s = chars_string(&code);
                                let handle = RawObject(root);
                                match host.run_script(code_s.as_str(), &handle) {
                                    Ok(v) => Ok(v.to_chars()),
                                    Err(m) => Err(FinchError::External(m)),
                                }
                            },
                            None => Err(FinchError::ExpectedBody(String::from_str("js"))),
                        }
                    },
                }
            },
        }
    }
}

impl Compiler {
    /// The helper registered under `name`, the latest registration winning.
    pub fn get_helper(&self, name: &String) -> (r: Option<FnBlockHelper>)
        ensures
            r == helper_get(self.helpers@, name@),
    {
        proof {
            assert(self.helpers@.take(self.helpers@.len() as int) =~= self.helpers@);
        }
        let mut ei = self.helpers.len();
        while ei > 0
            invariant
                ei <= self.helpers@.len(),
                helper_get(self.helpers@, name@) == helper_get(
                    self.helpers@.take(ei as int),
                    name@,
                ),
            decreases ei,
        {
            ei -= 1;
            proof {
                assert(self.helpers@.take(ei + 1).last() == self.helpers@[ei as int]);
                assert(self.helpers@.take(ei + 1).drop_last() =~= self.helpers@.take(ei as int));
            }
            if str_eq(self.helpers[ei].0.as_str(), name.as_str()) {
                return Some(self.helpers[ei].1);
            }
        }
        proof {
            assert(self.helpers@.take(0) =~= Seq::<(String, FnBlockHelper)>::empty());
        }
        None
    }

    /// The index of the template registered under `name`, the latest
    /// registration winning.
    pub fn get_template(&self, name: &str) -> (r: Option<usize>)
        ensures
            match tpl_get(self.templates@, name@) {
                Some(t) => (r matches Some(i) && 0 <= i < self.templates@.len())
                    && self.templates@[r->Some_0 as int].1@ == t.0 && self.templates@[r->Some_0
                    as int].2 == t.1,
                None => r is None,
            },
    {
        proof {
            assert(self.templates@.take(self.templates@.len() as int) =~= self.templates@);
        }
        let mut ei = self.templates.len();
        while ei > 0
            invariant
                ei <= self.templates@.len(),
                tpl_get(self.templates@, name@) == tpl_get(self.templates@.take(ei as int), name@),
            decreases ei,
        {
            ei -= 1;
            proof {
                assert(self.templates@.take(ei + 1).last() == self.templates@[ei as int]);
                assert(self.templates@.take(ei + 1).drop_last() =~= self.templates@.take(
                    ei as int,
                ));
            }
            if str_eq(self.templates[ei].0.as_str(), name) {
                return Some(ei);
            }
        }
        proof {
            assert(self.templates@.take(0) =~= Seq::<(String, Vec<char>, SubText)>::empty());
        }
        None
    }

    /// A fresh engine with no templates and the built-in helpers registered.
    pub fn new() -> (r: Self)
        ensures
            r.wf(),
            r.templates@.len() == 0,
            crate::default_helpers::is_builtin_helpers(r.helpers@),
    {
        Compiler { templates: Vec::new(), helpers: crate::default_helpers::init() }
    }

    /// Parses `text` and registers it under `name`, shadowing any earlier
    /// template of that name: registration succeeds exactly when parsing
    /// does, the stored tree is exactly what the parsing model says the
    /// source parses to, and a parse failure registers nothing — no partial
    /// tree is retained.
    pub fn add_template(&mut self, name: &str, text: &str) -> (r: FinchResult<()>)
        requires
            old(self).wf(),
        ensures
            final(self).wf(),
            final(self).helpers@ == old(self).helpers@,
            r is Err ==> final(self).templates@ == old(self).templates@,
            r is Ok ==> {
                &&& tpl_get(final(self).templates@, name@) matches Some(t) && t.0 == text@
                    && t.1.pos.start == 0 && t.1.pos.end == text@.len() && (!crate::parser::has_tag(
                    text@,
                ) ==> t.1.templates@.len() == 0)
                &&& forall|k: Seq<char>| k != name@ ==> tpl_get(final(self).templates@, k)
                    == tpl_get(old(self).templates@, k)
            },
            match crate::parser::sp_parse(text@) {
                Ok(sv) => r is Ok && (tpl_get(final(self).templates@, name@) matches Some(t)
                    && crate::parser::sub_view(t.1) == sv),
                Err(er) => r matches Err(x) && x@ == er,
            },
    {
        let parsed = Parser::parse(text)?;
        let entry = (String::from_str(name), str_chars(text), parsed);
        self.templates.push(entry);
        proof {
            assert(self.templates@.drop_last() =~= old(self).templates@);
            assert(forall|i: int| 0 <= i < old(self).templates@.len()
                ==> self.templates@[i] == old(self).templates@[i]);
            assert(self.templates@.last() == self.templates@[self.templates@.len() - 1]);
        }
        Ok(())
    }

    /// Registers a host-supplied helper callback under `name`, shadowing any
    /// earlier helper of that name.
    pub fn add_helper(&mut self, name: String, func: RawObject)
        requires
            old(self).wf(),
        ensures
            final(self).wf(),
            final(self).templates@ == old(self).templates@,
            helper_get(final(self).helpers@, name@) == Some(FnBlockHelper::Js(func)),
            forall|k: Seq<char>| k != name@ ==> helper_get(final(self).helpers@, k) == helper_get(
                old(self).helpers@,
                k,
            ),
    {
        let ghost gname = name@;
        self.helpers.push((name, FnBlockHelper::Js(func)));
        proof {
            assert(self.helpers@.drop_last() =~= old(self).helpers@);
            assert(self.helpers@.last() == self.helpers@[self.helpers@.len() - 1]);
        }
    }

    /// Unregisters every helper of the given name; other helpers keep
    /// resolving as before.
    pub fn remove_helper(&mut self, name: &str)
        requires
            old(self).wf(),
        ensures
            final(self).wf(),
            final(self).templates@ == old(self).templates@,
            helper_get(final(self).helpers@, name@) is None,
            forall|k: Seq<char>| k != name@ ==> helper_get(final(self).helpers@, k) == helper_get(
                old(self).helpers@,
                k,
            ),
    {
        let mut kept: Vec<(String, FnBlockHelper)> = Vec::new();
        let mut i: usize = 0;
        proof {
            assert(crate::semantics::without_name(self.helpers@.take(0), name@) =~= Seq::<
                (String, FnBlockHelper),
            >::empty());
        }
        while i < self.helpers.len()
            invariant
                i <= self.helpers@.len(),
                crate::semantics::table_alike(
                    kept@,
                    crate::semantics::without_name(self.helpers@.take(i as int), name@),
                ),
            decreases self.helpers@.len() - i,
        {
            proof {
                assert(self.helpers@.take(i + 1).last() == self.helpers@[i as int]);
                assert(self.helpers@.take(i + 1).drop_last() =~= self.helpers@.take(i as int));
            }
            if !str_eq(self.helpers[i].0.as_str(), name) {
                let ghost pre = kept@;
                let entry = (self.helpers[i].0.clone(), self.helpers[i].1);
                proof {
                    assert(entry.0@ == self.helpers@[i as int].0@);
                }
                kept.push(entry);
                proof {
                    let target = crate::semantics::without_name(
                        self.helpers@.take(i + 1),
                        name@,
                    );
                    assert(target == crate::semantics::without_name(
                        self.helpers@.take(i as int),
                        name@,
                    ).push(self.helpers@[i as int]));
                    assert(forall|j: int| 0 <= j < pre.len() ==> kept@[j] == pre[j]);
                    assert(forall|j: int| 0 <= j < target.len() - 1 ==> target[j]
                        == crate::semantics::without_name(
                        self.helpers@.take(i as int),
                        name@,
                    )[j]);
                    assert(kept@[kept@.len() - 1] == entry);
                    assert(target[target.len() - 1] == self.helpers@[i as int]);
                }
            }
            i += 1;
        }
        let ghost whole = crate::semantics::without_name(self.helpers@, name@);
        proof {
            assert(self.helpers@.take(self.helpers@.len() as int) =~= self.helpers@);
            assert forall|k: Seq<char>|
                helper_get(kept@, k) == if k == name@ {
                    Option::<FnBlockHelper>::None
                } else {
                    helper_get(self.helpers@, k)
                } by {
                crate::semantics::lemma_table_alike_get(kept@, whole, k);
                crate::semantics::lemma_without_name(self.helpers@, name@, k);
            }
        }
        self.helpers = kept;
    }

    /// Renders the template registered under `name` against the object
    /// `root` of `ds`, with a fresh scope stack: exactly the model's output
    /// where it is deterministic, an error when it fails, and whatever the
    /// host led to otherwise. A name with no registered template is an error
    /// naming it. Every failure surfaces as an error value; no partial
    /// output and no in-band diagnostic text is ever returned.
    pub fn compile<H: HostEnv>(&self, name: &str, ds: &DataSource, root: usize, host: &mut H) -> (r:
        FinchResult<String>)
        requires
            self.wf(),
        ensures
            match tpl_get(self.templates@, name@) {
                None => r matches Err(e) && e@ == ErrV::TemplateNotExist(name@),
                Some(t) => match crate::semantics::sp_sub(
                    t.1,
                    t.0,
                    *self,
                    *ds,
                    root as int,
                    seq![Seq::<(Seq<char>, crate::convert::Val)>::empty()],
                    INCLUDE_DEPTH as nat,
                ) {
                    Step::Done(s, _) => r matches Ok(o) && o@ == s,
                    Step::Fail(e) => r matches Err(er) && er@ == e,
                    Step::Hosted => true,
                },
            },
    {
        match self.get_template(name) {
            None => Err(FinchError::TemplateNotExist(String::from_str(name))),
            Some(idx) => {
                proof {
                    lemma_tpl_get_wf(self.templates@, name@);
                }
                let mut cache = Memory::new();
                let t = &self.templates[idx];
                let out = t.2.compile(&t.1, self, ds, root, &mut cache, host, INCLUDE_DEPTH)?;
                Ok(chars_string(&out))
            },
        }
    }
}

/// The value a dotted path's descent starts from: the first segment's value
/// in the scope, or else in the data source; [`Val::Undefined`] stands in
/// the impossible missing case.
pub open spec fn sp_start(
    ds: DataSource,
    root: int,
    sc: crate::memory::ScopeV,
    path: Seq<String>,
) -> crate::convert::Val {
    match crate::memory::scope_get(sc, path[0]@) {
        Some(v) => v,
        None => match crate::data::ds_get(ds, root, path[0]@) {
            Some(v) => v,
            None => crate::convert::Val::Undefined,
        },
    }
}

/// The joined text of a path's segments, separated by dots.
fn join_chars(path: &Vec<String>) -> (r: Vec<char>)
    ensures
        r@ == join_path(path@),
{
    let mut out: Vec<char> = Vec::new();
    let mut i: usize = 0;
    while i < path.len()
        invariant
            i <= path@.len(),
            out@ == join_path(path@.take(i as int)),
        decreases path@.len() - i,
    {
        if i > 0 {
            out.push('.');
        }
        let mut seg = str_chars(path[i].as_str());
        out.append(&mut seg);
        proof {
            let taken = path@.take(i + 1);
            assert(taken.drop_last() =~= path@.take(i as int));
            assert(taken.last() == path@[i as int]);
            if i == 0 {
                assert(out@ =~= join_path(taken));
            } else {
                assert(out@ =~= join_path(path@.take(i as int)) + seq!['.'] + path@[i as int]@);
            }
        }
        i += 1;
    }
    proof {
        assert(path@.take(path@.len() as int) =~= path@);
    }
    out
}

/// The ordering comparison of two evaluated operands, exactly as
/// [`ord_step`] says.
fn compare_ordering(lv: &RawValue, rv: &RawValue, less: bool, or_equal: bool) -> (r: FinchResult<
    RawValue,
>)
    ensures
        match ord_step(lv@, rv@, less, or_equal, Seq::empty()) {
            Step::Done(v, _) => r matches Ok(out) && out@ == v,
            Step::Fail(e) => r matches Err(er) && er@ == e,
            Step::Hosted => false,
        },
{
    match compare_vals(lv, rv) {
        Ok(o) => {
            let holds = match o {
                core::cmp::Ordering::Less => less,
                core::cmp::Ordering::Equal => or_equal,
                core::cmp::Ordering::Greater => !less,
            };
            Ok(RawValue::Bool(holds))
        },
        Err(e) => Err(e),
    }
}

/// Evaluates a parameter list left to right, exactly as [`sp_exprs`] says.
fn compile_params<H: HostEnv>(
    params: &Vec<ExpressionKind>,
    ds: &DataSource,
    root: usize,
    cache: &mut Memory,
    host: &mut H,
) -> (r: FinchResult<Vec<RawValue>>)
    requires
        old(cache)@.len() > 0,
    ensures
        final(cache)@.len() == old(cache)@.len(),
        match sp_exprs(params@, *ds, root as int, old(cache)@) {
            Step::Done(vs, sc) => (r matches Ok(args) && crate::convert::vals_view(args@) == vs)
                && final(cache)@ == sc,
            Step::Fail(e) => r matches Err(er) && er@ == e,
            Step::Hosted => true,
        },
    decreases *params, 1int,
{
    let mut args: Vec<RawValue> = Vec::new();
    let mut i: usize = 0;
    proof {
        broadcast use crate::convert::lemma_vals_view;

        assert(params@.skip(0) =~= params@);
    }
    while i < params.len()
        invariant
            i <= params@.len(),
            cache@.len() == old(cache)@.len(),
            cache@.len() > 0,
            args@.len() == i,
            sp_exprs(params@, *ds, root as int, old(cache)@) is Hosted || match sp_exprs(
                params@.skip(i as int),
                *ds,
                root as int,
                cache@,
            ) {
                Step::Done(vs, sc) => sp_exprs(params@, *ds, root as int, old(cache)@)
                    == Step::Done(crate::convert::vals_view(args@) + vs, sc),
                Step::Fail(e) => sp_exprs(params@, *ds, root as int, old(cache)@) == Step::<
                    Seq<crate::convert::Val>,
                >::Fail(e),
                Step::Hosted => sp_exprs(params@, *ds, root as int, old(cache)@) is Hosted,
            },
        decreases params@.len() - i,
    {
        proof {
            broadcast use crate::convert::lemma_vals_view;

            assert(params@.skip(i as int).first() == params@[i as int]);
            assert(params@.skip(i as int).drop_first() =~= params@.skip(i as int + 1));
        }
        let ghost pre = cache@;
        let ghost pre_args = args@;
        let v = params[i].compile(ds, root, cache, host)?;
        args.push(v);
        proof {
            broadcast use crate::convert::lemma_vals_view;

            assert(args@.drop_last() =~= pre_args);
            match sp_expr(params@[i as int], *ds, root as int, pre) {
                Step::Done(vv, sc1) => {
                    assert(args@.last()@ == vv);
                    assert(crate::convert::vals_view(args@) == crate::convert::vals_view(
                        pre_args,
                    ).push(vv));
                    assert forall|vs: Seq<crate::convert::Val>|
                        crate::convert::vals_view(pre_args) + (seq![vv] + vs)
                            =~= crate::convert::vals_view(args@) + vs by {
                        assert(crate::convert::vals_view(pre_args).len() == pre_args.len());
                    }
                },
                _ => {},
            }
        }
        i += 1;
    }
    proof {
        assert(params@.skip(params@.len() as int) =~= Seq::<ExpressionKind>::empty());
        assert(crate::convert::vals_view(args@) + Seq::<crate::convert::Val>::empty()
            =~= crate::convert::vals_view(args@));
    }
    Ok(args)
}

} // verus!
