//! The built-in block helpers: `each` (iteration), `if`/`else` (conditional
//! chain), `template` (render a named sub-template) and `js` (the raw-code
//! escape hatch, which runs host code and is deliberately not a safety
//! boundary). Each is verified against its rule in [`crate::semantics`].

use vstd::prelude::*;
use crate::compiler::Compiler;
use crate::compiler::FnBlockHelper;
use crate::compiler::NativeHelper;
use crate::convert::RawValue;
use crate::data::DataSource;
use crate::data::HostEnv;
use crate::error::FinchError;
use crate::memory::Memory;
use crate::parser::ExpressionKind;
use crate::parser::FinchResult;
use crate::parser::FnBlock;
use crate::parser::wf_block;
use crate::semantics::Step;
use crate::semantics::sp_each;
use crate::semantics::sp_each_block;
use crate::semantics::sp_if_block;
use crate::semantics::sp_sub;
use crate::semantics::sp_template_block;

verus! {

/// The shape of the built-in helper table: the four engine helpers under
/// their tag names.
pub open spec fn is_builtin_helpers(hs: Seq<(String, FnBlockHelper)>) -> bool {
    &&& hs.len() == 4
    &&& hs[0].0@ == "each"@ && hs[0].1 == FnBlockHelper::Native(NativeHelper::Each)
    &&& hs[1].0@ == "template"@ && hs[1].1 == FnBlockHelper::Native(NativeHelper::Template)
    &&& hs[2].0@ == "js"@ && hs[2].1 == FnBlockHelper::Native(NativeHelper::Js)
    &&& hs[3].0@ == "if"@ && hs[3].1 == FnBlockHelper::Native(NativeHelper::If)
}

/// The built-in helper table: `each`, `template`, `js` and `if`.
pub fn init() -> (r: Vec<(String, FnBlockHelper)>)
    ensures
        is_builtin_helpers(r@),
{
    let mut r: Vec<(String, FnBlockHelper)> = Vec::new();
    r.push((String::from_str("each"), FnBlockHelper::Native(NativeHelper::Each)));
    r.push((String::from_str("template"), FnBlockHelper::Native(NativeHelper::Template)));
    r.push((String::from_str("js"), FnBlockHelper::Native(NativeHelper::Js)));
    r.push((String::from_str("if"), FnBlockHelper::Native(NativeHelper::If)));
    r
}

/// Law: the built-in table resolves each of its four names to its own
/// helper, so a fresh engine dispatches `each`, `template`, `js` and `if`
/// tags to the built-ins.
pub proof fn lemma_builtin_helper_get(hs: Seq<(String, FnBlockHelper)>)
    requires
        is_builtin_helpers(hs),
    ensures
        crate::semantics::helper_get(hs, "each"@) == Some(
            FnBlockHelper::Native(NativeHelper::Each),
        ),
        crate::semantics::helper_get(hs, "template"@) == Some(
            FnBlockHelper::Native(NativeHelper::Template),
        ),
        crate::semantics::helper_get(hs, "js"@) == Some(FnBlockHelper::Native(NativeHelper::Js)),
        crate::semantics::helper_get(hs, "if"@) == Some(FnBlockHelper::Native(NativeHelper::If)),
{
    reveal_strlit("each");
    reveal_strlit("template");
    reveal_strlit("js");
    reveal_strlit("if");
    reveal_with_fuel(crate::semantics::helper_get, 5);
    let h3 = hs.drop_last();
    let h2 = h3.drop_last();
    let h1 = h2.drop_last();
    assert(hs.last() == hs[3]);
    assert(forall|i: int| 0 <= i < 3 ==> h3[i] == hs[i]);
    assert(h3.last() == hs[2]);
    assert(forall|i: int| 0 <= i < 2 ==> h2[i] == hs[i]);
    assert(h2.last() == hs[1]);
    assert(forall|i: int| 0 <= i < 1 ==> h1[i] == hs[i]);
    assert(h1.last() == hs[0]);
    assert(h1.drop_last().len() == 0);
    assert("each"@.len() == 4 && "template"@.len() == 8 && "js"@.len() == 2 && "if"@.len() == 2);
    assert("js"@[0] == 'j' && "if"@[0] == 'i');
}

/// The `each` helper: the first parameter must evaluate to a list, the
/// second must be a bare name or string naming the loop binding, and a body
/// is required. The body renders once per element in order, with the name
/// bound to the element in a frame pushed around the whole loop, exactly as
/// [`sp_each_block`] says.
pub fn run_each<H: HostEnv>(
    block: &FnBlock,
    src: &Vec<char>,
    comp: &Compiler,
    ds: &DataSource,
    root: usize,
    cache: &mut Memory,
    host: &mut H,
    depth: u64,
) -> (r: FinchResult<Vec<char>>)
    requires
        wf_block(*block, src@.len() as int),
        comp.wf(),
        old(cache)@.len() > 0,
    ensures
        r is Ok ==> final(cache)@.len() == old(cache)@.len() && final(cache)@.len() > 0,
        match sp_each_block(*block, src@, *comp, *ds, root as int, old(cache)@, depth as nat) {
            Step::Done(s, sc) => (r matches Ok(o) && o@ == s) && final(cache)@ == sc,
            Step::Fail(e) => r matches Err(er) && er@ == e,
            Step::Hosted => true,
        },
    decreases depth, *block, 2int, 0int,
{
    let body = match &block.block {
        Some(b) => b,
        None => {
            return Err(FinchError::ExpectedBody(String::from_str("each")));
        },
    };
    if block.params.len() == 0 {
        return Err(FinchError::InvalidArg(0));
    }
    let v0 = block.params[0].compile(ds, root, cache, host)?;
    let items = match v0 {
        RawValue::List(items) => items,
        _ => {
            return Err(FinchError::InvalidArg(0));
        },
    };
    if block.params.len() < 2 {
        return Err(FinchError::InvalidArg(1));
    }
    let bname: String = match &block.params[1] {
        ExpressionKind::Var(n) => n.clone(),
        ExpressionKind::Str(s) => s.clone(),
        _ => {
            return Err(FinchError::InvalidArg(1));
        },
    };
    cache.extend();
    let ghost bn = bname@;
    let ghost sc_entry = cache@;
    let ghost itemsv = crate::convert::vals_view(items@);
    let ghost each_full = sp_each(
        itemsv,
        bn,
        *body,
        src@,
        *comp,
        *ds,
        root as int,
        sc_entry,
        depth as nat,
    );
    proof {
        broadcast use crate::convert::lemma_vals_view;

        assert(itemsv.skip(0) =~= itemsv);
    }
    let mut out: Vec<char> = Vec::new();
    let mut i: usize = 0;
    while i < items.len()
        invariant
            i <= items@.len(),
            itemsv == crate::convert::vals_view(items@),
            itemsv.len() == items@.len(),
            wf_block(*block, src@.len() as int),
            block.block matches Some(b) && b == *body,
            crate::parser::wf_sub(*body, src@.len() as int),
            comp.wf(),
            cache@.len() == sc_entry.len(),
            cache@.len() > 0,
            bn == bname@,
            each_full is Hosted || match sp_each(
                itemsv.skip(i as int),
                bn,
                *body,
                src@,
                *comp,
                *ds,
                root as int,
                cache@,
                depth as nat,
            ) {
                Step::Done(rest, scf) => each_full == Step::Done(out@ + rest, scf),
                Step::Fail(e) => each_full == Step::<Seq<char>>::Fail(e),
                Step::Hosted => each_full is Hosted,
            },
        decreases items@.len() - i,
    {
        proof {
            broadcast use crate::convert::lemma_vals_view;

            assert(itemsv.skip(i as int).first() == itemsv[i as int]);
            assert(itemsv.skip(i as int).drop_first() =~= itemsv.skip(i as int + 1));
            assert(itemsv[i as int] == crate::convert::rv_view(items@[i as int]));
        }
        let bound = items[i].clone();
        cache.set(bname.clone(), bound);
        let ghost pre = cache@;
        let ghost pre_out = out@;
        let mut piece = body.compile(src, comp, ds, root, cache, host, depth)?;
        out.append(&mut piece);
        i += 1;
        proof {
            match sp_sub(*body, src@, *comp, *ds, root as int, pre, depth as nat) {
                Step::Done(s, sc1) => {
                    assert(out@ == pre_out + s);
                    assert forall|rest: Seq<char>| (pre_out + (s + rest)) =~= (out@ + rest) by {}
                },
                _ => {},
            }
        }
    }
    proof {
        assert(itemsv.skip(itemsv.len() as int) =~= Seq::<crate::convert::Val>::empty());
        assert(out@ + Seq::<char>::empty() =~= out@);
    }
    cache.destroy();
    Ok(out)
}

/// The `if` helper: the first parameter's truthiness selects the required
/// body; a falsy condition follows the chain (`if` re-evaluates, `else`
/// renders its body, anything else is an error), exactly as [`sp_if_block`]
/// says.
pub fn run_if<H: HostEnv>(
    block: &FnBlock,
    src: &Vec<char>,
    comp: &Compiler,
    ds: &DataSource,
    root: usize,
    cache: &mut Memory,
    host: &mut H,
    depth: u64,
) -> (r: FinchResult<Vec<char>>)
    requires
        wf_block(*block, src@.len() as int),
        comp.wf(),
        old(cache)@.len() > 0,
    ensures
        r is Ok ==> final(cache)@.len() == old(cache)@.len() && final(cache)@.len() > 0,
        match sp_if_block(*block, src@, *comp, *ds, root as int, old(cache)@, depth as nat) {
            Step::Done(s, sc) => (r matches Ok(o) && o@ == s) && final(cache)@ == sc,
            Step::Fail(e) => r matches Err(er) && er@ == e,
            Step::Hosted => true,
        },
    decreases depth, *block, 2int, 0int,
{
    if block.params.len() == 0 {
        return Err(FinchError::InvalidArg(0));
    }
    let cond = block.params[0].compile(ds, root, cache, host)?;
    let body = match &block.block {
        Some(b) => b,
        None => {
            return Err(FinchError::ExpectedBody(String::from_str("if")));
        },
    };
    if !cond.is_falsey() {
        body.compile(src, comp, ds, root, cache, host, depth)
    } else {
        match &block.chain {
            Some(c) => {
                proof {
                    assert(wf_block(*(*c), src@.len() as int));
                }
                if crate::convert::str_eq(c.name.as_str(), "if") {
                    c.compile(src, comp, ds, root, cache, host, depth)
                } else if crate::convert::str_eq(c.name.as_str(), "else") {
                    match &c.block {
                        Some(eb) => eb.compile(src, comp, ds, root, cache, host, depth),
                        None => Err(FinchError::ExpectedBody(String::from_str("else"))),
                    }
                } else {
                    Err(FinchError::UnexpectedChain(c.name.clone()))
                }
            },
            None => Ok(Vec::new()),
        }
    }
}

/// The `template` helper: self-closing; the first parameter names a
/// registered template and the second evaluates to an object handle, and the
/// named template renders against that object with a fresh scope stack and
/// one inclusion level fewer, exactly as [`sp_template_block`] says.
pub fn run_template<H: HostEnv>(
    block: &FnBlock,
    src: &Vec<char>,
    comp: &Compiler,
    ds: &DataSource,
    root: usize,
    cache: &mut Memory,
    host: &mut H,
    depth: u64,
) -> (r: FinchResult<Vec<char>>)
    requires
        wf_block(*block, src@.len() as int),
        comp.wf(),
        old(cache)@.len() > 0,
    ensures
        r is Ok ==> final(cache)@.len() == old(cache)@.len() && final(cache)@.len() > 0,
        match sp_template_block(*block, src@, *comp, *ds, root as int, old(cache)@, depth as nat) {
            Step::Done(s, sc) => (r matches Ok(o) && o@ == s) && final(cache)@ == sc,
            Step::Fail(e) => r matches Err(er) && er@ == e,
            Step::Hosted => true,
        },
    decreases depth, *block, 2int, 0int,
{
    if block.block.is_some() {
        return Err(FinchError::UnexpectedBody(String::from_str("template")));
    }
    if block.params.len() == 0 {
        return Err(FinchError::InvalidArg(0));
    }
    let nv = block.params[0].compile(ds, root, cache, host)?;
    let tname = match nv {
        RawValue::Str(s) => s,
        _ => {
            return Err(FinchError::InvalidArg(0));
        },
    };
    if block.params.len() < 2 {
        return Err(FinchError::InvalidArg(1));
    }
    let dv = block.params[1].compile_to_js(ds, root, cache, host)?;
    let oid = match dv {
        RawValue::Object(h) => h.0,
        _ => {
            return Err(FinchError::ExpectedObject);
        },
    };
    match comp.get_template(tname.as_str()) {
        None => Err(FinchError::TemplateNotExist(tname)),
        Some(idx) => {
            if depth == 0 {
                return Err(FinchError::RecursionLimit);
            }
            proof {
                crate::compiler::lemma_tpl_get_wf(comp.templates@, tname@);
            }
            let mut fresh = Memory::new();
            let t = &comp.templates[idx];
            let out = t.2.compile(&t.1, comp, ds, oid, &mut fresh, host, depth - 1)?;
            Ok(out)
        },
    }
}

} // verus!
