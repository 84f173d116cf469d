//! The lexer/parser: template source in, position-annotated syntax tree out.
//!
//! The source is scanned once, character-addressed. Literal text is never
//! materialized: the parser records where tags are, and the renderer slices
//! the text between them straight from the source. Expressions are parsed by
//! recursive descent with explicit precedence climbing.
//!
//! Tag syntax: `{{ expr }}` is an expression tag; `{{#name params}}` opens a
//! block with a body, `{{#name params/}}` a self-closing one; `{{/name}}`
//! (or the anonymous `{{/}}`) closes the current block. Conditional chains:
//! a block opened directly inside a body continues that body's block as its
//! chain — rather than nesting — when its name is `else`, or when it is an
//! `if` opened directly inside an `if` body. A named close tag closes every
//! chain link up to the block carrying that name, so `{{/if}}` ends an
//! entire `if`/`else` chain at once.
//!
//! All positions are character offsets into the source, and every node's
//! span covers its tag group exactly.

use vstd::prelude::*;
use crate::error::ErrV;
use crate::error::FinchError;
use crate::convert::chars_string;
use crate::convert::str_chars;
use crate::convert::str_eq;

verus! {

/// The outcome of a parsing step.
pub type FinchResult<R> = Result<R, FinchError>;

/// A half-open range `[start, end)` of character offsets into the template
/// source.
#[derive(Debug, Clone, Copy, PartialEq, Eq, Structural)]
pub struct Span {
    pub start: usize,
    pub end: usize,
}

/// A binary operation over two parsed operands.
pub enum BinaryOps {
    /// `==`
    Compare(ExpressionKind, ExpressionKind),
    /// `!=`
    Not(ExpressionKind, ExpressionKind),
    /// `>`
    Gt(ExpressionKind, ExpressionKind),
    /// `<`
    Lt(ExpressionKind, ExpressionKind),
    /// `>=`
    Gte(ExpressionKind, ExpressionKind),
    /// `<=`
    Lte(ExpressionKind, ExpressionKind),
    /// `&&`
    And(ExpressionKind, ExpressionKind),
    /// `||`
    Or(ExpressionKind, ExpressionKind),
}

/// A unary operation over one parsed operand.
pub enum UnaryOps {
    /// `!expr`: logical negation of the operand's truthiness.
    Not(ExpressionKind),
    /// `expr?`: a marker that wraps the expression without altering its
    /// value.
    ShortCircuit(ExpressionKind),
}

/// A parsed expression.
pub enum ExpressionKind {
    /// A bare name, resolved against the scope stack and then the data
    /// source.
    Var(String),
    /// A dotted path of names, resolved by descending through objects.
    VarDot(Vec<String>),
    /// A numeric literal, held as canonical decimal text.
    Number(String),
    /// A quoted string literal.
    Str(String),
    /// `true` or `false`.
    Bool(bool),
    /// The literal `undefined`.
    Undefined,
    /// The literal `null`.
    Null,
    /// A binary operation.
    Binary(Box<BinaryOps>),
    /// A unary operation.
    Unary(Box<UnaryOps>),
    /// A call of a named callable with evaluated arguments.
    Call { var: Box<ExpressionKind>, params: Vec<ExpressionKind> },
}

/// A block tag: a helper name, its unevaluated parameters, an optional body
/// and an optional chained follow-up block.
pub struct FnBlock {
    pub name: String,
    pub params: Vec<ExpressionKind>,
    pub block: Option<SubText>,
    pub chain: Option<Box<FnBlock>>,
}

/// What one tag holds: an expression to evaluate and stringify, or a block
/// to dispatch to its helper.
pub enum TemplateKind {
    Expression(ExpressionKind),
    Block(FnBlock),
}

/// One tag, with the exact source span its tag group covers.
pub struct Template {
    pub pos: Span,
    pub kind: TemplateKind,
}

/// An ordered run of tags plus the span enclosing them; the source text
/// between consecutive tags (and before the first and after the last, inside
/// the span) is literal output.
pub struct SubText {
    pub pos: Span,
    pub templates: Vec<Template>,
}

/// Every span of the tree lies within a source of length `n`, and the
/// templates stand in ascending, non-overlapping order inside the tree's own
/// span.
pub open spec fn wf_sub(st: SubText, n: int) -> bool
    decreases st, 0int,
{
    &&& st.pos.start <= st.pos.end <= n
    &&& wf_tpls(st.templates@, n)
    &&& tpls_ordered(st.templates@, st.pos.start as int)
    &&& st.templates@.len() > 0 ==> st.templates@.last().pos.end <= st.pos.end
}

/// The templates stand in ascending, non-overlapping order, the first no
/// earlier than `lo`.
pub open spec fn tpls_ordered(ts: Seq<Template>, lo: int) -> bool
    decreases ts.len(),
{
    ts.len() == 0 || (lo <= ts.first().pos.start && tpls_ordered(
        ts.drop_first(),
        ts.first().pos.end as int,
    ))
}

/// Appending a template that starts no earlier than the run's last end (or
/// `lo`, for an empty run) keeps the run ordered, and becomes its last
/// element.
pub proof fn lemma_tpls_ordered_push(ts: Seq<Template>, t: Template, lo: int)
    requires
        tpls_ordered(ts, lo),
        ts.len() == 0 ==> lo <= t.pos.start,
        ts.len() > 0 ==> ts.last().pos.end <= t.pos.start,
    ensures
        tpls_ordered(ts.push(t), lo),
        ts.push(t).last() == t,
    decreases ts.len(),
{
    if ts.len() == 0 {
        assert(ts.push(t).first() == t);
        assert(ts.push(t).drop_first() =~= Seq::<Template>::empty());
        assert(tpls_ordered(Seq::<Template>::empty(), t.pos.end as int));
    } else {
        assert(ts.drop_first().len() > 0 ==> ts.drop_first().last() == ts.last());
        lemma_tpls_ordered_push(ts.drop_first(), t, ts.first().pos.end as int);
        assert(ts.push(t).first() == ts.first());
        assert(ts.push(t).drop_first() =~= ts.drop_first().push(t));
    }
}

/// Every span of every template lies within a source of length `n`.
pub open spec fn wf_tpls(ts: Seq<Template>, n: int) -> bool
    decreases ts, 1int,
{
    if ts.len() == 0 {
        true
    } else {
        wf_tpl(ts.first(), n) && wf_tpls(ts.drop_first(), n)
    }
}

/// The template's span lies within a source of length `n`, recursively.
pub open spec fn wf_tpl(t: Template, n: int) -> bool
    decreases t, 2int,
{
    &&& t.pos.start <= t.pos.end <= n
    &&& match t.kind {
        TemplateKind::Expression(_) => true,
        TemplateKind::Block(b) => wf_block(b, n),
    }
}

/// The block's body and chain spans lie within a source of length `n`.
pub open spec fn wf_block(b: FnBlock, n: int) -> bool
    decreases b, 3int,
{
    &&& match b.block {
        Some(st) => wf_sub(st, n),
        None => true,
    }
    &&& match b.chain {
        Some(c) => wf_block(*c, n),
        None => true,
    }
}

/// Appending a well-formed template keeps a run well-formed.
pub proof fn lemma_wf_tpls_push(ts: Seq<Template>, t: Template, n: int)
    requires
        wf_tpls(ts, n),
        wf_tpl(t, n),
    ensures
        wf_tpls(ts.push(t), n),
    decreases ts.len(),
{
    if ts.len() == 0 {
        assert(ts.push(t).drop_first() =~= Seq::<Template>::empty());
        assert(ts.push(t).first() == t);
        assert(wf_tpls(Seq::<Template>::empty(), n));
    } else {
        lemma_wf_tpls_push(ts.drop_first(), t, n);
        assert(ts.push(t).drop_first() =~= ts.drop_first().push(t));
        assert(ts.push(t).first() == ts.first());
    }
}

/// Every template of a well-formed run is well-formed.
pub proof fn lemma_wf_tpls_index(ts: Seq<Template>, n: int)
    requires
        wf_tpls(ts, n),
    ensures
        forall|i: int| 0 <= i < ts.len() ==> wf_tpl(ts[i], n),
    decreases ts.len(),
{
    if ts.len() > 0 {
        lemma_wf_tpls_index(ts.drop_first(), n);
        assert(forall|i: int| 1 <= i < ts.len() ==> ts.drop_first()[i - 1] == ts[i]);
        assert(ts.first() == ts[0]);
    }
}

/// The mathematical image of an expression: the same cases over character
/// sequences. The functional parsing specification produces these.
pub enum ExprV {
    Var(Seq<char>),
    VarDot(Seq<Seq<char>>),
    Number(Seq<char>),
    Str(Seq<char>),
    Bool(bool),
    Undefined,
    Null,
    Binary(Box<BinV>),
    Unary(Box<UnV>),
    Call(Box<ExprV>, Seq<ExprV>),
}

/// The image of a binary operation.
pub enum BinV {
    Compare(ExprV, ExprV),
    Not(ExprV, ExprV),
    Gt(ExprV, ExprV),
    Lt(ExprV, ExprV),
    Gte(ExprV, ExprV),
    Lte(ExprV, ExprV),
    And(ExprV, ExprV),
    Or(ExprV, ExprV),
}

/// The image of a unary operation.
pub enum UnV {
    Not(ExprV),
    ShortCircuit(ExprV),
}

/// The image of a tree: start, end, and the templates between them.
pub struct SubV {
    pub start: int,
    pub end: int,
    pub templates: Seq<TplV>,
}

/// The image of one tag.
pub struct TplV {
    pub start: int,
    pub end: int,
    pub kind: TplKV,
}

/// The image of a tag's content.
pub enum TplKV {
    Expression(ExprV),
    Block(BlockV),
}

/// The image of a block.
pub struct BlockV {
    pub name: Seq<char>,
    pub params: Seq<ExprV>,
    pub block: Option<SubV>,
    pub chain: Option<Box<BlockV>>,
}

/// The texts of a run of names.
pub open spec fn strs_view(ss: Seq<String>) -> Seq<Seq<char>> {
    ss.map(|i: int, s: String| s@)
}

/// The image of an expression.
pub open spec fn expr_view(e: ExpressionKind) -> ExprV
    decreases e, 0int,
{
    match e {
        ExpressionKind::Var(n) => ExprV::Var(n@),
        ExpressionKind::VarDot(p) => ExprV::VarDot(strs_view(p@)),
        ExpressionKind::Number(n) => ExprV::Number(n@),
        ExpressionKind::Str(s) => ExprV::Str(s@),
        ExpressionKind::Bool(b) => ExprV::Bool(b),
        ExpressionKind::Undefined => ExprV::Undefined,
        ExpressionKind::Null => ExprV::Null,
        ExpressionKind::Binary(b) => ExprV::Binary(Box::new(bin_view(*b))),
        ExpressionKind::Unary(u) => ExprV::Unary(Box::new(un_view(*u))),
        ExpressionKind::Call { var, params } => ExprV::Call(
            Box::new(expr_view(*var)),
            exprs_view(params@),
        ),
    }
}

/// The image of a binary operation's operands.
pub open spec fn bin_view(b: BinaryOps) -> BinV
    decreases b, 1int,
{
    match b {
        BinaryOps::Compare(l, r) => BinV::Compare(expr_view(l), expr_view(r)),
        BinaryOps::Not(l, r) => BinV::Not(expr_view(l), expr_view(r)),
        BinaryOps::Gt(l, r) => BinV::Gt(expr_view(l), expr_view(r)),
        BinaryOps::Lt(l, r) => BinV::Lt(expr_view(l), expr_view(r)),
        BinaryOps::Gte(l, r) => BinV::Gte(expr_view(l), expr_view(r)),
        BinaryOps::Lte(l, r) => BinV::Lte(expr_view(l), expr_view(r)),
        BinaryOps::And(l, r) => BinV::And(expr_view(l), expr_view(r)),
        BinaryOps::Or(l, r) => BinV::Or(expr_view(l), expr_view(r)),
    }
}

/// The image of a unary operation's operand.
pub open spec fn un_view(u: UnaryOps) -> UnV
    decreases u, 1int,
{
    match u {
        UnaryOps::Not(e) => UnV::Not(expr_view(e)),
        UnaryOps::ShortCircuit(e) => UnV::ShortCircuit(expr_view(e)),
    }
}

/// The image of a run of expressions, element by element.
pub open spec fn exprs_view(es: Seq<ExpressionKind>) -> Seq<ExprV>
    decreases es, 1int,
{
    if es.len() == 0 {
        Seq::empty()
    } else {
        exprs_view(es.drop_last()).push(expr_view(es.last()))
    }
}

/// The element at index `i` of the image of a run is the image of the
/// element at `i`.
pub broadcast proof fn lemma_exprs_view(es: Seq<ExpressionKind>)
    ensures
        (#[trigger] exprs_view(es)).len() == es.len(),
        forall|i: int| 0 <= i < es.len() ==> exprs_view(es)[i] == expr_view(es[i]),
    decreases es.len(),
{
    if es.len() > 0 {
        lemma_exprs_view(es.drop_last());
    }
}

/// The image of a tree.
pub open spec fn sub_view(st: SubText) -> SubV
    decreases st, 0int,
{
    SubV {
        start: st.pos.start as int,
        end: st.pos.end as int,
        templates: tpls_view(st.templates@),
    }
}

/// The image of a run of templates, element by element.
pub open spec fn tpls_view(ts: Seq<Template>) -> Seq<TplV>
    decreases ts, 1int,
{
    if ts.len() == 0 {
        Seq::empty()
    } else {
        tpls_view(ts.drop_last()).push(tpl_view(ts.last()))
    }
}

/// The element at index `i` of the image of a run is the image of the
/// element at `i`.
pub broadcast proof fn lemma_tpls_view(ts: Seq<Template>)
    ensures
        (#[trigger] tpls_view(ts)).len() == ts.len(),
        forall|i: int| 0 <= i < ts.len() ==> tpls_view(ts)[i] == tpl_view(ts[i]),
    decreases ts.len(),
{
    if ts.len() > 0 {
        lemma_tpls_view(ts.drop_last());
    }
}

/// The image of one tag.
pub open spec fn tpl_view(t: Template) -> TplV
    decreases t, 0int,
{
    TplV {
        start: t.pos.start as int,
        end: t.pos.end as int,
        kind: match t.kind {
            TemplateKind::Expression(e) => TplKV::Expression(expr_view(e)),
            TemplateKind::Block(b) => TplKV::Block(block_view(b)),
        },
    }
}

/// The image of a block.
pub open spec fn block_view(b: FnBlock) -> BlockV
    decreases b, 2int,
{
    BlockV {
        name: b.name@,
        params: exprs_view(b.params@),
        block: match b.block {
            Some(st) => Some(sub_view(st)),
            None => None,
        },
        chain: match b.chain {
            Some(c) => Some(Box::new(block_view(*c))),
            None => None,
        },
    }
}

/// The image of an optional close-tag name.
pub open spec fn opt_str_view(o: Option<String>) -> Option<Seq<char>> {
    match o {
        Some(x) => Some(x@),
        None => None,
    }
}

/// The image of an optional chained block.
pub open spec fn opt_chain_view(o: Option<Box<FnBlock>>) -> Option<Box<BlockV>>
    decreases o,
{
    match o {
        Some(c) => Some(Box::new(block_view(*c))),
        None => None,
    }
}

/// A character that may stand in an identifier: a letter, a digit, `_` or
/// `$`.
pub open spec fn ident_char(c: char) -> bool {
    ||| ('a' as u32) <= (c as u32) <= ('z' as u32)
    ||| ('A' as u32) <= (c as u32) <= ('Z' as u32)
    ||| ('0' as u32) <= (c as u32) <= ('9' as u32)
    ||| c == '_'
    ||| c == '$'
}

/// A decimal digit.
pub open spec fn digit_char(c: char) -> bool {
    ('0' as u32) <= (c as u32) <= ('9' as u32)
}

/// The first offset at or after `i` that does not hold an identifier
/// character (possibly the end of the source).
pub open spec fn scan_ident(s: Seq<char>, i: int) -> int
    decreases s.len() - i,
{
    if i < 0 || i >= s.len() || !ident_char(s[i]) {
        i
    } else {
        scan_ident(s, i + 1)
    }
}

/// `scan_ident` stays within `[i, s.len()]`, skips exactly identifier
/// characters, and stops at the first offset that is none.
pub proof fn lemma_scan_ident(s: Seq<char>, i: int)
    requires
        0 <= i <= s.len(),
    ensures
        i <= scan_ident(s, i) <= s.len(),
        forall|j: int| i <= j < scan_ident(s, i) ==> ident_char(s[j]),
        scan_ident(s, i) < s.len() ==> !ident_char(s[scan_ident(s, i)]),
    decreases s.len() - i,
{
    if i < s.len() && ident_char(s[i]) {
        lemma_scan_ident(s, i + 1);
    }
}

/// The content and end of a string literal scanned from offset `i` (just
/// past the opening quote): `None` when the input ends before the closing
/// quote. A backslash copies the next character verbatim.
pub open spec fn scan_str(s: Seq<char>, i: int) -> Option<(int, Seq<char>)>
    decreases s.len() - i,
{
    if i < 0 || i >= s.len() {
        None
    } else if s[i] == '"' {
        Some((i + 1, Seq::empty()))
    } else if s[i] == '\\' {
        if i + 1 >= s.len() {
            None
        } else {
            match scan_str(s, i + 2) {
                Some((j, t)) => Some((j, seq![s[i + 1]] + t)),
                None => None,
            }
        }
    } else {
        match scan_str(s, i + 1) {
            Some((j, t)) => Some((j, seq![s[i]] + t)),
            None => None,
        }
    }
}

/// The integer and fraction digits of a numeric literal scanned from offset
/// `i`, and the offset of its terminator: digits collect into the integer
/// part until the first dot and into the fraction after it; underscores are
/// ignored; a second dot terminates the literal. `None` when the input ends
/// before a terminator.
pub open spec fn scan_num(s: Seq<char>, i: int, dot: bool) -> Option<(int, Seq<char>, Seq<char>)>
    decreases s.len() - i,
{
    if i < 0 || i >= s.len() {
        None
    } else if digit_char(s[i]) {
        match scan_num(s, i + 1, dot) {
            Some((j, a, b)) => if dot {
                Some((j, a, seq![s[i]] + b))
            } else {
                Some((j, seq![s[i]] + a, b))
            },
            None => None,
        }
    } else if s[i] == '_' {
        scan_num(s, i + 1, dot)
    } else if s[i] == '.' && !dot {
        scan_num(s, i + 1, true)
    } else {
        Some((i, Seq::empty(), Seq::empty()))
    }
}

/// Digits without their leading zeros, at least one digit kept.
pub open spec fn strip_leading_zeros(d: Seq<char>) -> Seq<char>
    decreases d.len(),
{
    if d.len() > 1 && d[0] == '0' {
        strip_leading_zeros(d.drop_first())
    } else {
        d
    }
}

/// Digits without their trailing zeros, possibly empty.
pub open spec fn strip_trailing_zeros(d: Seq<char>) -> Seq<char>
    decreases d.len(),
{
    if d.len() > 0 && d.last() == '0' {
        strip_trailing_zeros(d.drop_last())
    } else {
        d
    }
}

/// The canonical text of a scanned numeric literal: the integer digits with
/// leading zeros removed (`0` when there are none at all), then, if any
/// fraction digits survive removing trailing zeros, a dot and those digits.
pub open spec fn canon_num(ints: Seq<char>, fracs: Seq<char>) -> Seq<char> {
    let ip = if ints.len() == 0 {
        seq!['0']
    } else {
        strip_leading_zeros(ints)
    };
    let fp = strip_trailing_zeros(fracs);
    if fp.len() == 0 {
        ip
    } else {
        ip + seq!['.'] + fp
    }
}

/// Stripping leading zeros keeps the suffix from the first offset that is
/// not a removable zero.
pub proof fn lemma_strip_leading(d: Seq<char>, k: int)
    requires
        0 <= k < d.len(),
        forall|j: int| 0 <= j < k ==> d[j] == '0',
        k < d.len() - 1 ==> d[k] != '0',
    ensures
        strip_leading_zeros(d) == d.skip(k),
    decreases k,
{
    if k == 0 {
        if d.len() > 1 && d[0] == '0' {
            assert(false);
        }
        assert(d.skip(0) =~= d);
    } else {
        assert(forall|j: int| 0 <= j < k - 1 ==> d.drop_first()[j] == d[j + 1]);
        lemma_strip_leading(d.drop_first(), k - 1);
        assert(d.drop_first().skip(k - 1) =~= d.skip(k));
    }
}

/// Stripping trailing zeros keeps the prefix up to the last nonzero digit.
pub proof fn lemma_strip_trailing(d: Seq<char>, m: int)
    requires
        0 <= m <= d.len(),
        forall|j: int| m <= j < d.len() ==> d[j] == '0',
        m > 0 ==> d[m - 1] != '0',
    ensures
        strip_trailing_zeros(d) == d.take(m),
    decreases d.len(),
{
    if d.len() > 0 && d.last() == '0' {
        assert(m < d.len());
        lemma_strip_trailing(d.drop_last(), m);
        assert(d.drop_last().take(m) =~= d.take(m));
    } else {
        assert(m == d.len());
        assert(d.take(m) =~= d);
    }
}

/// The outcome of one specification-level parsing step: the cursor after the
/// construct and its image, or the exact error.
pub type PRes<T> = Result<(int, T), ErrV>;

/// The first offset at or after `i` that does not hold `ch` (possibly the
/// end of the source).
pub open spec fn scan_ch(s: Seq<char>, i: int, ch: char) -> int
    decreases s.len() - i,
{
    if i < 0 || i >= s.len() || s[i] != ch {
        i
    } else {
        scan_ch(s, i + 1, ch)
    }
}

/// `scan_ch` stays within `[i, s.len()]`, skips exactly `ch`, and stops at
/// the first offset holding something else.
pub proof fn lemma_scan_ch(s: Seq<char>, i: int, ch: char)
    requires
        0 <= i <= s.len(),
    ensures
        i <= scan_ch(s, i, ch) <= s.len(),
        forall|j: int| i <= j < scan_ch(s, i, ch) ==> s[j] == ch,
        scan_ch(s, i, ch) < s.len() ==> s[scan_ch(s, i, ch)] != ch,
    decreases s.len() - i,
{
    if i < s.len() && s[i] == ch {
        lemma_scan_ch(s, i + 1, ch);
    }
}

/// Consuming one required character: past the end the expected character is
/// named; on the wrong character both are.
pub open spec fn sp_tok(s: Seq<char>, i: int, ch: char) -> Result<int, ErrV> {
    if i >= s.len() {
        Err(ErrV::Expected(ch))
    } else if s[i] != ch {
        Err(ErrV::ExpectedFound(ch, s[i]))
    } else {
        Ok(i + 1)
    }
}

/// Scanning an identifier (possibly empty) at `i`: its text and terminator
/// offset, or the end-of-input error when no terminator follows.
pub open spec fn sp_var_at(s: Seq<char>, i: int) -> PRes<Seq<char>> {
    let j = scan_ident(s, i);
    if j >= s.len() {
        Err(ErrV::EndOfText)
    } else {
        Ok((j, s.subrange(i, j)))
    }
}

/// What parsing a name, dotted path or named literal at `i` produces: the
/// literals `true`, `false`, `undefined` and `null` by exact name, a dotted
/// path when a dot follows the first segment, a bare variable otherwise. An
/// empty name is the unexpected-character error, and a path segment missing
/// before a non-dot terminator is the missing-property-name error.
pub open spec fn sp_possible_var(s: Seq<char>, i: int) -> PRes<ExprV>
    decreases s.len() - i, 0int,
{
    let j = scan_ident(s, i);
    if j >= s.len() {
        Err(ErrV::EndOfText)
    } else if s[j] == '.' {
        if j + 1 > i {
            match sp_segs(s, j + 1) {
                Ok(kr) => Ok((kr.0, ExprV::VarDot(seq![s.subrange(i, j)] + kr.1))),
                Err(e) => Err(e),
            }
        } else {
            Err(ErrV::EndOfText)
        }
    } else if j == i {
        Err(ErrV::Unexpected(s[j]))
    } else if s.subrange(i, j) == "true"@ {
        Ok((j, ExprV::Bool(true)))
    } else if s.subrange(i, j) == "false"@ {
        Ok((j, ExprV::Bool(false)))
    } else if s.subrange(i, j) == "undefined"@ {
        Ok((j, ExprV::Undefined))
    } else if s.subrange(i, j) == "null"@ {
        Ok((j, ExprV::Null))
    } else {
        Ok((j, ExprV::Var(s.subrange(i, j))))
    }
}

/// The path segments after a dot: segments separated by further dots may be
/// empty, but the final segment must not be.
pub open spec fn sp_segs(s: Seq<char>, i: int) -> PRes<Seq<Seq<char>>>
    decreases s.len() - i, 0int,
{
    let j = scan_ident(s, i);
    if j >= s.len() {
        Err(ErrV::EndOfText)
    } else if s[j] == '.' {
        if j + 1 > i {
            match sp_segs(s, j + 1) {
                Ok(kr) => Ok((kr.0, seq![s.subrange(i, j)] + kr.1)),
                Err(e) => Err(e),
            }
        } else {
            Err(ErrV::EndOfText)
        }
    } else if j == i {
        Err(ErrV::MissingPropName)
    } else {
        Ok((j, seq![s.subrange(i, j)]))
    }
}

/// What parsing one expression at `i` produces: a primary followed by an
/// optional `?` marker or call-argument list.
pub open spec fn sp_expression(s: Seq<char>, i: int) -> PRes<ExprV>
    decreases s.len() - i, 1int,
{
    match sp_primary(s, i) {
        Err(e) => Err(e),
        Ok(jv) => if i <= jv.0 && jv.0 <= s.len() {
            sp_postfix(s, jv.0, jv.1)
        } else {
            Err(ErrV::EndOfText)
        },
    }
}

/// What parsing a primary at `i` produces: a string literal, a number, a
/// name or path or named literal, a primary behind leading spaces, a
/// parenthesized full expression, or `!` applied to an expression. A
/// character that can start none of these is the unexpected-character error.
pub open spec fn sp_primary(s: Seq<char>, i: int) -> PRes<ExprV>
    decreases s.len() - i, 0int,
{
    if i >= s.len() {
        Err(ErrV::EndOfText)
    } else {
        let c = s[i];
        if c == '"' {
            match scan_str(s, i + 1) {
                Some(jt) => Ok((jt.0, ExprV::Str(jt.1))),
                None => Err(ErrV::Expected('"')),
            }
        } else if digit_char(c) || c == '-' {
            match scan_num(s, i, false) {
                Some(jab) => if jab.1.len() + jab.2.len() == 0 {
                    Err(ErrV::InvalidNumber)
                } else {
                    Ok((jab.0, ExprV::Number(canon_num(jab.1, jab.2))))
                },
                None => Err(ErrV::EndOfText),
            }
        } else if name_start_char(c) {
            sp_possible_var(s, i)
        } else if c == ' ' {
            let j = scan_ch(s, i, ' ');
            if i < j && j <= s.len() {
                sp_expression(s, j)
            } else {
                Err(ErrV::EndOfText)
            }
        } else if c == '(' {
            match sp_full_expression(s, i + 1) {
                Ok(jv) => match sp_tok(s, jv.0, ')') {
                    Ok(j2) => Ok((j2, jv.1)),
                    Err(e) => Err(e),
                },
                Err(e) => Err(e),
            }
        } else if c == '!' {
            match sp_expression(s, i + 1) {
                Ok(jv) => Ok((jv.0, ExprV::Unary(Box::new(UnV::Not(jv.1))))),
                Err(e) => Err(e),
            }
        } else {
            Err(ErrV::Unexpected(c))
        }
    }
}

/// What may follow a parsed primary `v` ending at `j`: a `?` marker wraps
/// it, a `(` begins its call arguments, anything else leaves it as it is;
/// input ending right here is the end-of-input error.
pub open spec fn sp_postfix(s: Seq<char>, j: int, v: ExprV) -> PRes<ExprV>
    decreases s.len() - j, 0int,
{
    if j >= s.len() {
        Err(ErrV::EndOfText)
    } else if s[j] == '?' {
        Ok((j + 1, ExprV::Unary(Box::new(UnV::ShortCircuit(v)))))
    } else if s[j] == '(' {
        match sp_args(s, j + 1) {
            Ok(ka) => Ok((ka.0, ExprV::Call(Box::new(v), ka.1))),
            Err(e) => Err(e),
        }
    } else {
        Ok((j, v))
    }
}

/// The comma- or space-separated call arguments at `i`, up to the closing
/// parenthesis; input ending first is the end-of-input error.
pub open spec fn sp_args(s: Seq<char>, i: int) -> PRes<Seq<ExprV>>
    decreases s.len() - i, 4int,
{
    if i >= s.len() {
        Err(ErrV::EndOfText)
    } else if s[i] == ' ' || s[i] == ',' {
        sp_args(s, i + 1)
    } else if s[i] == ')' {
        Ok((i + 1, Seq::empty()))
    } else {
        match sp_full_expression(s, i) {
            Ok(jv) => if i < jv.0 && jv.0 <= s.len() {
                match sp_args(s, jv.0) {
                    Ok(ka) => Ok((ka.0, seq![jv.1] + ka.1)),
                    Err(e) => Err(e),
                }
            } else {
                Err(ErrV::EndOfText)
            },
            Err(e) => Err(e),
        }
    }
}

/// What parsing a full expression at `i` produces: one expression extended
/// by any binary operators after it.
pub open spec fn sp_full_expression(s: Seq<char>, i: int) -> PRes<ExprV>
    decreases s.len() - i, 2int,
{
    match sp_expression(s, i) {
        Ok(jv) => if i < jv.0 && jv.0 <= s.len() {
            sp_possibly_binary(s, jv.0, jv.1, -1)
        } else {
            Err(ErrV::EndOfText)
        },
        Err(e) => Err(e),
    }
}

/// Binary-operator climbing after a parsed left operand `v`: `==`, `!=`,
/// `>`, `>=`, `<`, `<=` take one expression on the right and chain left to
/// right; `&&` and `||` take a full expression on the right when their
/// precedence exceeds `prec`, grouping their chains to the right; spaces are
/// skipped; anything else ends the expression at `i`. The expression must be
/// followed by something: input ending here is the end-of-input error.
pub open spec fn sp_possibly_binary(s: Seq<char>, i: int, v: ExprV, prec: int) -> PRes<ExprV>
    decreases s.len() - i, 3int,
{
    if i >= s.len() {
        Err(ErrV::EndOfText)
    } else if s[i] == '=' {
        match sp_tok(s, i + 1, '=') {
            Ok(j) => match sp_expression(s, j) {
                Ok(kr) => if i < kr.0 && kr.0 <= s.len() {
                    sp_possibly_binary(
                        s,
                        kr.0,
                        ExprV::Binary(Box::new(BinV::Compare(v, kr.1))),
                        COMPARE_PREC as int,
                    )
                } else {
                    Err(ErrV::EndOfText)
                },
                Err(e) => Err(e),
            },
            Err(e) => Err(e),
        }
    } else if s[i] == '!' {
        match sp_tok(s, i + 1, '=') {
            Ok(j) => match sp_expression(s, j) {
                Ok(kr) => if i < kr.0 && kr.0 <= s.len() {
                    sp_possibly_binary(
                        s,
                        kr.0,
                        ExprV::Binary(Box::new(BinV::Not(v, kr.1))),
                        COMPARE_PREC as int,
                    )
                } else {
                    Err(ErrV::EndOfText)
                },
                Err(e) => Err(e),
            },
            Err(e) => Err(e),
        }
    } else if s[i] == '&' {
        match sp_tok(s, i + 1, '&') {
            Ok(j) => {
                let right: PRes<ExprV> = if AND_PREC as int > prec {
                    if i < j && j <= s.len() {
                        sp_full_expression(s, j)
                    } else {
                        Err(ErrV::EndOfText)
                    }
                } else {
                    if i < j && j <= s.len() {
                        sp_expression(s, j)
                    } else {
                        Err(ErrV::EndOfText)
                    }
                };
                match right {
                    Ok(kr) => if i < kr.0 && kr.0 <= s.len() {
                        sp_possibly_binary(
                            s,
                            kr.0,
                            ExprV::Binary(Box::new(BinV::And(v, kr.1))),
                            AND_PREC as int,
                        )
                    } else {
                        Err(ErrV::EndOfText)
                    },
                    Err(e) => Err(e),
                }
            },
            Err(e) => Err(e),
        }
    } else if s[i] == '|' {
        match sp_tok(s, i + 1, '|') {
            Ok(j) => {
                let right: PRes<ExprV> = if OR_PREC as int > prec {
                    if i < j && j <= s.len() {
                        sp_full_expression(s, j)
                    } else {
                        Err(ErrV::EndOfText)
                    }
                } else {
                    if i < j && j <= s.len() {
                        sp_expression(s, j)
                    } else {
                        Err(ErrV::EndOfText)
                    }
                };
                match right {
                    Ok(kr) => if i < kr.0 && kr.0 <= s.len() {
                        sp_possibly_binary(
                            s,
                            kr.0,
                            ExprV::Binary(Box::new(BinV::Or(v, kr.1))),
                            OR_PREC as int,
                        )
                    } else {
                        Err(ErrV::EndOfText)
                    },
                    Err(e) => Err(e),
                }
            },
            Err(e) => Err(e),
        }
    } else if s[i] == '>' {
        if i + 1 < s.len() && s[i + 1] == '=' {
            match sp_expression(s, i + 2) {
                Ok(kr) => if i < kr.0 && kr.0 <= s.len() {
                    sp_possibly_binary(
                        s,
                        kr.0,
                        ExprV::Binary(Box::new(BinV::Gte(v, kr.1))),
                        COMPARE_PREC as int,
                    )
                } else {
                    Err(ErrV::EndOfText)
                },
                Err(e) => Err(e),
            }
        } else {
            match sp_expression(s, i + 1) {
                Ok(kr) => if i < kr.0 && kr.0 <= s.len() {
                    sp_possibly_binary(
                        s,
                        kr.0,
                        ExprV::Binary(Box::new(BinV::Gt(v, kr.1))),
                        COMPARE_PREC as int,
                    )
                } else {
                    Err(ErrV::EndOfText)
                },
                Err(e) => Err(e),
            }
        }
    } else if s[i] == '<' {
        if i + 1 < s.len() && s[i + 1] == '=' {
            match sp_expression(s, i + 2) {
                Ok(kr) => if i < kr.0 && kr.0 <= s.len() {
                    sp_possibly_binary(
                        s,
                        kr.0,
                        ExprV::Binary(Box::new(BinV::Lte(v, kr.1))),
                        COMPARE_PREC as int,
                    )
                } else {
                    Err(ErrV::EndOfText)
                },
                Err(e) => Err(e),
            }
        } else {
            match sp_expression(s, i + 1) {
                Ok(kr) => if i < kr.0 && kr.0 <= s.len() {
                    sp_possibly_binary(
                        s,
                        kr.0,
                        ExprV::Binary(Box::new(BinV::Lt(v, kr.1))),
                        COMPARE_PREC as int,
                    )
                } else {
                    Err(ErrV::EndOfText)
                },
                Err(e) => Err(e),
            }
        }
    } else if s[i] == ' ' {
        let j = scan_ch(s, i, ' ');
        if i < j && j <= s.len() {
            sp_possibly_binary(s, j, v, prec)
        } else {
            Err(ErrV::EndOfText)
        }
    } else {
        Ok((i, v))
    }
}

/// What parsing a block whose name is already read produces: space- or
/// comma-separated parameters until `/}}` (self-closing) or `}}` (a body
/// follows), handing back the block and any close-tag name still to be
/// matched further out.
pub open spec fn sp_block_named(s: Seq<char>, i: int, name: Seq<char>) -> PRes<
    (BlockV, Option<Seq<char>>),
>
    decreases s.len() - i, 5int,
{
    if i >= s.len() {
        Err(ErrV::EndOfText)
    } else if s[i] == ' ' || s[i] == ',' {
        sp_block_named(s, i + 1, name)
    } else if s[i] == '/' {
        match sp_tok(s, i + 1, '}') {
            Ok(j) => match sp_tok(s, j, '}') {
                Ok(j2) => Ok(
                    (
                        j2,
                        (
                            BlockV {
                                name,
                                params: Seq::empty(),
                                block: None,
                                chain: None,
                            },
                            None,
                        ),
                    ),
                ),
                Err(e) => Err(e),
            },
            Err(e) => Err(e),
        }
    } else if s[i] == '}' {
        match sp_tok(s, i + 1, '}') {
            Ok(j) => match sp_body(s, j, j, name) {
                Ok(br) => Ok(
                    (
                        br.0,
                        (
                            BlockV {
                                name,
                                params: Seq::empty(),
                                block: Some(br.1.0),
                                chain: br.1.1,
                            },
                            br.1.2,
                        ),
                    ),
                ),
                Err(e) => Err(e),
            },
            Err(e) => Err(e),
        }
    } else {
        match sp_full_expression(s, i) {
            Ok(jv) => if i < jv.0 && jv.0 <= s.len() {
                match sp_block_named(s, jv.0, name) {
                    Ok(r2) => Ok(
                        (
                            r2.0,
                            (
                                BlockV { params: seq![jv.1] + r2.1.0.params, ..r2.1.0 },
                                r2.1.1,
                            ),
                        ),
                    ),
                    Err(e) => Err(e),
                }
            } else {
                Err(ErrV::EndOfText)
            },
            Err(e) => Err(e),
        }
    }
}

/// What parsing a standalone block at `i` (name not yet read) produces; a
/// close-tag name left unmatched by the whole group is the unexpected-close
/// error.
pub open spec fn sp_block_at(s: Seq<char>, i: int) -> PRes<BlockV>
    decreases s.len() - i, 6int,
{
    match sp_var_at(s, i) {
        Ok(jn) => if i <= jn.0 && jn.0 <= s.len() {
            match sp_block_named(s, jn.0, jn.1) {
                Ok(br) => match br.1.1 {
                    Some(x) => Err(ErrV::UnexpectedClose(x)),
                    None => Ok((br.0, br.1.0)),
                },
                Err(e) => Err(e),
            }
        } else {
            Err(ErrV::EndOfText)
        },
        Err(e) => Err(e),
    }
}

/// What parsing the body of a block named `bname` produces, scanning from
/// `i` with the body's span starting at `bstart`: literal text, expression
/// tags and nested blocks until a close tag or a chain block ends the body.
/// The result carries the body, the chain if one was parsed, and any
/// close-tag name still to be matched further out.
pub open spec fn sp_body(s: Seq<char>, bstart: int, i: int, bname: Seq<char>) -> PRes<
    (SubV, Option<Box<BlockV>>, Option<Seq<char>>),
>
    decreases s.len() - i, 7int,
{
    if i >= s.len() {
        Err(ErrV::EndOfText)
    } else if !(s[i] == '{' && i + 1 < s.len() && s[i + 1] == '{') {
        sp_body(s, bstart, i + 1, bname)
    } else {
        let k = i + 2;
        if k >= s.len() {
            Err(ErrV::EndOfText)
        } else if s[k] == '#' {
            match sp_var_at(s, k + 1) {
                Err(e) => Err(e),
                Ok(jm) => if i < jm.0 && jm.0 <= s.len() {
                    let chainish = jm.1 == "else"@ || (jm.1 == "if"@ && bname == "if"@);
                    match sp_block_named(s, jm.0, jm.1) {
                        Err(e) => Err(e),
                        Ok(br) => {
                            let e1 = br.0;
                            let cb = br.1.0;
                            if chainish {
                                let sub = SubV { start: bstart, end: i, templates: Seq::empty() };
                                match br.1.1 {
                                    Some(x) => if x.len() == 0 || x == bname {
                                        Ok((e1, (sub, Some(Box::new(cb)), None)))
                                    } else {
                                        Ok((e1, (sub, Some(Box::new(cb)), Some(x))))
                                    },
                                    None => match sp_close_tag(s, e1) {
                                        Ok(jx) => if jx.1.len() == 0 || jx.1 == bname {
                                            Ok((jx.0, (sub, Some(Box::new(cb)), None)))
                                        } else {
                                            Ok((jx.0, (sub, Some(Box::new(cb)), Some(jx.1))))
                                        },
                                        Err(e) => Err(e),
                                    },
                                }
                            } else {
                                match br.1.1 {
                                    Some(x) => Err(ErrV::UnexpectedClose(x)),
                                    None => if i < e1 && e1 <= s.len() {
                                        match sp_body(s, bstart, e1, bname) {
                                            Ok(rr) => {
                                                let node = TplV {
                                                    start: i,
                                                    end: e1,
                                                    kind: TplKV::Block(cb),
                                                };
                                                Ok(
                                                    (
                                                        rr.0,
                                                        (
                                                            SubV {
                                                                templates: seq![node]
                                                                    + rr.1.0.templates,
                                                                ..rr.1.0
                                                            },
                                                            rr.1.1,
                                                            rr.1.2,
                                                        ),
                                                    ),
                                                )
                                            },
                                            Err(e) => Err(e),
                                        }
                                    } else {
                                        Err(ErrV::EndOfText)
                                    },
                                }
                            }
                        },
                    }
                } else {
                    Err(ErrV::EndOfText)
                },
            }
        } else if s[k] == '/' {
            match sp_var_at(s, k + 1) {
                Ok(jx) => match sp_tok(s, jx.0, '}') {
                    Ok(t1) => match sp_tok(s, t1, '}') {
                        Ok(t2) => {
                            let sub = SubV { start: bstart, end: i, templates: Seq::empty() };
                            if jx.1.len() == 0 || jx.1 == bname {
                                Ok((t2, (sub, None, None)))
                            } else {
                                Ok((t2, (sub, None, Some(jx.1))))
                            }
                        },
                        Err(e) => Err(e),
                    },
                    Err(e) => Err(e),
                },
                Err(e) => Err(e),
            }
        } else {
            match sp_full_expression(s, k) {
                Ok(jv) => match sp_tok(s, jv.0, '}') {
                    Ok(t1) => match sp_tok(s, t1, '}') {
                        Ok(t2) => if i < t2 && t2 <= s.len() {
                            match sp_body(s, bstart, t2, bname) {
                                Ok(rr) => {
                                    let node = TplV {
                                        start: i,
                                        end: t2,
                                        kind: TplKV::Expression(jv.1),
                                    };
                                    Ok(
                                        (
                                            rr.0,
                                            (
                                                SubV {
                                                    templates: seq![node] + rr.1.0.templates,
                                                    ..rr.1.0
                                                },
                                                rr.1.1,
                                                rr.1.2,
                                            ),
                                        ),
                                    )
                                },
                                Err(e) => Err(e),
                            }
                        } else {
                            Err(ErrV::EndOfText)
                        },
                        Err(e) => Err(e),
                    },
                    Err(e) => Err(e),
                },
                Err(e) => Err(e),
            }
        }
    }
}

/// A whole close tag `{{/name}}` at `i`: the offset past it and the name
/// (possibly empty), or the exact error of the first wrong character.
pub open spec fn sp_close_tag(s: Seq<char>, i: int) -> PRes<Seq<char>> {
    match sp_tok(s, i, '{') {
        Ok(t1) => match sp_tok(s, t1, '{') {
            Ok(t2) => match sp_tok(s, t2, '/') {
                Ok(t3) => match sp_var_at(s, t3) {
                    Ok(jx) => match sp_tok(s, jx.0, '}') {
                        Ok(t4) => match sp_tok(s, t4, '}') {
                            Ok(t5) => Ok((t5, jx.1)),
                            Err(e) => Err(e),
                        },
                        Err(e) => Err(e),
                    },
                    Err(e) => Err(e),
                },
                Err(e) => Err(e),
            },
            Err(e) => Err(e),
        },
        Err(e) => Err(e),
    }
}

/// What parsing a whole source produces: the templates of the top level in
/// order, spanning the source; an empty source is the end-of-input error.
pub open spec fn sp_parse(s: Seq<char>) -> Result<SubV, ErrV> {
    if s.len() == 0 {
        Err(ErrV::EndOfText)
    } else {
        match sp_main(s, 0) {
            Ok(ts) => Ok(SubV { start: 0, end: s.len() as int, templates: ts }),
            Err(e) => Err(e),
        }
    }
}

/// The top-level templates from offset `i` on: literal text is skipped, a
/// `{{#` begins a block group, any other `{{` an expression tag.
pub open spec fn sp_main(s: Seq<char>, i: int) -> Result<Seq<TplV>, ErrV>
    decreases s.len() - i, 8int,
{
    if i >= s.len() {
        Ok(Seq::empty())
    } else if s[i] == '{' && i + 1 < s.len() && s[i + 1] == '{' {
        if i + 2 < s.len() && s[i + 2] == '#' {
            match sp_block_at(s, i + 3) {
                Ok(eb) => {
                    let node = TplV { start: i, end: eb.0, kind: TplKV::Block(eb.1) };
                    if i < eb.0 && eb.0 <= s.len() {
                        match sp_main(s, eb.0) {
                            Ok(rest) => Ok(seq![node] + rest),
                            Err(e) => Err(e),
                        }
                    } else {
                        Err(ErrV::EndOfText)
                    }
                },
                Err(e) => Err(e),
            }
        } else {
            match sp_full_expression(s, i + 2) {
                Ok(jv) => match sp_tok(s, jv.0, '}') {
                    Ok(t1) => match sp_tok(s, t1, '}') {
                        Ok(t2) => {
                            let node = TplV {
                                start: i,
                                end: t2,
                                kind: TplKV::Expression(jv.1),
                            };
                            if i < t2 && t2 <= s.len() {
                                match sp_main(s, t2) {
                                    Ok(rest) => Ok(seq![node] + rest),
                                    Err(e) => Err(e),
                                }
                            } else {
                                Err(ErrV::EndOfText)
                            }
                        },
                        Err(e) => Err(e),
                    },
                    Err(e) => Err(e),
                },
                Err(e) => Err(e),
            }
        }
    } else {
        sp_main(s, i + 1)
    }
}

/// Whether the source holds an opening `{{` anywhere.
pub open spec fn has_tag(s: Seq<char>) -> bool {
    exists|i: int| 0 <= i < s.len() - 1 && #[trigger] s[i] == '{' && s[i + 1] == '{'
}

/// The parser: the source characters and a cursor over them.
pub struct Parser {
    src: Vec<char>,
    pos: usize,
}

impl Parser {
    /// The source being parsed.
    pub closed spec fn text(&self) -> Seq<char> {
        self.src@
    }

    /// The cursor: the offset of the next character to consume.
    pub closed spec fn at(&self) -> int {
        self.pos as int
    }

    /// The cursor never passes the end of the source.
    pub closed spec fn wf(&self) -> bool {
        self.pos <= self.src@.len()
    }

    /// A parser at the start of the given source.
    pub fn new(text: &str) -> (r: Parser)
        ensures
            r.wf(),
            r.text() == text@,
            r.at() == 0,
    {
        Parser { src: str_chars(text), pos: 0 }
    }

    /// Whether the next character is `ch`, without consuming it.
    pub fn is_next(&self, ch: char) -> (r: bool)
        requires
            self.wf(),
        ensures
            r == (self.at() < self.text().len() && self.text()[self.at()] == ch),
    {
        if self.pos < self.src.len() {
            self.src[self.pos] == ch
        } else {
            false
        }
    }

    /// Consumes one character, which must be `ch`: at the end of the input
    /// the error names the expected character, and on any other character
    /// the error names both.
    pub fn skip_token(&mut self, ch: char) -> (r: FinchResult<()>)
        requires
            old(self).wf(),
        ensures
            final(self).wf(),
            final(self).text() == old(self).text(),
            old(self).at() == old(self).text().len() ==> (r matches Err(e) && e@
                == ErrV::Expected(ch) && final(self).at() == old(self).at()),
            old(self).at() < old(self).text().len() ==> {
                &&& final(self).at() == old(self).at() + 1
                &&& old(self).text()[old(self).at()] == ch ==> r is Ok
                &&& old(self).text()[old(self).at()] != ch ==> (r matches Err(e) && e@
                    == ErrV::ExpectedFound(ch, old(self).text()[old(self).at()]))
            },
    {
        if self.pos < self.src.len() {
            let found = self.src[self.pos];
            self.pos += 1;
            if found != ch {
                Err(FinchError::ExpectedFound(ch, found))
            } else {
                Ok(())
            }
        } else {
            Err(FinchError::Expected(ch))
        }
    }

    /// Consumes every immediately following occurrence of `ch`.
    pub fn skip_while(&mut self, ch: char)
        requires
            old(self).wf(),
        ensures
            final(self).wf(),
            final(self).text() == old(self).text(),
            old(self).at() <= final(self).at() <= final(self).text().len(),
            forall|j: int| old(self).at() <= j < final(self).at() ==> final(self).text()[j] == ch,
            final(self).at() < final(self).text().len() ==> final(self).text()[final(self).at()]
                != ch,
            final(self).at() == scan_ch(old(self).text(), old(self).at(), ch),
    {
        while self.pos < self.src.len() && self.src[self.pos] == ch
            invariant
                self.wf(),
                self.text() == old(self).text(),
                old(self).at() <= self.at(),
                forall|j: int| old(self).at() <= j < self.at() ==> self.text()[j] == ch,
                scan_ch(old(self).text(), old(self).at(), ch) == scan_ch(
                    self.text(),
                    self.at(),
                    ch,
                ),
            decreases self.src@.len() - self.pos,
        {
            self.pos += 1;
        }
        proof {
            assert(scan_ch(self.text(), self.at(), ch) == self.at());
        }
    }

    /// Scans an identifier (possibly empty) at the cursor and leaves the
    /// cursor on its terminator; reaching the end of the input instead is an
    /// error.
    pub fn parse_var(&mut self) -> (r: FinchResult<String>)
        requires
            old(self).wf(),
        ensures
            final(self).wf(),
            final(self).text() == old(self).text(),
            old(self).at() <= final(self).at(),
            final(self).at() == scan_ident(old(self).text(), old(self).at()),
            scan_ident(old(self).text(), old(self).at()) < old(self).text().len() ==> (r matches
                Ok(s) && s@ == old(self).text().subrange(old(self).at(), final(self).at())),
            scan_ident(old(self).text(), old(self).at()) == old(self).text().len() ==> (r matches
                Err(e) && e@ == ErrV::EndOfText),
    {
        proof {
            lemma_scan_ident(self.text(), self.at());
        }
        let ghost start = self.at();
        let mut res: Vec<char> = Vec::new();
        while self.pos < self.src.len() && is_ident_char(self.src[self.pos])
            invariant
                self.wf(),
                self.text() == old(self).text(),
                start <= self.at(),
                forall|j: int| start <= j < self.at() ==> ident_char(self.text()[j]),
                res@ == self.text().subrange(start, self.at()),
                scan_ident(self.text(), start) == scan_ident(self.text(), self.at()),
            decreases self.src@.len() - self.pos,
        {
            res.push(self.src[self.pos]);
            proof {
                assert(self.text().subrange(start, self.at() + 1) =~= self.text().subrange(
                    start,
                    self.at(),
                ).push(self.text()[self.at()]));
            }
            self.pos += 1;
        }
        proof {
            assert(scan_ident(self.text(), self.at()) == self.at());
        }
        if self.pos < self.src.len() {
            Ok(chars_string(&res))
        } else {
            Err(FinchError::EndOfText)
        }
    }

    /// Parses a quoted string literal whose opening quote stands at the
    /// cursor: a backslash copies the next character verbatim, and a closing
    /// quote ends the literal. An input that ends first is an error naming
    /// the missing quote.
    pub fn parse_string(&mut self) -> (r: FinchResult<String>)
        requires
            old(self).wf(),
            old(self).at() < old(self).text().len(),
        ensures
            final(self).wf(),
            final(self).text() == old(self).text(),
            old(self).at() <= final(self).at(),
            match scan_str(old(self).text(), old(self).at() + 1) {
                Some((j, t)) => r matches Ok(s) && s@ == t && final(self).at() == j,
                None => r matches Err(e) && e@ == ErrV::Expected('"') && final(self).at() == old(
                    self
                ).text().len(),
            },
    {
        proof {
            lemma_scan_str_bounds(old(self).text(), old(self).at() + 1);
        }
        let _ = self.skip_token('"');  // the opening quote
        let mut res: Vec<char> = Vec::new();
        while self.pos < self.src.len()
            invariant
                self.wf(),
                self.text() == old(self).text(),
                old(self).at() < self.at(),
                match scan_str(self.text(), self.at()) {
                    Some((j, t)) => scan_str(self.text(), old(self).at() + 1) == Some(
                        (j, res@ + t),
                    ),
                    None => scan_str(self.text(), old(self).at() + 1) is None,
                },
            decreases self.src@.len() - self.pos,
        {
            let c = self.src[self.pos];
            self.pos += 1;
            if c == '"' {
                proof {
                    assert(res@ + Seq::<char>::empty() =~= res@);
                }
                return Ok(chars_string(&res));
            } else if c == '\\' {
                if self.pos >= self.src.len() {
                    return Err(FinchError::Expected('"'));
                }
                let e = self.src[self.pos];
                self.pos += 1;
                res.push(e);
                proof {
                    let here = self.at() - 2;
                    assert(match scan_str(self.text(), self.at()) {
                        Some((j, t)) => scan_str(self.text(), here) == Some(
                            (j, seq![self.text()[here + 1]] + t),
                        ),
                        None => scan_str(self.text(), here) is None,
                    });
                    assert(forall|t: Seq<char>|
                        res@.drop_last() + (seq![self.text()[here + 1]] + t) =~= res@ + t);
                }
            } else {
                res.push(c);
                proof {
                    let here = self.at() - 1;
                    assert(match scan_str(self.text(), self.at()) {
                        Some((j, t)) => scan_str(self.text(), here) == Some(
                            (j, seq![self.text()[here]] + t),
                        ),
                        None => scan_str(self.text(), here) is None,
                    });
                    assert(forall|t: Seq<char>|
                        res@.drop_last() + (seq![self.text()[here]] + t) =~= res@ + t);
                }
            }
        }
        Err(FinchError::Expected('"'))
    }

    /// Parses a numeric literal at the cursor into canonical decimal text:
    /// digits with at most one dot, underscores ignored. A literal with no
    /// digits at all is invalid, and an input that ends before a terminator
    /// is an error.
    pub fn parse_number(&mut self) -> (r: FinchResult<String>)
        requires
            old(self).wf(),
        ensures
            final(self).wf(),
            final(self).text() == old(self).text(),
            old(self).at() <= final(self).at(),
            match scan_num(old(self).text(), old(self).at(), false) {
                Some((j, a, b)) => final(self).at() == j && if a.len() + b.len() == 0 {
                    r matches Err(e) && e@ == ErrV::InvalidNumber
                } else {
                    r matches Ok(s) && s@ == canon_num(a, b)
                },
                None => r matches Err(e) && e@ == ErrV::EndOfText && final(self).at() == old(
                    self
                ).text().len(),
            },
    {
        proof {
            lemma_scan_num_bounds(old(self).text(), old(self).at(), false);
        }
        let mut ints: Vec<char> = Vec::new();
        let mut fracs: Vec<char> = Vec::new();
        let mut dot = false;
        loop
            invariant
                self.wf(),
                self.text() == old(self).text(),
                !dot ==> fracs@.len() == 0,
                match scan_num(self.text(), self.at(), dot) {
                    Some((j, a, b)) => scan_num(self.text(), old(self).at(), false) == Some(
                        (j, ints@ + a, fracs@ + b),
                    ),
                    None => scan_num(self.text(), old(self).at(), false) is None,
                },
            decreases self.src@.len() - self.pos,
        {
            if self.pos >= self.src.len() {
                return Err(FinchError::EndOfText);
            }
            let c = self.src[self.pos];
            if is_digit_char(c) {
                self.pos += 1;
                if dot {
                    fracs.push(c);
                    proof {
                        assert(forall|b: Seq<char>|
                            fracs@.drop_last() + (seq![c] + b) =~= fracs@ + b);
                    }
                } else {
                    ints.push(c);
                    proof {
                        assert(forall|a: Seq<char>|
                            ints@.drop_last() + (seq![c] + a) =~= ints@ + a);
                    }
                }
            } else if c == '_' {
                self.pos += 1;
            } else if c == '.' && !dot {
                self.pos += 1;
                dot = true;
            } else {
                proof {
                    assert(scan_num(self.text(), self.at(), dot) == Some(
                        (self.at(), Seq::<char>::empty(), Seq::<char>::empty()),
                    ));
                    assert(ints@ + Seq::<char>::empty() =~= ints@);
                    assert(fracs@ + Seq::<char>::empty() =~= fracs@);
                }
                if ints.len() == 0 && fracs.len() == 0 {
                    return Err(FinchError::InvalidNumber);
                }
                let canon = canonize_number(&ints, &fracs);
                return Ok(chars_string(&canon));
            }
        }
    }

    /// Parses one expression at the cursor: a primary (string, number, name
    /// or dotted path, literal, parenthesized expression or `!` negation)
    /// followed by an optional `?` marker or call-argument list.
    #[verifier::rlimit(100)]
    pub fn parse_expression(&mut self) -> (r: FinchResult<ExpressionKind>)
        requires
            old(self).wf(),
        ensures
            final(self).wf(),
            final(self).text() == old(self).text(),
            old(self).at() <= final(self).at(),
            r is Ok ==> old(self).at() < final(self).at(),
            match sp_expression(old(self).text(), old(self).at()) {
                Ok(jv) => (r matches Ok(e) && expr_view(e) == jv.1) && final(self).at() == jv.0,
                Err(er) => r matches Err(x) && x@ == er,
            },
        decreases self.text().len() - self.at(), 1int,
    {
        let ghost s = old(self).text();
        let ghost i0 = old(self).at();
        proof {
            reveal_with_fuel(sp_expression, 2);
            reveal_with_fuel(sp_primary, 2);
        }
        if self.pos >= self.src.len() {
            return Err(FinchError::EndOfText);
        }
        let c = self.src[self.pos];
        let thing: ExpressionKind;
        if c == '"' {
            proof {
                lemma_scan_str_bounds(s, i0 + 1);
            }
            thing = ExpressionKind::Str(self.parse_string()?);
            proof {
                assert(sp_primary(s, i0) == Ok::<(int, ExprV), ErrV>(
                    (self.at(), expr_view(thing)),
                ));
            }
        } else if is_digit_char(c) || c == '-' {
            proof {
                lemma_scan_num_bounds(s, i0, false);
            }
            thing = ExpressionKind::Number(self.parse_number()?);
            proof {
                assert(sp_primary(s, i0) == Ok::<(int, ExprV), ErrV>(
                    (self.at(), expr_view(thing)),
                ));
            }
        } else if is_name_start(c) {
            thing = self.parse_possible_var()?;
            proof {
                assert(sp_primary(s, i0) == Ok::<(int, ExprV), ErrV>(
                    (self.at(), expr_view(thing)),
                ));
            }
        } else if c == ' ' {
            self.skip_while(' ');
            proof {
                assert(self.at() > i0);
            }
            thing = self.parse_expression()?;
            proof {
                assert(sp_primary(s, i0) == Ok::<(int, ExprV), ErrV>(
                    (self.at(), expr_view(thing)),
                ));
            }
        } else if c == '(' {
            self.pos += 1;
            let exp = self.parse_full_expression()?;
            self.skip_token(')')?;
            thing = exp.1;
            proof {
                assert(sp_primary(s, i0) == Ok::<(int, ExprV), ErrV>(
                    (self.at(), expr_view(thing)),
                ));
            }
        } else if c == '!' {
            self.pos += 1;
            let inner = self.parse_expression()?;
            let ghost vinner = expr_view(inner);
            let ghost ginner = inner;
            thing = ExpressionKind::Unary(Box::new(UnaryOps::Not(inner)));
            proof {
                assert(un_view(UnaryOps::Not(ginner)) == UnV::Not(expr_view(ginner)));
                assert(expr_view(thing) == ExprV::Unary(Box::new(UnV::Not(vinner))));
                assert(sp_primary(s, i0) == Ok::<(int, ExprV), ErrV>(
                    (self.at(), expr_view(thing)),
                ));
            }
        } else {
            return Err(FinchError::Unexpected(c));
        }
        proof {
            assert(sp_primary(s, i0) == Ok::<(int, ExprV), ErrV>((self.at(), expr_view(thing))));
        }
        let ghost jp = self.at();
        let ghost vthing = expr_view(thing);
        if self.pos >= self.src.len() {
            return Err(FinchError::EndOfText);
        }
        let next = self.src[self.pos];
        if next == '?' {
            self.pos += 1;
            let ghost gthing = thing;
            let wrapped = ExpressionKind::Unary(Box::new(UnaryOps::ShortCircuit(thing)));
            proof {
                assert(un_view(UnaryOps::ShortCircuit(gthing)) == UnV::ShortCircuit(expr_view(
                    gthing,
                )));
                assert(expr_view(wrapped) == ExprV::Unary(Box::new(UnV::ShortCircuit(vthing))));
                assert(sp_postfix(s, jp, vthing) == Ok::<(int, ExprV), ErrV>(
                    (jp + 1, expr_view(wrapped)),
                ));
            }
            Ok(wrapped)
        } else if next == '(' {
            self.pos += 1;
            let ghost args0 = self.at();
            let mut params: Vec<ExpressionKind> = Vec::new();
            proof {
                broadcast use lemma_exprs_view;

            }
            while self.pos < self.src.len()
                invariant
                    self.wf(),
                    self.text() == s,
                    i0 < self.at(),
                    args0 <= self.at(),
                    match sp_args(s, self.at()) {
                        Ok(ka) => sp_args(s, args0) == Ok::<(int, Seq<ExprV>), ErrV>(
                            (ka.0, exprs_view(params@) + ka.1),
                        ),
                        Err(e) => sp_args(s, args0) == Err::<(int, Seq<ExprV>), ErrV>(e),
                    },
                decreases self.src@.len() - self.pos,
            {
                let a = self.src[self.pos];
                if a == ' ' || a == ',' {
                    self.pos += 1;
                } else if a == ')' {
                    self.pos += 1;
                    proof {
                        broadcast use lemma_exprs_view;

                        assert(exprs_view(params@) + Seq::<ExprV>::empty() =~= exprs_view(
                            params@,
                        ));
                    }
                    let ghost vargs = exprs_view(params@);
                    let call = ExpressionKind::Call { var: Box::new(thing), params };
                    proof {
                        assert(expr_view(call) == ExprV::Call(Box::new(vthing), vargs));
                    }
                    return Ok(call);
                } else {
                    let ghost cur = self.at();
                    let ghost pre_params = params@;
                    let pr = self.parse_full_expression()?;
                    params.push(pr.1);
                    proof {
                        broadcast use lemma_exprs_view;

                        assert(params@.drop_last() =~= pre_params);
                        match sp_full_expression(s, cur) {
                            Ok(jv) => {
                                assert(exprs_view(params@) =~= exprs_view(pre_params).push(
                                    jv.1,
                                ));
                                assert forall|rest: Seq<ExprV>|
                                    exprs_view(pre_params) + (seq![jv.1] + rest) =~= exprs_view(
                                        params@,
                                    ) + rest by {
                                    assert(exprs_view(pre_params).len() == pre_params.len());
                                }
                            },
                            _ => {},
                        }
                    }
                }
            }
            Err(FinchError::EndOfText)
        } else {
            proof {
                assert(sp_postfix(s, jp, vthing) == Ok::<(int, ExprV), ErrV>((jp, vthing)));
            }
            Ok(thing)
        }
    }

    /// Parses a full expression: one [`Self::parse_expression`] primary
    /// extended by any binary operators that follow it. The returned offset
    /// is the cursor after the expression, on its terminator.
    pub fn parse_full_expression(&mut self) -> (r: FinchResult<(usize, ExpressionKind)>)
        requires
            old(self).wf(),
        ensures
            final(self).wf(),
            final(self).text() == old(self).text(),
            old(self).at() <= final(self).at(),
            r is Ok ==> old(self).at() < final(self).at(),
            r matches Ok(p) ==> p.0 == final(self).at(),
            match sp_full_expression(old(self).text(), old(self).at()) {
                Ok(jv) => (r matches Ok(p) && expr_view(p.1) == jv.1) && final(self).at() == jv.0,
                Err(er) => r matches Err(x) && x@ == er,
            },
        decreases self.text().len() - self.at(), 2int,
    {
        let exp = self.parse_expression()?;
        proof {
            assert(old(self).at() < self.at() && self.at() <= self.text().len());
        }
        self.parse_possibly_binary(exp, -1)
    }

    /// Climbs binary operators after an already-parsed left operand `res`:
    /// `==`, `!=`, `>`, `>=`, `<`, `<=` chain left to right; `&&` and `||`
    /// take a full right operand when their precedence exceeds `prec`, which
    /// groups their chains to the right.
    #[verifier::rlimit(100)]
    fn parse_possibly_binary(&mut self, res: ExpressionKind, prec: i8) -> (r: FinchResult<
        (usize, ExpressionKind),
    >)
        requires
            old(self).wf(),
        ensures
            final(self).wf(),
            final(self).text() == old(self).text(),
            old(self).at() <= final(self).at(),
            r matches Ok(p) ==> p.0 == final(self).at(),
            match sp_possibly_binary(
                old(self).text(),
                old(self).at(),
                expr_view(res),
                prec as int,
            ) {
                Ok(jv) => (r matches Ok(p) && expr_view(p.1) == jv.1) && final(self).at() == jv.0,
                Err(er) => r matches Err(x) && x@ == er,
            },
        decreases self.text().len() - self.at(), 3int,
    {
        let ghost s = old(self).text();
        let ghost i0 = old(self).at();
        let ghost gres = res;
        let ghost vres = expr_view(res);
        if self.pos >= self.src.len() {
            return Err(FinchError::EndOfText);
        }
        let followup = self.src[self.pos];
        let followup_end = self.pos;
        if followup == '=' {
            self.pos += 1;
            self.skip_token('=')?;
            let right = self.parse_expression()?;
            let ghost vright = expr_view(right);
            let ghost gright = right;
            let bin = ExpressionKind::Binary(Box::new(BinaryOps::Compare(res, right)));
            proof {
                assert(i0 < self.at() && self.at() <= s.len());
                assert(bin_view(BinaryOps::Compare(gres, gright)) == BinV::Compare(
                    expr_view(gres),
                    expr_view(gright),
                ));
                assert(expr_view(bin) == ExprV::Binary(Box::new(BinV::Compare(vres, vright))));
            }
            self.parse_possibly_binary(bin, COMPARE_PREC)
        } else if followup == '!' {
            self.pos += 1;
            self.skip_token('=')?;
            let right = self.parse_expression()?;
            let ghost vright = expr_view(right);
            let ghost gright = right;
            let bin = ExpressionKind::Binary(Box::new(BinaryOps::Not(res, right)));
            proof {
                assert(i0 < self.at() && self.at() <= s.len());
                assert(bin_view(BinaryOps::Not(gres, gright)) == BinV::Not(
                    expr_view(gres),
                    expr_view(gright),
                ));
                assert(expr_view(bin) == ExprV::Binary(Box::new(BinV::Not(vres, vright))));
            }
            self.parse_possibly_binary(bin, COMPARE_PREC)
        } else if followup == '&' {
            self.pos += 1;
            self.skip_token('&')?;
            if AND_PREC > prec {
                let right = self.parse_full_expression()?;
                let ghost vright = expr_view(right.1);
                let ghost gright = right.1;
                let bin = ExpressionKind::Binary(Box::new(BinaryOps::And(res, right.1)));
                proof {
                    assert(i0 < self.at() && self.at() <= s.len());
                    assert(bin_view(BinaryOps::And(gres, gright)) == BinV::And(
                        expr_view(gres),
                        expr_view(gright),
                    ));
                    assert(expr_view(bin) == ExprV::Binary(Box::new(BinV::And(vres, vright))));
                }
                self.parse_possibly_binary(bin, AND_PREC)
            } else {
                let right = self.parse_expression()?;
                let ghost vright = expr_view(right);
                let ghost gright = right;
                let bin = ExpressionKind::Binary(Box::new(BinaryOps::And(res, right)));
                proof {
                    assert(i0 < self.at() && self.at() <= s.len());
                    assert(bin_view(BinaryOps::And(gres, gright)) == BinV::And(
                        expr_view(gres),
                        expr_view(gright),
                    ));
                    assert(expr_view(bin) == ExprV::Binary(Box::new(BinV::And(vres, vright))));
                }
                self.parse_possibly_binary(bin, AND_PREC)
            }
        } else if followup == '|' {
            self.pos += 1;
            self.skip_token('|')?;
            if OR_PREC > prec {
                let right = self.parse_full_expression()?;
                let ghost vright = expr_view(right.1);
                let ghost gright = right.1;
                let bin = ExpressionKind::Binary(Box::new(BinaryOps::Or(res, right.1)));
                proof {
                    assert(i0 < self.at() && self.at() <= s.len());
                    assert(bin_view(BinaryOps::Or(gres, gright)) == BinV::Or(
                        expr_view(gres),
                        expr_view(gright),
                    ));
                    assert(expr_view(bin) == ExprV::Binary(Box::new(BinV::Or(vres, vright))));
                }
                self.parse_possibly_binary(bin, OR_PREC)
            } else {
                let right = self.parse_expression()?;
                let ghost vright = expr_view(right);
                let ghost gright = right;
                let bin = ExpressionKind::Binary(Box::new(BinaryOps::Or(res, right)));
                proof {
                    assert(i0 < self.at() && self.at() <= s.len());
                    assert(bin_view(BinaryOps::Or(gres, gright)) == BinV::Or(
                        expr_view(gres),
                        expr_view(gright),
                    ));
                    assert(expr_view(bin) == ExprV::Binary(Box::new(BinV::Or(vres, vright))));
                }
                self.parse_possibly_binary(bin, OR_PREC)
            }
        } else if followup == '>' {
            self.pos += 1;
            if self.is_next('=') {
                self.pos += 1;
                let right = self.parse_expression()?;
                let ghost vright = expr_view(right);
                let ghost gright = right;
                let bin = ExpressionKind::Binary(Box::new(BinaryOps::Gte(res, right)));
                proof {
                    assert(i0 < self.at() && self.at() <= s.len());
                    assert(bin_view(BinaryOps::Gte(gres, gright)) == BinV::Gte(
                        expr_view(gres),
                        expr_view(gright),
                    ));
                    assert(expr_view(bin) == ExprV::Binary(Box::new(BinV::Gte(vres, vright))));
                }
                self.parse_possibly_binary(bin, COMPARE_PREC)
            } else {
                let right = self.parse_expression()?;
                let ghost vright = expr_view(right);
                let ghost gright = right;
                let bin = ExpressionKind::Binary(Box::new(BinaryOps::Gt(res, right)));
                proof {
                    assert(i0 < self.at() && self.at() <= s.len());
                    assert(bin_view(BinaryOps::Gt(gres, gright)) == BinV::Gt(
                        expr_view(gres),
                        expr_view(gright),
                    ));
                    assert(expr_view(bin) == ExprV::Binary(Box::new(BinV::Gt(vres, vright))));
                }
                self.parse_possibly_binary(bin, COMPARE_PREC)
            }
        } else if followup == '<' {
            self.pos += 1;
            if self.is_next('=') {
                self.pos += 1;
                let right = self.parse_expression()?;
                let ghost vright = expr_view(right);
                let ghost gright = right;
                let bin = ExpressionKind::Binary(Box::new(BinaryOps::Lte(res, right)));
                proof {
                    assert(i0 < self.at() && self.at() <= s.len());
                    assert(bin_view(BinaryOps::Lte(gres, gright)) == BinV::Lte(
                        expr_view(gres),
                        expr_view(gright),
                    ));
                    assert(expr_view(bin) == ExprV::Binary(Box::new(BinV::Lte(vres, vright))));
                }
                self.parse_possibly_binary(bin, COMPARE_PREC)
            } else {
                let right = self.parse_expression()?;
                let ghost vright = expr_view(right);
                let ghost gright = right;
                let bin = ExpressionKind::Binary(Box::new(BinaryOps::Lt(res, right)));
                proof {
                    assert(i0 < self.at() && self.at() <= s.len());
                    assert(bin_view(BinaryOps::Lt(gres, gright)) == BinV::Lt(
                        expr_view(gres),
                        expr_view(gright),
                    ));
                    assert(expr_view(bin) == ExprV::Binary(Box::new(BinV::Lt(vres, vright))));
                }
                self.parse_possibly_binary(bin, COMPARE_PREC)
            }
        } else if followup == ' ' {
            self.skip_while(' ');
            proof {
                assert(i0 < self.at() && self.at() <= s.len());
            }
            self.parse_possibly_binary(res, prec)
        } else {
            proof {
                assert(sp_possibly_binary(s, i0, expr_view(res), prec as int) == Ok::<
                    (int, ExprV),
                    ErrV,
                >((i0, expr_view(res))));
            }
            Ok((followup_end, res))
        }
    }

    /// Parses a name, a dotted path, or one of the literals `true`, `false`,
    /// `null` and `undefined` (recognized by exact name, taking priority
    /// over variable interpretation). A path segment missing after a
    /// trailing dot is an error.
    fn parse_possible_var(&mut self) -> (r: FinchResult<ExpressionKind>)
        requires
            old(self).wf(),
        ensures
            final(self).wf(),
            final(self).text() == old(self).text(),
            old(self).at() <= final(self).at(),
            r is Ok ==> old(self).at() < final(self).at(),
            match sp_possible_var(old(self).text(), old(self).at()) {
                Ok(jv) => (r matches Ok(e) && expr_view(e) == jv.1) && final(self).at() == jv.0,
                Err(er) => r matches Err(x) && x@ == er,
            },
        decreases self.text().len() - self.at(), 1int,
    {
        let ghost s = old(self).text();
        let ghost i0 = old(self).at();
        proof {
            lemma_scan_ident(s, i0);
        }
        let first = self.parse_var()?;
        let ghost j0 = self.at();
        if !self.is_next('.') {
            // a bare name or a literal
            if first.as_str().unicode_len() == 0 {
                proof {
                    assert(j0 == i0);
                }
                return Err(FinchError::Unexpected(self.src[self.pos]));
            }
            proof {
                assert(j0 > i0);
            }
            if str_eq(first.as_str(), "true") {
                return Ok(ExpressionKind::Bool(true));
            }
            if str_eq(first.as_str(), "false") {
                return Ok(ExpressionKind::Bool(false));
            }
            if str_eq(first.as_str(), "undefined") {
                return Ok(ExpressionKind::Undefined);
            }
            if str_eq(first.as_str(), "null") {
                return Ok(ExpressionKind::Null);
            }
            return Ok(ExpressionKind::Var(first));
        }
        let ghost d0 = j0 + 1;
        proof {
            assert(i0 < d0 && d0 <= s.len());
            assert(sp_possible_var(s, i0) == (match sp_segs(s, d0) {
                Ok(kr) => Ok::<(int, ExprV), ErrV>(
                    (kr.0, ExprV::VarDot(seq![s.subrange(i0, j0)] + kr.1)),
                ),
                Err(e) => Err::<(int, ExprV), ErrV>(e),
            }));
        }
        let mut vault: Vec<String> = Vec::new();
        vault.push(first);
        let _ = self.skip_token('.');  // the first dot
        loop
            invariant
                self.wf(),
                self.text() == s,
                i0 < self.at(),
                d0 <= self.at(),
                vault@.len() > 0,
                vault@[0]@ == s.subrange(i0, j0),
                sp_possible_var(s, i0) == (match sp_segs(s, d0) {
                    Ok(kr) => Ok::<(int, ExprV), ErrV>(
                        (kr.0, ExprV::VarDot(seq![s.subrange(i0, j0)] + kr.1)),
                    ),
                    Err(e) => Err::<(int, ExprV), ErrV>(e),
                }),
                match sp_segs(s, self.at()) {
                    Ok(kr) => sp_segs(s, d0) == Ok::<(int, Seq<Seq<char>>), ErrV>(
                        (kr.0, strs_view(vault@.skip(1)) + kr.1),
                    ),
                    Err(e) => sp_segs(s, d0) == Err::<(int, Seq<Seq<char>>), ErrV>(e),
                },
            decreases self.src@.len() - self.pos,
        {
            let ghost cur = self.at();
            proof {
                lemma_scan_ident(s, cur);
                assert(strs_view(vault@.skip(1)).len() == vault@.skip(1).len());
            }
            let seg = self.parse_var()?;
            let ghost jseg = self.at();
            let ghost pre_vault = vault@;
            if self.is_next('.') {
                vault.push(seg);
                let _ = self.skip_token('.');
                proof {
                    assert(vault@.skip(1) =~= pre_vault.skip(1).push(vault@.last()));
                    assert(strs_view(vault@.skip(1)) =~= strs_view(pre_vault.skip(1)).push(
                        s.subrange(cur, jseg),
                    ));
                    assert forall|kr1: Seq<Seq<char>>|
                        strs_view(pre_vault.skip(1)) + (seq![s.subrange(cur, jseg)] + kr1)
                            =~= strs_view(vault@.skip(1)) + kr1 by {}
                }
            } else if seg.as_str().unicode_len() == 0 {
                proof {
                    assert(jseg == cur);
                }
                return Err(FinchError::MissingPropName);
            } else {
                proof {
                    assert(jseg > cur);
                }
                vault.push(seg);
                proof {
                    assert(vault@.skip(1) =~= pre_vault.skip(1).push(vault@.last()));
                    assert(strs_view(vault@) =~= seq![s.subrange(i0, j0)] + (strs_view(
                        pre_vault.skip(1),
                    ) + seq![s.subrange(cur, jseg)]));
                }
                return Ok(ExpressionKind::VarDot(vault));
            }
        }
    }

    /// Parses a block whose `{{#` is already consumed: its name, parameters,
    /// and body or self-close, with any chained blocks attached. The
    /// returned offset is one past the block group's final `}`. A close tag
    /// naming a block that is not open in the group is an error.
    pub fn parse_block(&mut self) -> (r: FinchResult<(usize, FnBlock)>)
        requires
            old(self).wf(),
        ensures
            final(self).wf(),
            final(self).text() == old(self).text(),
            old(self).at() <= final(self).at(),
            r matches Ok(p) ==> p.0 == final(self).at() && wf_block(
                p.1,
                final(self).text().len() as int,
            ),
            match sp_block_at(old(self).text(), old(self).at()) {
                Ok(eb) => (r matches Ok(p) && block_view(p.1) == eb.1) && final(self).at()
                    == eb.0,
                Err(er) => r matches Err(x) && x@ == er,
            },
        decreases self.text().len() - self.at(), 7int,
    {
        proof {
            lemma_scan_ident(old(self).text(), old(self).at());
        }
        let name = self.parse_var()?;
        let b = self.parse_block_named(name)?;
        match b.1 {
            None => Ok((self.pos, b.0)),
            Some(x) => Err(FinchError::UnexpectedClose(x)),
        }
    }

    /// Parses a block whose name is already read: space- or comma-separated
    /// parameter expressions until `/}}` (self-closing, no body) or `}}` (a
    /// body follows). Hands back the block and, if a close tag named an
    /// enclosing block, that name, still to be matched further out.
    #[verifier::rlimit(100)]
    fn parse_block_named(&mut self, name: String) -> (r: FinchResult<(FnBlock, Option<String>)>)
        requires
            old(self).wf(),
        ensures
            final(self).wf(),
            final(self).text() == old(self).text(),
            old(self).at() <= final(self).at(),
            r is Ok ==> old(self).at() < final(self).at(),
            r matches Ok(p) ==> wf_block(p.0, final(self).text().len() as int),
            match sp_block_named(old(self).text(), old(self).at(), name@) {
                Ok(br) => (r matches Ok(p) && block_view(p.0) == br.1.0 && opt_str_view(p.1)
                    == br.1.1) && final(self).at() == br.0,
                Err(er) => r matches Err(x) && x@ == er,
            },
        decreases self.text().len() - self.at(), 5int,
    {
        let ghost s = old(self).text();
        let ghost i0 = old(self).at();
        let ghost nm = name@;
        let mut params: Vec<ExpressionKind> = Vec::new();
        proof {
            broadcast use lemma_exprs_view;

        }
        while self.pos < self.src.len()
            invariant
                self.wf(),
                self.text() == s,
                i0 <= self.at(),
                nm == name@,
                match sp_block_named(s, self.at(), nm) {
                    Ok(r2) => sp_block_named(s, i0, nm) == Ok::<
                        (int, (BlockV, Option<Seq<char>>)),
                        ErrV,
                    >(
                        (
                            r2.0,
                            (
                                BlockV { params: exprs_view(params@) + r2.1.0.params, ..r2.1.0 },
                                r2.1.1,
                            ),
                        ),
                    ),
                    Err(e) => sp_block_named(s, i0, nm) == Err::<
                        (int, (BlockV, Option<Seq<char>>)),
                        ErrV,
                    >(e),
                },
            decreases self.src@.len() - self.pos,
        {
            let c = self.src[self.pos];
            let ghost cur = self.at();
            if c == ' ' || c == ',' {
                self.pos += 1;
                proof {
                    assert(sp_block_named(s, cur, nm) == sp_block_named(s, cur + 1, nm));
                }
            } else if c == '/' {
                self.pos += 1;
                self.skip_token('}')?;
                self.skip_token('}')?;
                let ghost gparams = params@;
                let fb = FnBlock { name, params, block: None, chain: None };
                proof {
                    broadcast use lemma_exprs_view;

                    assert(block_view(fb) == BlockV {
                        name: nm,
                        params: exprs_view(gparams),
                        block: None,
                        chain: None,
                    });
                    assert(exprs_view(gparams) + Seq::<ExprV>::empty() =~= exprs_view(gparams));
                }
                return Ok((fb, None));
            } else if c == '}' {
                self.pos += 1;
                self.skip_token('}')?;
                let body = self.parse_body(&name)?;
                let ghost gparams = params@;
                let ghost gsub = sub_view(body.0);
                let ghost gchain = opt_chain_view(body.1);
                let ghost gpend = opt_str_view(body.2);
                let fb = FnBlock { name, params, block: Some(body.0), chain: body.1 };
                let pend = body.2;
                proof {
                    broadcast use lemma_exprs_view;

                    assert(block_view(fb) == BlockV {
                        name: nm,
                        params: exprs_view(gparams),
                        block: Some(gsub),
                        chain: gchain,
                    });
                    assert(exprs_view(gparams) + Seq::<ExprV>::empty() =~= exprs_view(gparams));
                }
                return Ok((fb, pend));
            } else {
                let ghost pre_params = params@;
                let pr = self.parse_full_expression()?;
                params.push(pr.1);
                proof {
                    broadcast use lemma_exprs_view;

                    assert(params@.drop_last() =~= pre_params);
                    match sp_full_expression(s, cur) {
                        Ok(jv) => {
                            assert(cur < jv.0 && jv.0 <= s.len());
                            assert(exprs_view(params@) =~= exprs_view(pre_params).push(jv.1));
                            assert forall|rest: Seq<ExprV>|
                                exprs_view(pre_params) + (seq![jv.1] + rest) =~= exprs_view(
                                    params@,
                                ) + rest by {
                                assert(exprs_view(pre_params).len() == pre_params.len());
                            }
                        },
                        _ => {},
                    }
                }
            }
        }
        Err(FinchError::EndOfText)
    }

    /// Parses the body of a block named `bname`, from just past its opening
    /// tag to the tag group that ends it: a close tag, or a chain block
    /// (`{{#else}}` anywhere, `{{#if}}` directly inside an `if`) followed by
    /// whatever closes the chain. Hands back the body, the chain if one was
    /// parsed, and the name of a close tag still to be matched further out.
    #[verifier::rlimit(100)]
    fn parse_body(&mut self, bname: &String) -> (r: FinchResult<
        (SubText, Option<Box<FnBlock>>, Option<String>),
    >)
        requires
            old(self).wf(),
        ensures
            final(self).wf(),
            final(self).text() == old(self).text(),
            old(self).at() <= final(self).at(),
            r matches Ok(p) ==> {
                &&& wf_sub(p.0, final(self).text().len() as int)
                &&& match p.1 {
                    Some(c) => wf_block(*c, final(self).text().len() as int),
                    None => true,
                }
            },
            match sp_body(old(self).text(), old(self).at(), old(self).at(), bname@) {
                Ok(br) => (r matches Ok(p) && sub_view(p.0) == br.1.0 && opt_chain_view(p.1)
                    == br.1.1 && opt_str_view(p.2) == br.1.2) && final(self).at() == br.0,
                Err(er) => r matches Err(x) && x@ == er,
            },
        decreases self.text().len() - self.at(), 6int,
    {
        let ghost s = old(self).text();
        let ghost bn = bname@;
        let start = self.pos;
        let ghost n = self.text().len() as int;
        let mut templates: Vec<Template> = Vec::new();
        proof {
            broadcast use lemma_tpls_view;

        }
        while self.pos < self.src.len()
            invariant
                self.wf(),
                self.text() == s,
                start <= self.at(),
                old(self).at() <= self.at(),
                old(self).at() == start as int,
                bn == bname@,
                wf_tpls(templates@, n),
                tpls_ordered(templates@, start as int),
                templates@.len() > 0 ==> templates@.last().pos.end <= self.at(),
                n == self.text().len(),
                match sp_body(s, start as int, self.at(), bn) {
                    Ok(rr) => sp_body(s, start as int, start as int, bn) == Ok::<
                        (int, (SubV, Option<Box<BlockV>>, Option<Seq<char>>)),
                        ErrV,
                    >(
                        (
                            rr.0,
                            (
                                SubV {
                                    templates: tpls_view(templates@) + rr.1.0.templates,
                                    ..rr.1.0
                                },
                                rr.1.1,
                                rr.1.2,
                            ),
                        ),
                    ),
                    Err(e) => sp_body(s, start as int, start as int, bn) == Err::<
                        (int, (SubV, Option<Box<BlockV>>, Option<Seq<char>>)),
                        ErrV,
                    >(e),
                },
            decreases self.src@.len() - self.pos,
        {
            let c = self.src[self.pos];
            let tag_start = self.pos;
            self.pos += 1;
            if c == '{' && self.is_next('{') {
                let _ = self.skip_token('{');
                if self.pos >= self.src.len() {
                    return Err(FinchError::EndOfText);
                }
                let k = self.src[self.pos];
                if k == '#' {
                    self.pos += 1;
                    let m = self.parse_var()?;
                    proof {
                        lemma_scan_ident(s, tag_start + 3);
                    }
                    let chainish = str_eq(m.as_str(), "else") || (str_eq(m.as_str(), "if")
                        && str_eq(bname.as_str(), "if"));
                    let cb = self.parse_block_named(m)?;
                    let ghost e1 = self.at();
                    let ghost vcb = block_view(cb.0);
                    if chainish {
                        let ghost gtemplates = templates@;
                        let sub = SubText {
                            pos: Span { start, end: tag_start },
                            templates,
                        };
                        proof {
                            assert(sub_view(sub) == SubV {
                                start: start as int,
                                end: tag_start as int,
                                templates: tpls_view(gtemplates),
                            });
                            assert(tpls_view(gtemplates) + Seq::<TplV>::empty() =~= tpls_view(
                                gtemplates,
                            ));
                        }
                        match cb.1 {
                            Some(x) => {
                                if x.as_str().unicode_len() == 0 || str_eq(
                                    x.as_str(),
                                    bname.as_str(),
                                ) {
                                    return Ok((sub, Some(Box::new(cb.0)), None));
                                } else {
                                    return Ok((sub, Some(Box::new(cb.0)), Some(x)));
                                }
                            },
                            None => {
                                // the chain group closed itself; the block's
                                // own close tag must follow at once
                                self.skip_token('{')?;
                                self.skip_token('{')?;
                                self.skip_token('/')?;
                                proof {
                                    lemma_scan_ident(s, e1 + 3);
                                }
                                let x = self.parse_var()?;
                                self.skip_token('}')?;
                                self.skip_token('}')?;
                                if x.as_str().unicode_len() == 0 || str_eq(
                                    x.as_str(),
                                    bname.as_str(),
                                ) {
                                    return Ok((sub, Some(Box::new(cb.0)), None));
                                } else {
                                    return Ok((sub, Some(Box::new(cb.0)), Some(x)));
                                }
                            },
                        }
                    } else {
                        match cb.1 {
                            None => {
                                let ghost pre_templates = templates@;
                                let t = Template {
                                    pos: Span { start: tag_start, end: self.pos },
                                    kind: TemplateKind::Block(cb.0),
                                };
                                proof {
                                    lemma_wf_tpls_push(templates@, t, n);
                                    lemma_tpls_ordered_push(templates@, t, start as int);
                                }
                                templates.push(t);
                                proof {
                                    broadcast use lemma_tpls_view;

                                    assert(templates@.drop_last() =~= pre_templates);
                                    assert(tpl_view(templates@.last()) == TplV {
                                        start: tag_start as int,
                                        end: e1,
                                        kind: TplKV::Block(vcb),
                                    });
                                    assert(tpls_view(templates@) =~= tpls_view(
                                        pre_templates,
                                    ).push(tpl_view(templates@.last())));
                                    assert forall|rest: Seq<TplV>|
                                        tpls_view(pre_templates) + (seq![
                                            tpl_view(templates@.last()),
                                        ] + rest) =~= tpls_view(templates@) + rest by {
                                        assert(tpls_view(pre_templates).len()
                                            == pre_templates.len());
                                    }
                                }
                            },
                            Some(x) => {
                                return Err(FinchError::UnexpectedClose(x));
                            },
                        }
                    }
                } else if k == '/' {
                    self.pos += 1;
                    proof {
                        lemma_scan_ident(s, tag_start + 3);
                    }
                    let x = self.parse_var()?;
                    self.skip_token('}')?;
                    self.skip_token('}')?;
                    let ghost gtemplates = templates@;
                    let sub = SubText {
                        pos: Span { start, end: tag_start },
                        templates,
                    };
                    proof {
                        assert(sub_view(sub) == SubV {
                            start: start as int,
                            end: tag_start as int,
                            templates: tpls_view(gtemplates),
                        });
                        assert(tpls_view(gtemplates) + Seq::<TplV>::empty() =~= tpls_view(
                            gtemplates,
                        ));
                    }
                    if x.as_str().unicode_len() == 0 || str_eq(x.as_str(), bname.as_str()) {
                        return Ok((sub, None, None));
                    } else {
                        return Ok((sub, None, Some(x)));
                    }
                } else {
                    let ghost cur2 = self.at();
                    let e = self.parse_full_expression()?;
                    self.skip_token('}')?;
                    self.skip_token('}')?;
                    let ghost pre_templates = templates@;
                    let ghost ve = expr_view(e.1);
                    let t = Template {
                        pos: Span { start: tag_start, end: self.pos },
                        kind: TemplateKind::Expression(e.1),
                    };
                    proof {
                        lemma_wf_tpls_push(templates@, t, n);
                        lemma_tpls_ordered_push(templates@, t, start as int);
                    }
                    templates.push(t);
                    proof {
                        broadcast use lemma_tpls_view;

                        assert(templates@.drop_last() =~= pre_templates);
                        assert(tpl_view(templates@.last()) == TplV {
                            start: tag_start as int,
                            end: self.at(),
                            kind: TplKV::Expression(ve),
                        });
                        assert(tpls_view(templates@) =~= tpls_view(pre_templates).push(
                            tpl_view(templates@.last()),
                        ));
                        assert forall|rest: Seq<TplV>|
                            tpls_view(pre_templates) + (seq![tpl_view(templates@.last())] + rest)
                                =~= tpls_view(templates@) + rest by {
                            assert(tpls_view(pre_templates).len() == pre_templates.len());
                        }
                    }
                }
            } else {
                proof {
                    assert(sp_body(s, start as int, tag_start as int, bn) == sp_body(
                        s,
                        start as int,
                        tag_start + 1,
                        bn,
                    ));
                }
            }
        }
        Err(FinchError::EndOfText)
    }
    /// Parses a whole template source: literal text interleaved with
    /// expression tags and block groups. The resulting tree spans the whole
    /// source; a source with no `{{` anywhere parses to a tree with no tags
    /// at all, and an empty source is an error.
    pub fn parse(text: &str) -> (r: FinchResult<SubText>)
        ensures
            r matches Ok(st) ==> {
                &&& wf_sub(st, text@.len() as int)
                &&& st.pos.start == 0
                &&& st.pos.end == text@.len()
                &&& !has_tag(text@) ==> st.templates@.len() == 0
            },
            text@.len() == 0 ==> (r matches Err(e) && e@ == ErrV::EndOfText),
            match sp_parse(text@) {
                Ok(sv) => r matches Ok(st) && sub_view(st) == sv,
                Err(er) => r matches Err(x) && x@ == er,
            },
    {
        let src = str_chars(text);
        let n = src.len();
        if n == 0 {
            return Err(FinchError::EndOfText);
        }
        let mut p = Parser { src, pos: 0 };
        let mut templates: Vec<Template> = Vec::new();
        proof {
            broadcast use lemma_tpls_view;

        }
        while p.pos < p.src.len()
            invariant
                p.wf(),
                p.text() == text@,
                n == text@.len(),
                wf_tpls(templates@, n as int),
                tpls_ordered(templates@, 0),
                templates@.len() > 0 ==> templates@.last().pos.end <= p.at(),
                !has_tag(text@) ==> templates@.len() == 0,
                match sp_main(text@, p.at()) {
                    Ok(rest) => sp_main(text@, 0) == Ok::<Seq<TplV>, ErrV>(
                        tpls_view(templates@) + rest,
                    ),
                    Err(e) => sp_main(text@, 0) == Err::<Seq<TplV>, ErrV>(e),
                },
            decreases p.src@.len() - p.pos,
        {
            let c = p.src[p.pos];
            let tag_start = p.pos;
            p.pos += 1;
            if c == '{' && p.is_next('{') {
                proof {
                    assert(text@[tag_start as int] == '{' && text@[tag_start as int + 1] == '{');
                    assert(has_tag(text@));
                }
                let _ = p.skip_token('{');
                if p.is_next('#') {
                    let _ = p.skip_token('#');
                    let b = p.parse_block()?;
                    let ghost vb = block_view(b.1);
                    let ghost pre_templates = templates@;
                    let t = Template {
                        pos: Span { start: tag_start, end: b.0 },
                        kind: TemplateKind::Block(b.1),
                    };
                    proof {
                        lemma_wf_tpls_push(templates@, t, n as int);
                        lemma_tpls_ordered_push(templates@, t, 0);
                    }
                    templates.push(t);
                    proof {
                        broadcast use lemma_tpls_view;

                        assert(templates@.drop_last() =~= pre_templates);
                        assert(tpl_view(templates@.last()) == TplV {
                            start: tag_start as int,
                            end: p.at(),
                            kind: TplKV::Block(vb),
                        });
                        assert(tpls_view(templates@) =~= tpls_view(pre_templates).push(
                            tpl_view(templates@.last()),
                        ));
                        assert forall|rest: Seq<TplV>|
                            tpls_view(pre_templates) + (seq![tpl_view(templates@.last())] + rest)
                                =~= tpls_view(templates@) + rest by {
                            assert(tpls_view(pre_templates).len() == pre_templates.len());
                        }
                    }
                } else {
                    let e = p.parse_full_expression()?;
                    p.skip_token('}')?;
                    p.skip_token('}')?;
                    let ghost ve = expr_view(e.1);
                    let ghost pre_templates = templates@;
                    let t = Template {
                        pos: Span { start: tag_start, end: p.pos },
                        kind: TemplateKind::Expression(e.1),
                    };
                    proof {
                        lemma_wf_tpls_push(templates@, t, n as int);
                        lemma_tpls_ordered_push(templates@, t, 0);
                    }
                    templates.push(t);
                    proof {
                        broadcast use lemma_tpls_view;

                        assert(templates@.drop_last() =~= pre_templates);
                        assert(tpl_view(templates@.last()) == TplV {
                            start: tag_start as int,
                            end: p.at(),
                            kind: TplKV::Expression(ve),
                        });
                        assert(tpls_view(templates@) =~= tpls_view(pre_templates).push(
                            tpl_view(templates@.last()),
                        ));
                        assert forall|rest: Seq<TplV>|
                            tpls_view(pre_templates) + (seq![tpl_view(templates@.last())] + rest)
                                =~= tpls_view(templates@) + rest by {
                            assert(tpls_view(pre_templates).len() == pre_templates.len());
                        }
                    }
                }
            } else {
                proof {
                    assert(sp_main(text@, tag_start as int) == sp_main(text@, tag_start + 1));
                }
            }
        }
        let ghost gtemplates = templates@;
        let st = SubText { pos: Span { start: 0, end: n }, templates };
        proof {
            assert(sp_main(text@, p.at()) == Ok::<Seq<TplV>, ErrV>(Seq::empty()));
            assert(tpls_view(gtemplates) + Seq::<TplV>::empty() =~= tpls_view(gtemplates));
            assert(sub_view(st) == SubV { start: 0, end: n as int, templates: tpls_view(gtemplates) });
        }
        Ok(st)
    }
}

/// The canonical text of a scanned literal, as [`canon_num`] describes it.
fn canonize_number(ints: &Vec<char>, fracs: &Vec<char>) -> (r: Vec<char>)
    ensures
        r@ == canon_num(ints@, fracs@),
{
    let mut out: Vec<char> = Vec::new();
    if ints.len() == 0 {
        out.push('0');
        proof {
            assert(out@ =~= seq!['0']);
        }
    } else {
        let mut k: usize = 0;
        while k + 1 < ints.len() && ints[k] == '0'
            invariant
                k < ints@.len(),
                forall|j: int| 0 <= j < k ==> ints@[j] == '0',
            decreases ints@.len() - k,
        {
            k += 1;
        }
        let mut stripped = crate::parser::copy_range(ints, k, ints.len());
        proof {
            lemma_strip_leading(ints@, k as int);
        }
        out.append(&mut stripped);
        proof {
            assert(out@ =~= strip_leading_zeros(ints@));
        }
    }
    let mut m = fracs.len();
    while m > 0 && fracs[m - 1] == '0'
        invariant
            m <= fracs@.len(),
            forall|j: int| m <= j < fracs@.len() ==> fracs@[j] == '0',
        decreases m,
    {
        m -= 1;
    }
    proof {
        lemma_strip_trailing(fracs@, m as int);
    }
    if m > 0 {
        out.push('.');
        let mut fp = crate::parser::copy_range(fracs, 0, m);
        out.append(&mut fp);
        proof {
            let ip = if ints@.len() == 0 {
                seq!['0']
            } else {
                strip_leading_zeros(ints@)
            };
            assert(out@ =~= ip + seq!['.'] + strip_trailing_zeros(fracs@));
        }
    }
    out
}

/// Comparison operators bind at this precedence.
pub const COMPARE_PREC: i8 = 5;

/// `&&` binds at this precedence.
pub const AND_PREC: i8 = 10;

/// `||` binds at this precedence.
pub const OR_PREC: i8 = 7;

/// A string-literal scan that succeeds consumed at least one character and
/// never passes the end.
pub proof fn lemma_scan_str_bounds(s: Seq<char>, i: int)
    requires
        0 <= i,
    ensures
        scan_str(s, i) matches Some(j) ==> i < j.0 <= s.len(),
    decreases s.len() - i,
{
    if 0 <= i < s.len() && s[i] != '"' {
        if s[i] == '\\' {
            if i + 1 < s.len() {
                lemma_scan_str_bounds(s, i + 2);
            }
        } else {
            lemma_scan_str_bounds(s, i + 1);
        }
    }
}

/// A numeric-literal scan never passes the end, and consumed at least one
/// character whenever it collected a digit.
pub proof fn lemma_scan_num_bounds(s: Seq<char>, i: int, dot: bool)
    requires
        0 <= i,
    ensures
        scan_num(s, i, dot) matches Some(j) ==> i <= j.0 <= s.len() && (j.1.len() + j.2.len() > 0
            ==> i < j.0),
    decreases s.len() - i,
{
    if 0 <= i < s.len() {
        if digit_char(s[i]) || s[i] == '_' {
            lemma_scan_num_bounds(s, i + 1, dot);
        } else if s[i] == '.' && !dot {
            lemma_scan_num_bounds(s, i + 1, true);
        }
    }
}

/// A character that may begin a name: a letter, `_` or `$`.
pub open spec fn name_start_char(c: char) -> bool {
    ||| ('a' as u32) <= (c as u32) <= ('z' as u32)
    ||| ('A' as u32) <= (c as u32) <= ('Z' as u32)
    ||| c == '_'
    ||| c == '$'
}

/// Whether `c` may begin a name, by the rule of [`name_start_char`].
fn is_name_start(c: char) -> (r: bool)
    ensures
        r == name_start_char(c),
{
    ('a' <= c && c <= 'z') || ('A' <= c && c <= 'Z') || c == '_' || c == '$'
}

/// Whether `c` is a decimal digit, by the rule of [`digit_char`].
fn is_digit_char(c: char) -> (r: bool)
    ensures
        r == digit_char(c),
{
    '0' <= c && c <= '9'
}

/// Whether `c` may stand in an identifier, by the rule of [`ident_char`].
fn is_ident_char(c: char) -> (r: bool)
    ensures
        r == ident_char(c),
{
    ('a' <= c && c <= 'z') || ('A' <= c && c <= 'Z') || ('0' <= c && c <= '9') || c == '_' || c
        == '$'
}

/// The characters of `v` between `from` and `to`.
fn copy_range(v: &Vec<char>, from: usize, to: usize) -> (r: Vec<char>)
    requires
        from <= to <= v@.len(),
    ensures
        r@ == v@.subrange(from as int, to as int),
{
    let mut r: Vec<char> = Vec::new();
    let mut i = from;
    while i < to
        invariant
            from <= i <= to <= v@.len(),
            r@ == v@.subrange(from as int, i as int),
        decreases to - i,
    {
        r.push(v[i]);
        proof {
            assert(v@.subrange(from as int, i + 1) =~= v@.subrange(from as int, i as int).push(
                v@[i as int],
            ));
        }
        i += 1;
    }
    r
}

} // verus!
