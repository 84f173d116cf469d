//! A minimal expression-to-text transpiler: literal expressions carry their
//! own text; everything else transpiles to nothing.

use vstd::prelude::*;
use crate::parser::ExpressionKind;

verus! {

/// The transpiler itself; it keeps no state.
pub struct Transpiler {}

/// The surroundings a transpilation runs in: the transpiler and the original
/// template source.
pub struct TranspilerContext<'a> {
    pub transpiler: &'a Transpiler,
    pub original: &'a str,
}

impl Transpiler {
    /// A fresh transpiler.
    pub fn new() -> (r: Self)
        ensures
            r == (Transpiler {  }),
    {
        Transpiler {  }
    }
}

/// The text an expression transpiles to: a string or numeric literal's own
/// text, and nothing for any other expression.
pub open spec fn transpiled(e: ExpressionKind) -> Seq<char> {
    match e {
        ExpressionKind::Str(s) => s@,
        ExpressionKind::Number(n) => n@,
        _ => Seq::empty(),
    }
}

/// Something that can be written out as host-language text.
pub trait Transpilable {
    /// The transpiled text of this value.
    fn transpile(self, ctx: &mut TranspilerContext) -> String;
}

impl Transpilable for ExpressionKind {
    fn transpile(self, ctx: &mut TranspilerContext) -> (r: String)
        ensures
            r@ == transpiled(self),
    {
        match self {
            ExpressionKind::Str(s) => s,
            ExpressionKind::Number(n) => n,
            _ => String::new(),
        }
    }
}

} // verus!
