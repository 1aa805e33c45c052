//! Ready-made capabilities: the `?` placeholder policy and an expression
//! engine that resolves plain environment keys.

use vstd::prelude::*;

use crate::node::{ExprEngine, StringConvert};
use crate::value::{env_get, spec_env_get, Val, Value};

verus! {

/// The `?` placeholder policy: every argument position is marked `?`.
pub struct QuestionConvert {}

impl StringConvert for QuestionConvert {
    open spec fn spec_convert(&self, i: nat) -> Seq<char> {
        "?"@
    }

    fn convert(&self, index: usize) -> (r: String)
        ensures
            r@ == self.spec_convert(index as nat),
    {
        "?".to_owned()
    }
}

/// An expression engine that resolves a plain variable name from the
/// environment and declines everything else. Richer expression languages
/// are supplied by the caller through the same trait.
pub struct EnvLookupEngine {}

impl ExprEngine for EnvLookupEngine {
    open spec fn spec_eval(&self, expr: Seq<char>, env: Val) -> Result<Val, Seq<char>> {
        match spec_env_get(env, expr) {
            Some(v) => Ok(v),
            None => Err("unknown variable"@),
        }
    }

    fn eval(&self, expr: &str, env: &Value) -> (r: Result<Value, String>)
        ensures
            match r {
                Ok(v) => self.spec_eval(expr@, env@) == Ok::<Val, Seq<char>>(v@),
                Err(m) => self.spec_eval(expr@, env@) == Err::<Val, Seq<char>>(m@),
            },
    {
        match env_get(env, expr) {
            Some(v) => Ok(v),
            None => Err("unknown variable".to_owned()),
        }
    }
}

} // verus!
