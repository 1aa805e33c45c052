//! The extensibility mechanism: a caller-supplied node kind wrapped so the
//! tree can embed custom logic, and the factory interface tree construction
//! uses to offer an expression to the installed factories in order.

use vstd::prelude::*;

use std::sync::Arc;

use crate::eval::{eval_matches, SpecOut};
use crate::node::{EvalError, ExprEngine, NodeType, Signal, SpecErr, SpecSig, StringConvert};
use crate::strutil::{occurs_at, starts_with};
use crate::value::{Val, Value};

verus! {

/// The evaluation contract a custom node implements: the same shape as the
/// built-in kinds, against a spec-level meaning the implementation chooses.
pub trait RbatisAST<C: StringConvert, E: ExprEngine>: Sized {
    /// What evaluating this node amounts to.
    spec fn spec_eval_ast(&self, c: C, e: E, env: Val, pos: nat) -> Result<SpecOut, SpecErr>;

    /// The node kind's name.
    fn name() -> &'static str;

    /// Evaluates this node.
    fn eval(
        &self,
        convert: &C,
        env: &mut Value,
        engine: &E,
        arg_array: &mut Vec<Value>,
        arg_sql: &mut String,
    ) -> (r: Result<Signal, EvalError>)
        ensures
            eval_matches(
                r,
                self.spec_eval_ast(*convert, *engine, old(env)@, old(arg_array)@.len() as nat),
                final(env)@,
                old(arg_array)@,
                final(arg_array)@,
                old(arg_sql)@,
                final(arg_sql)@,
            ),
    ;
}

/// A custom node in the tree: already-built children plus a shared,
/// reference-counted handle to the caller's node instance. Many trees may
/// hold the same instance; it lives as long as its longest-lived holder.
pub struct ProxyNode<X> {
    pub childs: Vec<NodeType>,
    pub ptr: Arc<X>,
}

impl<X> ProxyNode<X> {
    /// The wrapped instance.
    pub open spec fn spec_body(&self) -> X {
        *self.ptr
    }

    /// Wraps a custom node instance with its children.
    pub fn from(body: X, childs: Vec<NodeType>) -> (r: ProxyNode<X>)
        ensures
            r.spec_body() == body,
            r.childs == childs,
    {
        ProxyNode { childs, ptr: Arc::new(body) }
    }

    /// Evaluates the wrapper: delegates to the wrapped instance's own eval.
    pub fn eval<C: StringConvert, E: ExprEngine>(
        &self,
        convert: &C,
        env: &mut Value,
        engine: &E,
        arg_array: &mut Vec<Value>,
        arg_sql: &mut String,
    ) -> (r: Result<Signal, EvalError>) where X: RbatisAST<C, E>
        ensures
            eval_matches(
                r,
                self.spec_body().spec_eval_ast(
                    *convert,
                    *engine,
                    old(env)@,
                    old(arg_array)@.len() as nat,
                ),
                final(env)@,
                old(arg_array)@,
                final(arg_array)@,
                old(arg_sql)@,
                final(arg_sql)@,
            ),
    {
        let body: &X = &*self.ptr;
        body.eval(convert, env, engine, arg_array, arg_sql)
    }
}

/// A custom node generator: offered an expression and the already-built
/// children, it either claims the expression (producing a node or an
/// error), or declines so other factories and built-in kinds can be tried.
pub trait NodeFactory<X>: Sized {
    /// Whether this factory claims the expression.
    spec fn spec_claims(&self, express: Seq<char>) -> bool;

    /// Whether a claimed expression fails construction.
    spec fn spec_fails(&self, express: Seq<char>) -> bool;

    /// Offers the expression: `Ok(None)` declines it, `Ok(Some(..))` claims
    /// and builds, `Err(..)` claims and rejects with a reason.
    fn try_new(&self, express: &str, child_nodes: &Vec<NodeType>) -> (r: Result<
        Option<ProxyNode<X>>,
        EvalError,
    >)
        ensures
            r is Err ==> self.spec_claims(express@) && self.spec_fails(express@),
            r matches Ok(o) && o is Some ==> self.spec_claims(express@) && !self.spec_fails(
                express@,
            ),
            r matches Ok(o) && o is None ==> !self.spec_claims(express@),
    ;
}

/// Tries the installed factories in registration order: the first factory
/// that does not decline wins, and its outcome (a node or its rejection) is
/// the result; when every factory declines, tree construction fails with a
/// structural error.
pub fn build_custom_node<X, F: NodeFactory<X>>(
    factories: &Vec<F>,
    express: &str,
    child_nodes: &Vec<NodeType>,
) -> (r: Result<ProxyNode<X>, EvalError>)
    ensures
        match r {
            Ok(p) => exists|k: int|
                0 <= k < factories@.len() && (#[trigger] factories@[k]).spec_claims(express@)
                    && !factories@[k].spec_fails(express@) && (forall|j: int|
                    0 <= j < k ==> !(#[trigger] factories@[j]).spec_claims(express@)),
            Err(e) => (exists|k: int|
                0 <= k < factories@.len() && (#[trigger] factories@[k]).spec_claims(express@)
                    && factories@[k].spec_fails(express@) && (forall|j: int|
                    0 <= j < k ==> !(#[trigger] factories@[j]).spec_claims(express@))) || ((
            forall|j: int|
                0 <= j < factories@.len() ==> !(#[trigger] factories@[j]).spec_claims(express@))
                && e@ == SpecErr::Structure("no factory claims this expression"@)),
        },
{
    let mut k: usize = 0;
    #[verifier::loop_isolation(false)]
    while k < factories.len()
        invariant
            k <= factories@.len(),
            forall|j: int| 0 <= j < k ==> !(#[trigger] factories@[j]).spec_claims(express@),
        decreases factories@.len() - k,
    {
        match factories[k].try_new(express, child_nodes) {
            Ok(Some(node)) => {
                return Ok(node);
            },
            Ok(None) => {},
            Err(e) => {
                return Err(e);
            },
        }
        k = k + 1;
    }
    Err(EvalError::Structure("no factory claims this expression".to_owned()))
}

/// A ready-made custom node: appends its fixed text to the SQL buffer and
/// touches nothing else.
pub struct EchoNode {
    pub text: String,
}

impl<C: StringConvert, E: ExprEngine> RbatisAST<C, E> for EchoNode {
    open spec fn spec_eval_ast(&self, c: C, e: E, env: Val, pos: nat) -> Result<SpecOut, SpecErr> {
        Ok(
            SpecOut {
                sig: SpecSig::Value(Val::Null),
                env,
                args: Seq::empty(),
                sql: self.text@,
            },
        )
    }

    fn name() -> &'static str {
        "echo"
    }

    fn eval(
        &self,
        convert: &C,
        env: &mut Value,
        engine: &E,
        arg_array: &mut Vec<Value>,
        arg_sql: &mut String,
    ) -> (r: Result<Signal, EvalError>) {
        arg_sql.append(self.text.as_str());
        proof {
            assert(crate::value::vals_model(final(arg_array)@) =~= crate::value::vals_model(
                old(arg_array)@,
            ) + Seq::<Val>::empty());
        }
        Ok(Signal::Value(Value::Null))
    }
}

/// A ready-made factory: claims expressions that start with `echo:` and
/// builds an echo node carrying the rest of the expression.
pub struct EchoFactory {}

impl NodeFactory<EchoNode> for EchoFactory {
    open spec fn spec_claims(&self, express: Seq<char>) -> bool {
        occurs_at(express, "echo:"@, 0)
    }

    open spec fn spec_fails(&self, express: Seq<char>) -> bool {
        false
    }

    fn try_new(&self, express: &str, child_nodes: &Vec<NodeType>) -> (r: Result<
        Option<ProxyNode<EchoNode>>,
        EvalError,
    >) {
        if starts_with(express, "echo:") {
            proof {
                reveal_strlit("echo:");
            }
            let rest = express.substring_char(5, express.unicode_len());
            let node = EchoNode { text: rest.to_owned() };
            Ok(Some(ProxyNode::from(node, Vec::new())))
        } else {
            Ok(None)
        }
    }
}

} // verus!
