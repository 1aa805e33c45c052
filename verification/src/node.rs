//! The syntax tree: one tagged union over every node kind, plus the
//! capabilities evaluation needs (placeholder conversion, expression
//! evaluation) and the error and signal types of the evaluation contract.

use vstd::prelude::*;

use crate::strutil::{pairs_model, spec_dedup, spec_scan, scan_tokens, dedup_tokens};
use crate::value::{Val, Value};

verus! {

/// The placeholder policy: what text marks the bound argument at a
/// zero-based position (`?`, `$1`, ...). It must be a pure function of the
/// position, stateless across calls.
pub trait StringConvert {
    /// The placeholder text for position `i`.
    spec fn spec_convert(&self, i: nat) -> Seq<char>;

    /// Placeholder text for the argument at zero-based `index`.
    fn convert(&self, index: usize) -> (r: String)
        ensures
            r@ == self.spec_convert(index as nat),
    ;
}

/// The expression evaluator the caller supplies: an opaque capability that
/// turns a scalar expression and the current environment into a value or an
/// error message. It must be a pure function of expression and environment.
pub trait ExprEngine {
    /// What the engine answers for `expr` in `env`.
    spec fn spec_eval(&self, expr: Seq<char>, env: Val) -> Result<Val, Seq<char>>;

    /// Evaluates `expr` against `env`.
    fn eval(&self, expr: &str, env: &Value) -> (r: Result<Value, String>)
        ensures
            match r {
                Ok(v) => self.spec_eval(expr@, env@) == Ok::<Val, Seq<char>>(v@),
                Err(m) => self.spec_eval(expr@, env@) == Err::<Val, Seq<char>>(m@),
            },
    ;
}

/// Why an evaluation failed: the expression sub-evaluator failed, or a
/// node's structural expectation was not met.
#[derive(Debug, PartialEq)]
pub enum EvalError {
    Expr(String),
    Structure(String),
}

/// The mathematical shape of an evaluation error.
pub enum SpecErr {
    Expr(Seq<char>),
    Structure(Seq<char>),
}

impl View for EvalError {
    type V = SpecErr;

    open spec fn view(&self) -> SpecErr {
        match self {
            EvalError::Expr(m) => SpecErr::Expr(m@),
            EvalError::Structure(m) => SpecErr::Structure(m@),
        }
    }
}

/// What evaluating a node hands back on success: an ordinary value, or the
/// loop-continuation signal that only an enclosing iteration interprets.
#[derive(Debug, PartialEq)]
pub enum Signal {
    Value(Value),
    LoopNext,
}

/// The mathematical shape of a signal.
pub enum SpecSig {
    Value(Val),
    LoopNext,
}

impl View for Signal {
    type V = SpecSig;

    open spec fn view(&self) -> SpecSig {
        match self {
            Signal::Value(v) => SpecSig::Value(v@),
            Signal::LoopNext => SpecSig::LoopNext,
        }
    }
}

/// A literal text node: raw template text plus the deduplicated,
/// insertion-ordered binding tokens found in it, each as
/// (inner expression, whole token).
pub struct StringNode {
    pub value: String,
    pub express_map: Vec<(String, String)>,
}

impl StringNode {
    /// Every token of the map is non-empty: evaluation replaces tokens and
    /// an empty token never arises from scanning.
    pub open spec fn wf(&self) -> bool {
        forall|k: int|
            0 <= k < self.express_map@.len() ==> (#[trigger] self.express_map@[k]).1@.len() >= 1
    }

    /// Builds a literal node: scans `v` for `#{...}` and `${...}` tokens and
    /// keeps the first occurrence of each distinct token, in order.
    pub fn new(v: &str) -> (r: StringNode)
        ensures
            r.value@ == v@,
            pairs_model(r.express_map@) == spec_dedup(spec_scan(v@, 0)),
            r.wf(),
    {
        let raw = scan_tokens(v);
        proof {
            crate::strutil::lemma_scan_token_len(v@, 0);
            crate::strutil::lemma_dedup_elems(pairs_model(raw@));
        }
        let express_map = dedup_tokens(raw);
        proof {
            let rm = pairs_model(raw@);
            let em = pairs_model(express_map@);
            assert forall|k: int|
                0 <= k < express_map@.len() implies (#[trigger] express_map@[k]).1@.len() >= 1 by {
                assert(em[k] == spec_dedup(rm)[k]);
                let j = choose|j: int| 0 <= j < rm.len() && rm[j] == #[trigger] spec_dedup(rm)[k];
                assert(rm[j] == spec_scan(v@, 0)[j]);
                assert(spec_scan(v@, 0)[j].1.len() >= 3);
                assert(express_map@[k].1@ == em[k].1);
            }
        }
        StringNode { value: v.to_owned(), express_map }
    }
}

/// Conditional inclusion: children evaluate only when the test is truthy.
pub struct IfNode {
    pub test: String,
    pub childs: Vec<NodeType>,
}

/// Prefix/suffix trimming: the `trim` field lists overrides separated by
/// `|`; one leading and one trailing occurrence are stripped.
pub struct TrimNode {
    pub trim: String,
    pub childs: Vec<NodeType>,
}

/// Iteration over a collection expression, binding per-element item and
/// index names, joining outputs with a separator and wrapping a non-empty
/// collection's output in open/close text.
pub struct ForEachNode {
    pub collection: String,
    pub index: String,
    pub item: String,
    pub open_text: String,
    pub close_text: String,
    pub separator: String,
    pub childs: Vec<NodeType>,
}

/// Multi-branch choice: the first branch whose test is truthy wins, else
/// the default branch if present.
pub struct ChooseNode {
    pub when_nodes: Vec<NodeType>,
    pub otherwise_node: Option<Box<NodeType>>,
}

/// The default branch of a choice.
pub struct OtherwiseNode {
    pub childs: Vec<NodeType>,
}

/// One tested branch of a choice.
pub struct WhenNode {
    pub test: String,
    pub childs: Vec<NodeType>,
}

/// Local variable binding: assigns the value of an expression under a name
/// into the environment for the remainder of the enclosing scope.
pub struct BindNode {
    pub name: String,
    pub value: String,
}

/// `SET` clause cleanup: strips a trailing comma and prefixes `SET `.
pub struct SetNode {
    pub childs: Vec<NodeType>,
}

/// `WHERE` clause cleanup: strips a leading boolean joiner and prefixes
/// `WHERE `.
pub struct WhereNode {
    pub childs: Vec<NodeType>,
}

/// Loop continuation: skips the rest of the enclosing iteration's body.
pub struct ContinueNode {}

/// A named, reusable fragment: evaluating it evaluates its children in
/// place, with no extra scoping.
pub struct SqlNode {
    pub childs: Vec<NodeType>,
}

/// The syntax tree enum types.
pub enum NodeType {
    NString(StringNode),
    NIf(IfNode),
    NTrim(TrimNode),
    NForEach(ForEachNode),
    NChoose(ChooseNode),
    NOtherwise(OtherwiseNode),
    NWhen(WhenNode),
    NBind(BindNode),
    NSet(SetNode),
    NWhere(WhereNode),
    NContinue(ContinueNode),
    NSql(SqlNode),
}

/// The node name.
pub trait Name {
    fn name() -> &'static str;
}

/// Node default name.
pub trait DefaultName {
    fn default_name() -> &'static str;
}

} // verus!
