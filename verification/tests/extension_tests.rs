use sqltree::engine::{EnvLookupEngine, QuestionConvert};
use sqltree::node::{EvalError, NodeType};
use sqltree::proxy::{build_custom_node, EchoFactory, EchoNode, NodeFactory, ProxyNode};
use sqltree::value::Value;

/// A factory claiming expressions that start with its tag and producing an
/// echo node that records which factory built it.
struct TagFactory {
    tag: &'static str,
    label: &'static str,
}

impl NodeFactory<EchoNode> for TagFactory {
    fn spec_claims(&self, _express: vstd::seq::Seq<char>) -> bool {
        panic!()
    }

    fn spec_fails(&self, _express: vstd::seq::Seq<char>) -> bool {
        panic!()
    }

    fn try_new(
        &self,
        express: &str,
        _child_nodes: &Vec<NodeType>,
    ) -> Result<Option<ProxyNode<EchoNode>>, EvalError> {
        if express.starts_with(self.tag) {
            Ok(Some(ProxyNode::from(
                EchoNode { text: self.label.to_string() },
                Vec::new(),
            )))
        } else {
            Ok(None)
        }
    }
}

fn eval_proxy(p: &ProxyNode<EchoNode>) -> String {
    let mut env = Value::Obj(vec![]);
    let mut args: Vec<Value> = Vec::new();
    let mut sql = String::new();
    p.eval(&QuestionConvert {}, &mut env, &EnvLookupEngine {}, &mut args, &mut sql)
        .unwrap();
    sql
}

#[test]
fn first_non_declining_factory_wins() {
    let factories = vec![
        TagFactory { tag: "a:", label: "first" },
        TagFactory { tag: "a", label: "second" },
    ];
    let childs: Vec<NodeType> = Vec::new();
    // both factories claim "a:x"; the first registered wins
    let node = build_custom_node(&factories, "a:x", &childs).unwrap();
    assert_eq!(eval_proxy(&node), "first");
    // only the second claims "ab"
    let node = build_custom_node(&factories, "ab", &childs).unwrap();
    assert_eq!(eval_proxy(&node), "second");
}

#[test]
fn all_factories_declining_is_structural_error() {
    let factories = vec![
        TagFactory { tag: "a:", label: "first" },
        TagFactory { tag: "b:", label: "second" },
    ];
    let childs: Vec<NodeType> = Vec::new();
    let r = build_custom_node(&factories, "c:x", &childs);
    assert!(matches!(r, Err(EvalError::Structure(_))));
}

#[test]
fn echo_factory_claims_its_prefix() {
    let factories = vec![EchoFactory {}];
    let childs: Vec<NodeType> = Vec::new();
    let node = build_custom_node(&factories, "echo:hello", &childs).unwrap();
    assert_eq!(eval_proxy(&node), "hello");
    assert!(build_custom_node(&factories, "other", &childs).is_err());
}
