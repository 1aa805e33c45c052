use rexpr::runtime::RExprRuntime;
use sqltree::engine::QuestionConvert;
use sqltree::eval::eval_tree;
use sqltree::node::{ExprEngine, ForEachNode, IfNode, NodeType, StringNode};
use sqltree::value::Value;

/// The real expression sub-evaluator behind the engine capability:
/// environments and results convert between the library's values and
/// serde_json's.
struct RexprEngine {
    runtime: RExprRuntime,
}

fn to_json(v: &Value) -> serde_json::Value {
    match v {
        Value::Null => serde_json::Value::Null,
        Value::Bool(b) => serde_json::Value::Bool(*b),
        Value::Int(i) => serde_json::Value::Number((*i).into()),
        Value::Str(s) => serde_json::Value::String(s.clone()),
        Value::Arr(items) => serde_json::Value::Array(items.iter().map(to_json).collect()),
        Value::Obj(fields) => {
            serde_json::Value::Object(fields.iter().map(|(k, v)| (k.clone(), to_json(v))).collect())
        }
    }
}

fn from_json(v: &serde_json::Value) -> Value {
    match v {
        serde_json::Value::Null => Value::Null,
        serde_json::Value::Bool(b) => Value::Bool(*b),
        serde_json::Value::Number(n) => match n.as_i64() {
            Some(i) => Value::Int(i),
            None => Value::Str(n.to_string()),
        },
        serde_json::Value::String(s) => Value::Str(s.clone()),
        serde_json::Value::Array(items) => Value::Arr(items.iter().map(from_json).collect()),
        serde_json::Value::Object(fields) => {
            Value::Obj(fields.iter().map(|(k, v)| (k.clone(), from_json(v))).collect())
        }
    }
}

impl ExprEngine for RexprEngine {
    fn spec_eval(
        &self,
        _expr: vstd::seq::Seq<char>,
        _env: sqltree::value::Val,
    ) -> Result<sqltree::value::Val, vstd::seq::Seq<char>> {
        panic!()
    }

    fn eval(&self, expr: &str, env: &Value) -> Result<Value, String> {
        match self.runtime.eval(expr, &to_json(env)) {
            Ok(v) => Ok(from_json(&v)),
            Err(e) => Err(e.to_string()),
        }
    }
}

fn run(nodes: &Vec<NodeType>, env: &mut Value) -> (Vec<Value>, String) {
    let engine = RexprEngine { runtime: RExprRuntime::new() };
    let mut args: Vec<Value> = Vec::new();
    let mut sql = String::new();
    eval_tree(nodes, &QuestionConvert {}, env, &engine, &mut args, &mut sql).unwrap();
    (args, sql)
}

#[test]
fn rexpr_decides_a_conditional() {
    let nodes = vec![NodeType::NIf(IfNode {
        test: "a > 1".to_string(),
        childs: vec![NodeType::NString(StringNode::new("and a = #{a}"))],
    })];
    let mut env = Value::Obj(vec![("a".to_string(), Value::Int(3))]);
    let (args, sql) = run(&nodes, &mut env);
    assert_eq!(sql, "and a = ?");
    assert_eq!(args, vec![Value::Int(3)]);
}

#[test]
fn rexpr_drives_an_iteration() {
    let nodes = vec![NodeType::NForEach(ForEachNode {
        collection: "ids".to_string(),
        index: "idx".to_string(),
        item: "it".to_string(),
        open_text: "(".to_string(),
        close_text: ")".to_string(),
        separator: ",".to_string(),
        childs: vec![NodeType::NString(StringNode::new("#{it}"))],
    })];
    let mut env = Value::Obj(vec![(
        "ids".to_string(),
        Value::Arr(vec![Value::Int(1), Value::Int(2), Value::Int(3)]),
    )]);
    let (args, sql) = run(&nodes, &mut env);
    assert_eq!(sql, "(?,?,?)");
    assert_eq!(args, vec![Value::Int(1), Value::Int(2), Value::Int(3)]);
}
