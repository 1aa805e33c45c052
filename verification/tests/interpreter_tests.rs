use sqltree::engine::{EnvLookupEngine, QuestionConvert};
use sqltree::eval::eval_tree;
use sqltree::node::{
    BindNode, ChooseNode, ContinueNode, EvalError, ExprEngine, ForEachNode, IfNode, NodeType,
    OtherwiseNode, SetNode, StringNode, TrimNode, WhenNode, WhereNode,
};
use sqltree::value::Value;

fn obj(fields: Vec<(&str, Value)>) -> Value {
    Value::Obj(fields.into_iter().map(|(k, v)| (k.to_string(), v)).collect())
}

fn run(nodes: &Vec<NodeType>, env: &mut Value) -> Result<(Vec<Value>, String), EvalError> {
    let mut args: Vec<Value> = Vec::new();
    let mut sql = String::new();
    eval_tree(nodes, &QuestionConvert {}, env, &EnvLookupEngine {}, &mut args, &mut sql)?;
    Ok((args, sql))
}

/// An engine computing `a + b` over integer environment fields, for tests
/// that need an arithmetic expression; it rejects everything else.
struct PlusEngine;

impl ExprEngine for PlusEngine {
    fn spec_eval(
        &self,
        _expr: vstd::seq::Seq<char>,
        _env: sqltree::value::Val,
    ) -> Result<sqltree::value::Val, vstd::seq::Seq<char>> {
        panic!()
    }

    fn eval(&self, expr: &str, env: &Value) -> Result<Value, String> {
        let parts: Vec<&str> = expr.split(" + ").collect();
        if parts.len() != 2 {
            return Err(format!("unsupported expression: {}", expr));
        }
        let get = |k: &str| -> Result<i64, String> {
            if let Value::Obj(fields) = env {
                for (name, v) in fields {
                    if name == k {
                        if let Value::Int(i) = v {
                            return Ok(*i);
                        }
                    }
                }
            }
            Err(format!("unknown variable: {}", k))
        };
        Ok(Value::Int(get(parts[0])? + get(parts[1])?))
    }
}

#[test]
fn literal_placeholder_and_arg() {
    let nodes = vec![NodeType::NString(StringNode::new("select * from t where id = #{id}"))];
    let mut env = obj(vec![("id", Value::Int(7))]);
    let (args, sql) = run(&nodes, &mut env).unwrap();
    assert_eq!(sql, "select * from t where id = ?");
    assert_eq!(args, vec![Value::Int(7)]);
}

#[test]
fn literal_placeholder_count_matches_args() {
    let nodes = vec![NodeType::NString(StringNode::new("#{a},#{b},#{c}"))];
    let mut env = obj(vec![
        ("a", Value::Int(1)),
        ("b", Value::Int(2)),
        ("c", Value::Int(3)),
    ]);
    let (args, sql) = run(&nodes, &mut env).unwrap();
    assert_eq!(sql, "?,?,?");
    assert_eq!(args, vec![Value::Int(1), Value::Int(2), Value::Int(3)]);
}

#[test]
fn literal_text_splice_is_verbatim_for_strings() {
    let nodes = vec![NodeType::NString(StringNode::new("order by ${col}"))];
    let mut env = obj(vec![("col", Value::Str("name".to_string()))]);
    let (args, sql) = run(&nodes, &mut env).unwrap();
    assert_eq!(sql, "order by name");
    assert_eq!(args.len(), 0);
}

#[test]
fn literal_text_splice_renders_non_strings() {
    let nodes = vec![NodeType::NString(StringNode::new("limit ${n}"))];
    let mut env = obj(vec![("n", Value::Int(10))]);
    let (_, sql) = run(&nodes, &mut env).unwrap();
    assert_eq!(sql, "limit 10");
}

#[test]
fn literal_missing_key_is_expression_error() {
    let nodes = vec![NodeType::NString(StringNode::new("id = #{missing}"))];
    let mut env = obj(vec![]);
    let r = run(&nodes, &mut env);
    assert!(matches!(r, Err(EvalError::Expr(_))));
}

#[test]
fn conditional_truthy_includes_children_once() {
    let nodes = vec![NodeType::NIf(IfNode {
        test: "flag".to_string(),
        childs: vec![NodeType::NString(StringNode::new("and x = #{x}"))],
    })];
    let mut env = obj(vec![("flag", Value::Bool(true)), ("x", Value::Int(1))]);
    let (args, sql) = run(&nodes, &mut env).unwrap();
    assert_eq!(sql, "and x = ?");
    assert_eq!(args, vec![Value::Int(1)]);
}

#[test]
fn conditional_falsy_contributes_nothing() {
    let nodes = vec![NodeType::NIf(IfNode {
        test: "flag".to_string(),
        childs: vec![NodeType::NString(StringNode::new("and x = #{x}"))],
    })];
    let mut env = obj(vec![("flag", Value::Bool(false)), ("x", Value::Int(1))]);
    let (args, sql) = run(&nodes, &mut env).unwrap();
    assert_eq!(sql, "");
    assert_eq!(args.len(), 0);
}

#[test]
fn where_strips_leading_and_and_prefixes_where() {
    let nodes = vec![NodeType::NWhere(WhereNode {
        childs: vec![NodeType::NString(StringNode::new("AND a = #{a}"))],
    })];
    let mut env = obj(vec![("a", Value::Int(5))]);
    let (args, sql) = run(&nodes, &mut env).unwrap();
    assert_eq!(sql, "WHERE a = ?");
    assert_eq!(args, vec![Value::Int(5)]);
}

#[test]
fn where_empty_children_yield_nothing() {
    let nodes = vec![NodeType::NWhere(WhereNode {
        childs: vec![NodeType::NString(StringNode::new(""))],
    })];
    let mut env = obj(vec![]);
    let (args, sql) = run(&nodes, &mut env).unwrap();
    assert_eq!(sql, "");
    assert_eq!(args.len(), 0);
}

#[test]
fn where_strips_leading_or_case_insensitive() {
    let nodes = vec![NodeType::NWhere(WhereNode {
        childs: vec![NodeType::NString(StringNode::new("  or b = 1"))],
    })];
    let mut env = obj(vec![]);
    let (_, sql) = run(&nodes, &mut env).unwrap();
    assert_eq!(sql, "WHERE b = 1");
}

#[test]
fn set_strips_trailing_comma() {
    let nodes = vec![NodeType::NSet(SetNode {
        childs: vec![NodeType::NString(StringNode::new("a = #{a},"))],
    })];
    let mut env = obj(vec![("a", Value::Int(2))]);
    let (args, sql) = run(&nodes, &mut env).unwrap();
    assert_eq!(sql, "SET a = ?");
    assert_eq!(args, vec![Value::Int(2)]);
}

#[test]
fn trim_strips_configured_overrides() {
    let nodes = vec![NodeType::NTrim(TrimNode {
        trim: "(|)".to_string(),
        childs: vec![NodeType::NString(StringNode::new("(a = 1)"))],
    })];
    let mut env = obj(vec![]);
    let (_, sql) = run(&nodes, &mut env).unwrap();
    assert_eq!(sql, "a = 1");
}

#[test]
fn foreach_joins_and_wraps() {
    let nodes = vec![NodeType::NForEach(ForEachNode {
        collection: "ids".to_string(),
        index: "idx".to_string(),
        item: "it".to_string(),
        open_text: "(".to_string(),
        close_text: ")".to_string(),
        separator: ",".to_string(),
        childs: vec![NodeType::NString(StringNode::new("#{it}"))],
    })];
    let mut env = obj(vec![(
        "ids",
        Value::Arr(vec![Value::Int(1), Value::Int(2), Value::Int(3)]),
    )]);
    let (args, sql) = run(&nodes, &mut env).unwrap();
    assert_eq!(sql, "(?,?,?)");
    assert_eq!(args, vec![Value::Int(1), Value::Int(2), Value::Int(3)]);
}

#[test]
fn foreach_empty_collection_contributes_nothing() {
    let nodes = vec![NodeType::NForEach(ForEachNode {
        collection: "ids".to_string(),
        index: "idx".to_string(),
        item: "it".to_string(),
        open_text: "(".to_string(),
        close_text: ")".to_string(),
        separator: ",".to_string(),
        childs: vec![NodeType::NString(StringNode::new("#{it}"))],
    })];
    let mut env = obj(vec![("ids", Value::Arr(vec![]))]);
    let (args, sql) = run(&nodes, &mut env).unwrap();
    assert_eq!(sql, "");
    assert_eq!(args.len(), 0);
}

#[test]
fn foreach_item_binding_does_not_leak() {
    let nodes = vec![
        NodeType::NForEach(ForEachNode {
            collection: "ids".to_string(),
            index: "idx".to_string(),
            item: "it".to_string(),
            open_text: String::new(),
            close_text: String::new(),
            separator: String::new(),
            childs: vec![NodeType::NString(StringNode::new("#{it}"))],
        }),
    ];
    let mut env = obj(vec![("ids", Value::Arr(vec![Value::Int(1)]))]);
    run(&nodes, &mut env).unwrap();
    // after the loop, the per-iteration bindings are gone
    assert_eq!(env, obj(vec![("ids", Value::Arr(vec![Value::Int(1)]))]));
}

#[test]
fn foreach_continue_skips_iteration_output() {
    // children: a literal, then a conditional continue when idx is 1
    let nodes = vec![NodeType::NForEach(ForEachNode {
        collection: "ids".to_string(),
        index: "idx".to_string(),
        item: "it".to_string(),
        open_text: "[".to_string(),
        close_text: "]".to_string(),
        separator: ",".to_string(),
        childs: vec![
            NodeType::NContinue(ContinueNode {}),
        ],
    })];
    let mut env = obj(vec![(
        "ids",
        Value::Arr(vec![Value::Int(1), Value::Int(2)]),
    )]);
    let (args, sql) = run(&nodes, &mut env).unwrap();
    // every iteration is skipped; the collection is non-empty so the
    // wrapping text still appears around the empty join
    assert_eq!(sql, "[]");
    assert_eq!(args.len(), 0);
}

#[test]
fn continue_outside_foreach_is_error() {
    let nodes = vec![NodeType::NContinue(ContinueNode {})];
    let mut env = obj(vec![]);
    let r = run(&nodes, &mut env);
    assert!(matches!(r, Err(EvalError::Structure(_))));
}

#[test]
fn choose_takes_first_truthy_branch() {
    let nodes = vec![NodeType::NChoose(ChooseNode {
        when_nodes: vec![
            NodeType::NWhen(WhenNode {
                test: "a".to_string(),
                childs: vec![NodeType::NString(StringNode::new("first"))],
            }),
            NodeType::NWhen(WhenNode {
                test: "b".to_string(),
                childs: vec![NodeType::NString(StringNode::new("second"))],
            }),
        ],
        otherwise_node: None,
    })];
    let mut env = obj(vec![("a", Value::Bool(false)), ("b", Value::Bool(true))]);
    let (_, sql) = run(&nodes, &mut env).unwrap();
    assert_eq!(sql, "second");
}

#[test]
fn choose_falls_back_to_otherwise() {
    let nodes = vec![NodeType::NChoose(ChooseNode {
        when_nodes: vec![NodeType::NWhen(WhenNode {
            test: "a".to_string(),
            childs: vec![NodeType::NString(StringNode::new("first"))],
        })],
        otherwise_node: Some(Box::new(NodeType::NOtherwise(OtherwiseNode {
            childs: vec![NodeType::NString(StringNode::new("fallback"))],
        }))),
    })];
    let mut env = obj(vec![("a", Value::Bool(false))]);
    let (_, sql) = run(&nodes, &mut env).unwrap();
    assert_eq!(sql, "fallback");
}

#[test]
fn choose_no_match_no_otherwise_contributes_nothing() {
    let nodes = vec![NodeType::NChoose(ChooseNode {
        when_nodes: vec![NodeType::NWhen(WhenNode {
            test: "a".to_string(),
            childs: vec![NodeType::NString(StringNode::new("first"))],
        })],
        otherwise_node: None,
    })];
    let mut env = obj(vec![("a", Value::Bool(false))]);
    let (_, sql) = run(&nodes, &mut env).unwrap();
    assert_eq!(sql, "");
}

#[test]
fn bind_value_visible_to_following_literal() {
    let nodes = vec![
        NodeType::NBind(BindNode {
            name: "total".to_string(),
            value: "a + b".to_string(),
        }),
        NodeType::NString(StringNode::new("v = #{total}")),
    ];
    let mut env = obj(vec![("a", Value::Int(2)), ("b", Value::Int(40))]);
    let mut args: Vec<Value> = Vec::new();
    let mut sql = String::new();
    // PlusEngine only understands `a + b`: if the literal node re-evaluated
    // `total` as an expression instead of reading the bound value, the call
    // would fail with an expression error.
    eval_tree(&nodes, &QuestionConvert {}, &mut env, &PlusEngine, &mut args, &mut sql).unwrap();
    assert_eq!(sql, "v = ?");
    assert_eq!(args, vec![Value::Int(42)]);
}

/// An engine answering every expression with the integer one.
struct OneEngine;

impl ExprEngine for OneEngine {
    fn spec_eval(
        &self,
        _expr: vstd::seq::Seq<char>,
        _env: sqltree::value::Val,
    ) -> Result<sqltree::value::Val, vstd::seq::Seq<char>> {
        panic!()
    }

    fn eval(&self, _expr: &str, _env: &Value) -> Result<Value, String> {
        Ok(Value::Int(1))
    }
}

#[test]
fn bind_on_non_object_environment_is_error() {
    let nodes = vec![NodeType::NBind(BindNode {
        name: "x".to_string(),
        value: "a + b".to_string(),
    })];
    let mut env = Value::Int(1);
    let mut args: Vec<Value> = Vec::new();
    let mut sql = String::new();
    let r = eval_tree(&nodes, &QuestionConvert {}, &mut env, &OneEngine, &mut args, &mut sql);
    assert!(matches!(r, Err(EvalError::Structure(_))));
}

#[test]
fn foreach_non_collection_is_error() {
    let nodes = vec![NodeType::NForEach(ForEachNode {
        collection: "ids".to_string(),
        index: "idx".to_string(),
        item: "it".to_string(),
        open_text: String::new(),
        close_text: String::new(),
        separator: String::new(),
        childs: vec![],
    })];
    let mut env = obj(vec![("ids", Value::Int(3))]);
    let r = run(&nodes, &mut env);
    assert!(matches!(r, Err(EvalError::Structure(_))));
}

#[test]
fn foreach_iterates_object_fields_by_key() {
    let nodes = vec![NodeType::NForEach(ForEachNode {
        collection: "m".to_string(),
        index: "k".to_string(),
        item: "v".to_string(),
        open_text: String::new(),
        close_text: String::new(),
        separator: ";".to_string(),
        childs: vec![NodeType::NString(StringNode::new("${k}=#{v}"))],
    })];
    let mut env = obj(vec![(
        "m",
        obj(vec![("x", Value::Int(1)), ("y", Value::Int(2))]),
    )]);
    let (args, sql) = run(&nodes, &mut env).unwrap();
    assert_eq!(sql, "x=?;y=?");
    assert_eq!(args, vec![Value::Int(1), Value::Int(2)]);
}

#[test]
fn same_key_as_binding_and_splice_keeps_both_tokens_in_order() {
    // the deduplicated token walk is keyed by the whole token, so the same
    // binding key may appear once as a value-binding and once as a splice;
    // first-occurrence order decides the walk
    let nodes = vec![NodeType::NString(StringNode::new("#{k} ${k}"))];
    let mut env = obj(vec![("k", Value::Int(3))]);
    let (args, sql) = run(&nodes, &mut env).unwrap();
    assert_eq!(sql, "? 3");
    assert_eq!(args, vec![Value::Int(3)]);
}

#[test]
fn duplicate_tokens_are_walked_once() {
    // `#{k}` appears twice: one walk step replaces both occurrences with
    // the same placeholder position and appends one argument
    let nodes = vec![NodeType::NString(StringNode::new("#{k} = #{k}"))];
    let mut env = obj(vec![("k", Value::Int(5))]);
    let (args, sql) = run(&nodes, &mut env).unwrap();
    assert_eq!(sql, "? = ?");
    assert_eq!(args, vec![Value::Int(5)]);
}

#[test]
fn continue_under_conditional_propagates_to_foreach() {
    // the conditional passes the loop-continuation signal upward; the
    // enclosing iteration drops the odd items' output
    let nodes = vec![NodeType::NForEach(ForEachNode {
        collection: "ids".to_string(),
        index: "idx".to_string(),
        item: "it".to_string(),
        open_text: String::new(),
        close_text: String::new(),
        separator: ",".to_string(),
        childs: vec![
            NodeType::NIf(IfNode {
                test: "skip".to_string(),
                childs: vec![NodeType::NContinue(ContinueNode {})],
            }),
            NodeType::NString(StringNode::new("#{it}")),
        ],
    })];
    let mut env = obj(vec![
        ("ids", Value::Arr(vec![Value::Int(1), Value::Int(2)])),
        ("skip", Value::Bool(true)),
    ]);
    let (args, sql) = run(&nodes, &mut env).unwrap();
    assert_eq!(sql, "");
    assert_eq!(args.len(), 0);
}
