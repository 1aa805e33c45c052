use sqltree::delete::{LogicDeleteNode, Rbatis, ResultMapNode};
use sqltree::pysql::{filter_args_context_id, py_sql_call_kind, CallKind};
use sqltree::text::canonical_text;
use sqltree::value::Value;

fn map_node(table: Option<&str>) -> ResultMapNode {
    ResultMapNode { table: table.map(|t| t.to_string()), delete_node: None }
}

fn rb_with(table: Option<&str>) -> Rbatis {
    let mut rb = Rbatis::new();
    rb.load_result_map("Example_ActivityMapper.xml", "BaseResultMap", map_node(table));
    rb
}

#[test]
fn delete_by_id_builds_statement() {
    let mut rb = rb_with(Some("biz_activity"));
    let sql = rb
        .delete("Example_ActivityMapper.xml", "BaseResultMap", &Value::Str("1".to_string()))
        .unwrap();
    assert_eq!(sql, "DELETE FROM biz_activity  where id = '1'");
}

#[test]
fn delete_unknown_mapper_is_rejected() {
    let mut rb = Rbatis::new();
    let r = rb.delete("nope", "BaseResultMap", &Value::Int(1));
    assert_eq!(r.unwrap_err(), "[rbatis] result_map_node not found");
}

#[test]
fn delete_by_ids_builds_in_list() {
    let mut rb = rb_with(Some("t"));
    let arg = Value::Arr(vec![Value::Int(1), Value::Int(2), Value::Int(3)]);
    let sql = rb.delete("Example_ActivityMapper.xml", "BaseResultMap", &arg).unwrap();
    assert_eq!(sql, "DELETE FROM t  where id in (1,2,3)");
}

#[test]
fn delete_by_map_builds_conditions() {
    let mut rb = rb_with(Some("t"));
    let arg = Value::Obj(vec![
        ("arg".to_string(), Value::Int(2)),
        ("delete_flag".to_string(), Value::Int(1)),
    ]);
    let sql = rb.delete("Example_ActivityMapper.xml", "BaseResultMap", &arg).unwrap();
    assert_eq!(sql, "DELETE FROM t  where arg = 2 AND delete_flag = 1");
}

#[test]
fn delete_null_arg_is_rejected() {
    let mut rb = rb_with(Some("t"));
    let r = rb.delete("Example_ActivityMapper.xml", "BaseResultMap", &Value::Null);
    assert_eq!(r.unwrap_err(), "[rbatis] arg is null value");
}

#[test]
fn delete_bool_arg_is_unsupported() {
    let mut rb = rb_with(Some("t"));
    let r = rb.delete("Example_ActivityMapper.xml", "BaseResultMap", &Value::Bool(true));
    assert_eq!(r.unwrap_err(), "[rbatis] not support arg type value: true");
}

#[test]
fn delete_without_table_is_rejected() {
    let mut rb = rb_with(None);
    let r = rb.delete("Example_ActivityMapper.xml", "BaseResultMap", &Value::Int(1));
    assert_eq!(r.unwrap_err(), "[rbatis]  can not find table defin in <result_map>!");
}

#[test]
fn logic_delete_becomes_update() {
    let mut rb = Rbatis::new();
    let node = ResultMapNode {
        table: Some("t".to_string()),
        delete_node: Some(LogicDeleteNode {
            column: "delete_flag".to_string(),
            logic_deleted: "1".to_string(),
        }),
    };
    rb.load_result_map("m", "r", node);
    let sql = rb.delete("m", "r", &Value::Int(9)).unwrap();
    assert_eq!(sql, "UPDATE t SET delete_flag = 1 where id = 9");
}

#[test]
fn call_kind_prefers_paged_fetch() {
    assert_eq!(
        py_sql_call_kind(true, "Page < Activity >", "rb : & Rbatis , page : & PageRequest"),
        CallKind::FetchPage
    );
    assert_eq!(py_sql_call_kind(true, "Vec < Activity >", "rb : & Rbatis"), CallKind::Fetch);
    assert_eq!(py_sql_call_kind(false, "u64", "rb : & Rbatis"), CallKind::Exec);
}

#[test]
fn filter_args_skips_executor_and_finds_context() {
    let names = vec![
        "rb".to_string(),
        "ctx_id".to_string(),
        "name".to_string(),
    ];
    let (kept, ctx) = filter_args_context_id("rb", &names);
    assert_eq!(kept, vec!["ctx_id".to_string(), "name".to_string()]);
    assert_eq!(ctx, Some("ctx_id".to_string()));
}

#[test]
fn filter_args_without_context_name() {
    let names = vec!["rb".to_string(), "name".to_string()];
    let (kept, ctx) = filter_args_context_id("rb", &names);
    assert_eq!(kept, vec!["name".to_string()]);
    assert_eq!(ctx, None);
}

#[test]
fn canonical_text_of_values() {
    assert_eq!(canonical_text(&Value::Null), "null");
    assert_eq!(canonical_text(&Value::Bool(true)), "true");
    assert_eq!(canonical_text(&Value::Int(-42)), "-42");
    assert_eq!(canonical_text(&Value::Str("a\"b".to_string())), "\"a\\\"b\"");
    let arr = Value::Arr(vec![Value::Int(1), Value::Str("x".to_string())]);
    assert_eq!(canonical_text(&arr), "[1,\"x\"]");
    let o = Value::Obj(vec![("k".to_string(), Value::Int(1))]);
    assert_eq!(canonical_text(&o), "{\"k\":1}");
}
