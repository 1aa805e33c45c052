use sqltree::html::{to_html, AsHtml};
use sqltree::node::{
    BindNode, ChooseNode, ContinueNode, ForEachNode, IfNode, NodeType, OtherwiseNode, SetNode,
    SqlNode, StringNode, TrimNode, WhenNode, WhereNode,
};

fn lit(text: &str) -> NodeType {
    NodeType::NString(StringNode::new(text))
}

#[test]
fn string_node_is_backquoted() {
    assert_eq!(lit("select 1").as_html(), "`select 1`");
}

#[test]
fn string_node_already_backquoted_stays() {
    assert_eq!(lit("`select 1`").as_html(), "`select 1`");
}

#[test]
fn if_node_markup() {
    let n = IfNode { test: "a > 0".to_string(), childs: vec![lit("x")] };
    assert_eq!(n.as_html(), "<if test=\"a > 0\">`x`</if>");
}

#[test]
fn trim_node_markup() {
    let n = TrimNode { trim: ",".to_string(), childs: vec![lit("x")] };
    assert_eq!(n.as_html(), "<trim prefixOverrides=\",\" suffixOverrides=\",\">`x`</trim>");
}

#[test]
fn foreach_node_markup() {
    let n = ForEachNode {
        collection: "ids".to_string(),
        index: "i".to_string(),
        item: "it".to_string(),
        open_text: "(".to_string(),
        close_text: ")".to_string(),
        separator: ",".to_string(),
        childs: vec![lit("#{it}")],
    };
    assert_eq!(
        n.as_html(),
        "<foreach collection=\"ids\" index=\"i\" item=\"it\" >`#{it}`</foreach>"
    );
}

#[test]
fn choose_node_markup() {
    let n = ChooseNode {
        when_nodes: vec![NodeType::NWhen(WhenNode {
            test: "a".to_string(),
            childs: vec![lit("x")],
        })],
        otherwise_node: Some(Box::new(NodeType::NOtherwise(OtherwiseNode {
            childs: vec![lit("y")],
        }))),
    };
    assert_eq!(
        n.as_html(),
        "<choose><when test=\"a\">`x`</when><otherwise>`y`</otherwise></choose>"
    );
}

#[test]
fn bind_set_where_sql_continue_markup() {
    let b = BindNode { name: "n".to_string(), value: "v".to_string() };
    assert_eq!(b.as_html(), "<bind name=\"n\" value=\"v\"/>");
    let s = SetNode { childs: vec![lit("x")] };
    assert_eq!(s.as_html(), "<set>`x`</set>");
    let w = WhereNode { childs: vec![lit("x")] };
    assert_eq!(w.as_html(), "<where>`x`</where>");
    let q = SqlNode { childs: vec![lit("x")] };
    assert_eq!(q.as_html(), "<sql>`x`</sql>");
    let c = ContinueNode {};
    assert_eq!(c.as_html(), "<continue/>");
}

#[test]
fn vec_markup_concatenates_in_order() {
    let ns = vec![lit("a"), lit("b")];
    assert_eq!(ns.as_html(), "`a``b`");
}

#[test]
fn to_html_select_wrapper() {
    let ns = vec![lit("select 1")];
    assert_eq!(
        to_html(&ns, true, "one"),
        "<mapper><select id=\"one\">`select 1`</select></mapper>"
    );
}

#[test]
fn to_html_update_wrapper() {
    let ns = vec![lit("update t set a = 1")];
    assert_eq!(
        to_html(&ns, false, "two"),
        "<mapper><update id=\"two\">`update t set a = 1`</update></mapper>"
    );
}
