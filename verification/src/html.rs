//! The canonical serializer: renders any node or node sequence into the
//! deterministic tag-based text form used for introspection and for
//! converting a concise-syntax tree into canonical markup.

use vstd::prelude::*;

use crate::node::{
    BindNode, ChooseNode, ContinueNode, ForEachNode, IfNode, Name, NodeType, OtherwiseNode,
    SetNode, SqlNode, StringNode, TrimNode, WhenNode, WhereNode,
};

verus! {

/// Convert syntax tree to HTML deconstruction.
pub trait AsHtml {
    /// The markup this value renders to.
    spec fn spec_html(&self) -> Seq<char>;

    /// Renders this value as canonical markup.
    fn as_html(&self) -> (r: String)
        ensures
            r@ == self.spec_html(),
    ;
}

/// Canonical markup of one node.
pub open spec fn spec_html_node(n: NodeType) -> Seq<char>
    decreases n, 0nat,
{
    match n {
        NodeType::NString(x) => if x.value@.len() >= 1 && x.value@[0] == '`' {
            x.value@
        } else {
            seq!['`'] + x.value@ + seq!['`']
        },
        NodeType::NIf(x) => "<if test=\""@ + x.test@ + "\">"@ + spec_html_nodes(x.childs@)
            + "</if>"@,
        NodeType::NTrim(x) => "<trim prefixOverrides=\""@ + x.trim@ + "\" suffixOverrides=\""@
            + x.trim@ + "\">"@ + spec_html_nodes(x.childs@) + "</trim>"@,
        NodeType::NForEach(x) => "<foreach collection=\""@ + x.collection@ + "\" index=\""@
            + x.index@ + "\" item=\""@ + x.item@ + "\" >"@ + spec_html_nodes(x.childs@)
            + "</foreach>"@,
        NodeType::NChoose(x) => "<choose>"@ + spec_html_nodes(x.when_nodes@) + (
        match x.otherwise_node {
            None => Seq::<char>::empty(),
            Some(b) => spec_html_node(*b),
        }) + "</choose>"@,
        NodeType::NOtherwise(x) => "<otherwise>"@ + spec_html_nodes(x.childs@) + "</otherwise>"@,
        NodeType::NWhen(x) => "<when test=\""@ + x.test@ + "\">"@ + spec_html_nodes(x.childs@)
            + "</when>"@,
        NodeType::NBind(x) => "<bind name=\""@ + x.name@ + "\" value=\""@ + x.value@ + "\"/>"@,
        NodeType::NSet(x) => "<set>"@ + spec_html_nodes(x.childs@) + "</set>"@,
        NodeType::NWhere(x) => "<where>"@ + spec_html_nodes(x.childs@) + "</where>"@,
        NodeType::NContinue(x) => "<continue/>"@,
        NodeType::NSql(x) => "<sql>"@ + spec_html_nodes(x.childs@) + "</sql>"@,
    }
}

/// Canonical markup of a node sequence: each node's markup in order.
pub open spec fn spec_html_nodes(ns: Seq<NodeType>) -> Seq<char>
    decreases ns, 1nat,
{
    if ns.len() == 0 {
        Seq::empty()
    } else {
        spec_html_nodes(ns.drop_last()) + spec_html_node(ns.last())
    }
}

/// Renders one node.
pub fn html_of_node(n: &NodeType) -> (r: String)
    ensures
        r@ == spec_html_node(*n),
    decreases *n, 2nat,
{
    match n {
        NodeType::NString(x) => {
            let len = x.value.as_str().unicode_len();
            if len >= 1 && x.value.as_str().get_char(0) == '`' {
                x.value.clone()
            } else {
                let mut out = "`".to_owned();
                out.append(x.value.as_str());
                out.append("`");
                proof {
                    reveal_strlit("`");
                    assert(out@ =~= spec_html_node(*n));
                }
                out
            }
        },
        NodeType::NIf(x) => {
            let mut out = "<if test=\"".to_owned();
            out.append(x.test.as_str());
            out.append("\">");
            let c = html_of_nodes(&x.childs);
            out.append(c.as_str());
            out.append("</if>");
            out
        },
        NodeType::NTrim(x) => {
            let mut out = "<trim prefixOverrides=\"".to_owned();
            out.append(x.trim.as_str());
            out.append("\" suffixOverrides=\"");
            out.append(x.trim.as_str());
            out.append("\">");
            let c = html_of_nodes(&x.childs);
            out.append(c.as_str());
            out.append("</trim>");
            out
        },
        NodeType::NForEach(x) => {
            let mut out = "<foreach collection=\"".to_owned();
            out.append(x.collection.as_str());
            out.append("\" index=\"");
            out.append(x.index.as_str());
            out.append("\" item=\"");
            out.append(x.item.as_str());
            out.append("\" >");
            let c = html_of_nodes(&x.childs);
            out.append(c.as_str());
            out.append("</foreach>");
            out
        },
        NodeType::NChoose(x) => {
            let mut out = "<choose>".to_owned();
            let c = html_of_nodes(&x.when_nodes);
            out.append(c.as_str());
            match &x.otherwise_node {
                None => {},
                Some(b) => {
                    let o = html_of_node(b);
                    out.append(o.as_str());
                },
            }
            out.append("</choose>");
            proof {
                assert(out@ =~= spec_html_node(*n));
            }
            out
        },
        NodeType::NOtherwise(x) => {
            let mut out = "<otherwise>".to_owned();
            let c = html_of_nodes(&x.childs);
            out.append(c.as_str());
            out.append("</otherwise>");
            out
        },
        NodeType::NWhen(x) => {
            let mut out = "<when test=\"".to_owned();
            out.append(x.test.as_str());
            out.append("\">");
            let c = html_of_nodes(&x.childs);
            out.append(c.as_str());
            out.append("</when>");
            out
        },
        NodeType::NBind(x) => {
            let mut out = "<bind name=\"".to_owned();
            out.append(x.name.as_str());
            out.append("\" value=\"");
            out.append(x.value.as_str());
            out.append("\"/>");
            out
        },
        NodeType::NSet(x) => {
            let mut out = "<set>".to_owned();
            let c = html_of_nodes(&x.childs);
            out.append(c.as_str());
            out.append("</set>");
            out
        },
        NodeType::NWhere(x) => {
            let mut out = "<where>".to_owned();
            let c = html_of_nodes(&x.childs);
            out.append(c.as_str());
            out.append("</where>");
            out
        },
        NodeType::NContinue(x) => "<continue/>".to_owned(),
        NodeType::NSql(x) => {
            let mut out = "<sql>".to_owned();
            let c = html_of_nodes(&x.childs);
            out.append(c.as_str());
            out.append("</sql>");
            out
        },
    }
}

/// Renders a node sequence, each node's markup in order.
pub fn html_of_nodes(ns: &Vec<NodeType>) -> (r: String)
    ensures
        r@ == spec_html_nodes(ns@),
    decreases *ns, 3nat,
{
    let mut out = String::new();
    let mut i: usize = 0;
    proof {
        assert(ns@.subrange(0, 0) =~= Seq::<NodeType>::empty());
        assert(out@ =~= spec_html_nodes(ns@.subrange(0, 0)));
    }
    #[verifier::loop_isolation(false)]
    while i < ns.len()
        invariant
            i <= ns@.len(),
            out@ == spec_html_nodes(ns@.subrange(0, i as int)),
        decreases ns@.len() - i,
    {
        let h = html_of_node(&ns[i]);
        out.append(h.as_str());
        proof {
            assert(ns@.subrange(0, i + 1).drop_last() =~= ns@.subrange(0, i as int));
            assert(ns@.subrange(0, i + 1).last() == ns@[i as int]);
        }
        i = i + 1;
    }
    proof {
        assert(ns@.subrange(0, ns@.len() as int) =~= ns@);
    }
    out
}

impl AsHtml for StringNode {
    open spec fn spec_html(&self) -> Seq<char> {
        spec_html_node(NodeType::NString(*self))
    }

    fn as_html(&self) -> (r: String) {
        let len = self.value.as_str().unicode_len();
        if len >= 1 && self.value.as_str().get_char(0) == '`' {
            self.value.clone()
        } else {
            let mut out = "`".to_owned();
            out.append(self.value.as_str());
            out.append("`");
            proof {
                reveal_strlit("`");
                assert(out@ =~= self.spec_html());
            }
            out
        }
    }
}

impl AsHtml for IfNode {
    open spec fn spec_html(&self) -> Seq<char> {
        "<if test=\""@ + self.test@ + "\">"@ + spec_html_nodes(self.childs@) + "</if>"@
    }

    fn as_html(&self) -> (r: String) {
        let mut out = "<if test=\"".to_owned();
        out.append(self.test.as_str());
        out.append("\">");
        let c = html_of_nodes(&self.childs);
        out.append(c.as_str());
        out.append("</if>");
        out
    }
}

impl AsHtml for TrimNode {
    open spec fn spec_html(&self) -> Seq<char> {
        "<trim prefixOverrides=\""@ + self.trim@ + "\" suffixOverrides=\""@ + self.trim@ + "\">"@
            + spec_html_nodes(self.childs@) + "</trim>"@
    }

    fn as_html(&self) -> (r: String) {
        let mut out = "<trim prefixOverrides=\"".to_owned();
        out.append(self.trim.as_str());
        out.append("\" suffixOverrides=\"");
        out.append(self.trim.as_str());
        out.append("\">");
        let c = html_of_nodes(&self.childs);
        out.append(c.as_str());
        out.append("</trim>");
        out
    }
}

impl AsHtml for ForEachNode {
    open spec fn spec_html(&self) -> Seq<char> {
        "<foreach collection=\""@ + self.collection@ + "\" index=\""@ + self.index@ + "\" item=\""@
            + self.item@ + "\" >"@ + spec_html_nodes(self.childs@) + "</foreach>"@
    }

    fn as_html(&self) -> (r: String) {
        let mut out = "<foreach collection=\"".to_owned();
        out.append(self.collection.as_str());
        out.append("\" index=\"");
        out.append(self.index.as_str());
        out.append("\" item=\"");
        out.append(self.item.as_str());
        out.append("\" >");
        let c = html_of_nodes(&self.childs);
        out.append(c.as_str());
        out.append("</foreach>");
        out
    }
}

impl AsHtml for ChooseNode {
    open spec fn spec_html(&self) -> Seq<char> {
        spec_html_node(NodeType::NChoose(*self))
    }

    fn as_html(&self) -> (r: String) {
        let mut out = "<choose>".to_owned();
        let c = html_of_nodes(&self.when_nodes);
        out.append(c.as_str());
        match &self.otherwise_node {
            None => {},
            Some(b) => {
                let o = html_of_node(b);
                out.append(o.as_str());
            },
        }
        out.append("</choose>");
        proof {
            assert(out@ =~= self.spec_html());
        }
        out
    }
}

impl AsHtml for OtherwiseNode {
    open spec fn spec_html(&self) -> Seq<char> {
        "<otherwise>"@ + spec_html_nodes(self.childs@) + "</otherwise>"@
    }

    fn as_html(&self) -> (r: String) {
        let mut out = "<otherwise>".to_owned();
        let c = html_of_nodes(&self.childs);
        out.append(c.as_str());
        out.append("</otherwise>");
        out
    }
}

impl AsHtml for WhenNode {
    open spec fn spec_html(&self) -> Seq<char> {
        "<when test=\""@ + self.test@ + "\">"@ + spec_html_nodes(self.childs@) + "</when>"@
    }

    fn as_html(&self) -> (r: String) {
        let mut out = "<when test=\"".to_owned();
        out.append(self.test.as_str());
        out.append("\">");
        let c = html_of_nodes(&self.childs);
        out.append(c.as_str());
        out.append("</when>");
        out
    }
}

impl AsHtml for BindNode {
    open spec fn spec_html(&self) -> Seq<char> {
        "<bind name=\""@ + self.name@ + "\" value=\""@ + self.value@ + "\"/>"@
    }

    fn as_html(&self) -> (r: String) {
        let mut out = "<bind name=\"".to_owned();
        out.append(self.name.as_str());
        out.append("\" value=\"");
        out.append(self.value.as_str());
        out.append("\"/>");
        out
    }
}

impl AsHtml for SetNode {
    open spec fn spec_html(&self) -> Seq<char> {
        "<set>"@ + spec_html_nodes(self.childs@) + "</set>"@
    }

    fn as_html(&self) -> (r: String) {
        let mut out = "<set>".to_owned();
        let c = html_of_nodes(&self.childs);
        out.append(c.as_str());
        out.append("</set>");
        out
    }
}

impl AsHtml for WhereNode {
    open spec fn spec_html(&self) -> Seq<char> {
        "<where>"@ + spec_html_nodes(self.childs@) + "</where>"@
    }

    fn as_html(&self) -> (r: String) {
        let mut out = "<where>".to_owned();
        let c = html_of_nodes(&self.childs);
        out.append(c.as_str());
        out.append("</where>");
        out
    }
}

impl AsHtml for ContinueNode {
    open spec fn spec_html(&self) -> Seq<char> {
        "<continue/>"@
    }

    fn as_html(&self) -> (r: String) {
        "<continue/>".to_owned()
    }
}

impl AsHtml for SqlNode {
    open spec fn spec_html(&self) -> Seq<char> {
        "<sql>"@ + spec_html_nodes(self.childs@) + "</sql>"@
    }

    fn as_html(&self) -> (r: String) {
        let mut out = "<sql>".to_owned();
        let c = html_of_nodes(&self.childs);
        out.append(c.as_str());
        out.append("</sql>");
        out
    }
}

impl AsHtml for NodeType {
    open spec fn spec_html(&self) -> Seq<char> {
        spec_html_node(*self)
    }

    fn as_html(&self) -> (r: String) {
        html_of_node(self)
    }
}

impl AsHtml for Vec<NodeType> {
    open spec fn spec_html(&self) -> Seq<char> {
        spec_html_nodes(self@)
    }

    fn as_html(&self) -> (r: String) {
        html_of_nodes(self)
    }
}

/// Canonical markup of a whole tree: the nodes wrapped in a root `mapper`
/// tag whose inner tag carries the statement kind and the identifier.
pub open spec fn spec_to_html(ns: Seq<NodeType>, is_select: bool, fn_name: Seq<char>) -> Seq<
    char,
> {
    if is_select {
        "<mapper><select id=\""@ + fn_name + "\">"@ + spec_html_nodes(ns) + "</select></mapper>"@
    } else {
        "<mapper><update id=\""@ + fn_name + "\">"@ + spec_html_nodes(ns) + "</update></mapper>"@
    }
}

/// Renders a whole tree wrapped in a root tag carrying the statement kind
/// (`select` or `update`) and the originating template's identifier.
pub fn to_html(args: &Vec<NodeType>, is_select: bool, fn_name: &str) -> (r: String)
    ensures
        r@ == spec_to_html(args@, is_select, fn_name@),
{
    let htmls = html_of_nodes(args);
    if is_select {
        let mut out = "<mapper><select id=\"".to_owned();
        out.append(fn_name);
        out.append("\">");
        out.append(htmls.as_str());
        out.append("</select></mapper>");
        out
    } else {
        let mut out = "<mapper><update id=\"".to_owned();
        out.append(fn_name);
        out.append("\">");
        out.append(htmls.as_str());
        out.append("</update></mapper>");
        out
    }
}

impl Name for StringNode {
    fn name() -> &'static str {
        "string"
    }
}

impl Name for IfNode {
    fn name() -> &'static str {
        "if"
    }
}

impl Name for TrimNode {
    fn name() -> &'static str {
        "trim"
    }
}

impl Name for ForEachNode {
    fn name() -> &'static str {
        "foreach"
    }
}

impl Name for ChooseNode {
    fn name() -> &'static str {
        "choose"
    }
}

impl Name for OtherwiseNode {
    fn name() -> &'static str {
        "otherwise"
    }
}

impl Name for WhenNode {
    fn name() -> &'static str {
        "when"
    }
}

impl Name for BindNode {
    fn name() -> &'static str {
        "bind"
    }
}

impl Name for SetNode {
    fn name() -> &'static str {
        "set"
    }
}

impl Name for WhereNode {
    fn name() -> &'static str {
        "where"
    }
}

impl Name for ContinueNode {
    fn name() -> &'static str {
        "continue"
    }
}

impl Name for SqlNode {
    fn name() -> &'static str {
        "sql"
    }
}

} // verus!
