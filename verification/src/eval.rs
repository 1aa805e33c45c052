//! The evaluation contract: every node turns a conversion policy, an
//! environment, an expression engine and two output accumulators into a
//! signal or an error. The meaning of each node kind is given by a spec
//! interpreter; the executable interpreter is proved to match it.

use vstd::prelude::*;

use crate::node::{
    BindNode, ChooseNode, ContinueNode, EvalError, ExprEngine, ForEachNode, IfNode, NodeType,
    OtherwiseNode, SetNode, Signal, SpecErr, SpecSig, SqlNode, StringConvert, StringNode, TrimNode,
    WhenNode, WhereNode,
};
use crate::strutil::{
    occurs_at, pairs_model, spec_replace, spec_split, spec_trim, strs_model, replace_all, trim_ws,
    starts_with, ends_with, split_str,
};
use crate::text::{spec_splice_text, splice_text};
use crate::value::{
    env_get, env_remove, env_set, fields_model, spec_env_get, spec_env_remove, spec_env_set,
    spec_truthy, str_eq, vals_model, Val, Value,
};

verus! {

/// What evaluating one node or node sequence amounts to: a signal, the
/// environment afterwards, the appended argument values, and the appended
/// SQL text.
pub struct SpecOut {
    pub sig: SpecSig,
    pub env: Val,
    pub args: Seq<Val>,
    pub sql: Seq<char>,
}

/// Keys of an object's field list, in order.
pub open spec fn spec_obj_keys(fs: Seq<(Seq<char>, Val)>) -> Seq<Seq<char>> {
    Seq::new(fs.len(), |i: int| fs[i].0)
}

/// `after` with every object field whose key is not in `ks` taken out:
/// how a scope exit forgets the keys its children introduced.
pub open spec fn spec_restore_keys(after: Val, ks: Seq<Seq<char>>) -> Val {
    match after {
        Val::Obj(af) => Val::Obj(af.filter(|p: (Seq<char>, Val)| ks.contains(p.0))),
        _ => after,
    }
}

/// The environment after leaving a scope that started at `before`: fields
/// introduced meanwhile are removed, fields that existed keep their current
/// values; non-object environments pass through.
pub open spec fn spec_restore(before: Val, after: Val) -> Val {
    match before {
        Val::Obj(bf) => spec_restore_keys(after, spec_obj_keys(bf)),
        _ => after,
    }
}

/// Every literal node of the tree satisfies its own invariant.
pub open spec fn node_wf(n: NodeType) -> bool
    decreases n, 1nat,
{
    match n {
        NodeType::NString(sn) => sn.wf(),
        NodeType::NIf(x) => nodes_wf(x.childs@),
        NodeType::NTrim(x) => nodes_wf(x.childs@),
        NodeType::NForEach(x) => nodes_wf(x.childs@),
        NodeType::NChoose(x) => nodes_wf(x.when_nodes@) && match x.otherwise_node {
            Some(b) => node_wf(*b),
            None => true,
        },
        NodeType::NOtherwise(x) => nodes_wf(x.childs@),
        NodeType::NWhen(x) => nodes_wf(x.childs@),
        NodeType::NBind(_) => true,
        NodeType::NSet(x) => nodes_wf(x.childs@),
        NodeType::NWhere(x) => nodes_wf(x.childs@),
        NodeType::NContinue(_) => true,
        NodeType::NSql(x) => nodes_wf(x.childs@),
    }
}

pub open spec fn nodes_wf(ns: Seq<NodeType>) -> bool
    decreases ns, 0nat,
{
    if ns.len() == 0 {
        true
    } else {
        node_wf(ns[0]) && nodes_wf(ns.drop_first())
    }
}

/// The literal node's triple walk: each (key, token) pair rewrites the
/// working text and may resolve one argument value. Placeholder positions
/// start at `pos` and advance with each appended argument.
pub open spec fn string_node_spec<C: StringConvert, E: ExprEngine>(
    ts: Seq<(Seq<char>, Seq<char>)>,
    w: Seq<char>,
    c: C,
    e: E,
    env: Val,
    pos: nat,
) -> Result<(Seq<char>, Seq<Val>), SpecErr>
    decreases ts.len(),
{
    if ts.len() == 0 {
        Ok((w, Seq::empty()))
    } else {
        let key = ts[0].0;
        let tok = ts[0].1;
        if key.len() == 0 {
            string_node_spec(ts.drop_first(), spec_replace(w, tok, Seq::empty()), c, e, env, pos)
        } else if tok.len() > 0 && tok[0] == '#' {
            let w2 = spec_replace(w, tok, c.spec_convert(pos));
            match (match spec_env_get(env, key) {
                Some(v) => Ok(v),
                None => e.spec_eval(key, env),
            }) {
                Err(m) => Err(SpecErr::Expr(m)),
                Ok(v) => match string_node_spec(ts.drop_first(), w2, c, e, env, pos + 1) {
                    Err(er) => Err(er),
                    Ok((wf, args)) => Ok((wf, seq![v] + args)),
                },
            }
        } else {
            match (match spec_env_get(env, key) {
                Some(v) => Ok(v),
                None => e.spec_eval(key, env),
            }) {
                Err(m) => Err(SpecErr::Expr(m)),
                Ok(v) => string_node_spec(
                    ts.drop_first(),
                    spec_replace(w, tok, spec_splice_text(v)),
                    c,
                    e,
                    env,
                    pos,
                ),
            }
        }
    }
}

/// One leading occurrence of the first matching override stripped.
pub open spec fn spec_strip_prefix_once(s: Seq<char>, ovs: Seq<Seq<char>>) -> Seq<char>
    decreases ovs.len(),
{
    if ovs.len() == 0 {
        s
    } else if ovs[0].len() > 0 && occurs_at(s, ovs[0], 0) {
        s.subrange(ovs[0].len() as int, s.len() as int)
    } else {
        spec_strip_prefix_once(s, ovs.drop_first())
    }
}

/// One trailing occurrence of the first matching override stripped.
pub open spec fn spec_strip_suffix_once(s: Seq<char>, ovs: Seq<Seq<char>>) -> Seq<char>
    decreases ovs.len(),
{
    if ovs.len() == 0 {
        s
    } else if ovs[0].len() > 0 && occurs_at(s, ovs[0], s.len() - ovs[0].len()) {
        s.subrange(0, s.len() - ovs[0].len())
    } else {
        spec_strip_suffix_once(s, ovs.drop_first())
    }
}

/// What a trim node does to its children's text: the `trim` field, split at
/// `|`, lists the overrides stripped once at either end.
pub open spec fn spec_trim_sql(inner: Seq<char>, trim: Seq<char>) -> Seq<char> {
    let ovs = spec_split(trim, '|');
    spec_strip_suffix_once(spec_strip_prefix_once(inner, ovs), ovs)
}

/// A case-insensitive `AND ` prefix.
pub open spec fn is_and_prefix(s: Seq<char>) -> bool {
    s.len() >= 4 && (s[0] == 'a' || s[0] == 'A') && (s[1] == 'n' || s[1] == 'N') && (s[2] == 'd'
        || s[2] == 'D') && s[3] == ' '
}

/// A case-insensitive `OR ` prefix.
pub open spec fn is_or_prefix(s: Seq<char>) -> bool {
    s.len() >= 3 && (s[0] == 'o' || s[0] == 'O') && (s[1] == 'r' || s[1] == 'R') && s[2] == ' '
}

/// What a where node does to its children's text: trims whitespace, strips
/// one leading boolean joiner, and prefixes `WHERE ` when anything is left.
pub open spec fn spec_where_sql(inner: Seq<char>) -> Seq<char> {
    let t = spec_trim(inner);
    let u = if is_and_prefix(t) {
        t.subrange(4, t.len() as int)
    } else if is_or_prefix(t) {
        t.subrange(3, t.len() as int)
    } else {
        t
    };
    if u.len() == 0 {
        Seq::empty()
    } else {
        "WHERE "@ + u
    }
}

/// What a set node does to its children's text: trims whitespace, strips
/// one trailing comma, and prefixes `SET ` when anything is left.
pub open spec fn spec_set_sql(inner: Seq<char>) -> Seq<char> {
    let t = spec_trim(inner);
    let u = if t.len() > 0 && t.last() == ',' {
        t.drop_last()
    } else {
        t
    };
    if u.len() == 0 {
        Seq::empty()
    } else {
        "SET "@ + u
    }
}

/// The (index value, item value) pairs an iteration walks: array elements
/// with their positions, object fields with their keys; anything else is no
/// collection.
pub open spec fn spec_entries(cv: Val) -> Option<Seq<(Val, Val)>> {
    match cv {
        Val::Arr(items) => if items.len() <= 0x7fff_ffff_ffff_ffff {
            Some(Seq::new(items.len(), |i: int| (Val::Int(i), items[i])))
        } else {
            None
        },
        Val::Obj(fields) => Some(
            Seq::new(fields.len(), |i: int| (Val::Str(fields[i].0), fields[i].1)),
        ),
        _ => None,
    }
}

/// Puts a possibly-saved prior binding back: a saved value is rebound, a
/// key that was absent is removed.
pub open spec fn spec_put_back(env: Val, key: Seq<char>, prior: Option<Val>) -> Val {
    match prior {
        None => spec_env_remove(env, key),
        Some(v) => match spec_env_set(env, key, v) {
            Some(e2) => e2,
            None => env,
        },
    }
}

/// The meaning of one node.
pub open spec fn eval_node_spec<C: StringConvert, E: ExprEngine>(
    n: NodeType,
    c: C,
    e: E,
    env: Val,
    pos: nat,
) -> Result<SpecOut, SpecErr>
    decreases n, 0nat,
{
    match n {
        NodeType::NString(sn) => match string_node_spec(
            pairs_model(sn.express_map@),
            sn.value@,
            c,
            e,
            env,
            pos,
        ) {
            Err(er) => Err(er),
            Ok((sql, args)) => Ok(SpecOut { sig: SpecSig::Value(Val::Null), env, args, sql }),
        },
        NodeType::NIf(x) => match e.spec_eval(x.test@, env) {
            Err(m) => Err(SpecErr::Expr(m)),
            Ok(tv) => if spec_truthy(tv) {
                scoped_spec(x.childs@, c, e, env, pos)
            } else {
                Ok(
                    SpecOut {
                        sig: SpecSig::Value(Val::Null),
                        env,
                        args: Seq::empty(),
                        sql: Seq::empty(),
                    },
                )
            },
        },
        NodeType::NWhen(x) => match e.spec_eval(x.test@, env) {
            Err(m) => Err(SpecErr::Expr(m)),
            Ok(tv) => if spec_truthy(tv) {
                scoped_spec(x.childs@, c, e, env, pos)
            } else {
                Ok(
                    SpecOut {
                        sig: SpecSig::Value(Val::Null),
                        env,
                        args: Seq::empty(),
                        sql: Seq::empty(),
                    },
                )
            },
        },
        NodeType::NOtherwise(x) => scoped_spec(x.childs@, c, e, env, pos),
        NodeType::NTrim(x) => match scoped_spec(x.childs@, c, e, env, pos) {
            Err(er) => Err(er),
            Ok(o) => Ok(
                SpecOut { sig: o.sig, env: o.env, args: o.args, sql: spec_trim_sql(o.sql, x.trim@) },
            ),
        },
        NodeType::NWhere(x) => match scoped_spec(x.childs@, c, e, env, pos) {
            Err(er) => Err(er),
            Ok(o) => Ok(
                SpecOut { sig: o.sig, env: o.env, args: o.args, sql: spec_where_sql(o.sql) },
            ),
        },
        NodeType::NSet(x) => match scoped_spec(x.childs@, c, e, env, pos) {
            Err(er) => Err(er),
            Ok(o) => Ok(SpecOut { sig: o.sig, env: o.env, args: o.args, sql: spec_set_sql(o.sql) }),
        },
        NodeType::NBind(x) => match e.spec_eval(x.value@, env) {
            Err(m) => Err(SpecErr::Expr(m)),
            Ok(v) => match spec_env_set(env, x.name@, v) {
                None => Err(SpecErr::Structure("bind needs an object environment"@)),
                Some(e2) => Ok(
                    SpecOut {
                        sig: SpecSig::Value(Val::Null),
                        env: e2,
                        args: Seq::empty(),
                        sql: Seq::empty(),
                    },
                ),
            },
        },
        NodeType::NContinue(_) => Ok(
            SpecOut { sig: SpecSig::LoopNext, env, args: Seq::empty(), sql: Seq::empty() },
        ),
        NodeType::NSql(x) => eval_nodes_spec(x.childs@, c, e, env, pos),
        NodeType::NChoose(x) => match choose_spec(x.when_nodes@, 0, c, e, env, pos) {
            Err(er) => Err(er),
            Ok(Some(o)) => Ok(o),
            Ok(None) => match x.otherwise_node {
                None => Ok(
                    SpecOut {
                        sig: SpecSig::Value(Val::Null),
                        env,
                        args: Seq::empty(),
                        sql: Seq::empty(),
                    },
                ),
                Some(b) => eval_node_spec(*b, c, e, env, pos),
            },
        },
        NodeType::NForEach(x) => match e.spec_eval(x.collection@, env) {
            Err(m) => Err(SpecErr::Expr(m)),
            Ok(cv) => match spec_entries(cv) {
                None => Err(SpecErr::Structure("foreach expects an array or object collection"@)),
                Some(entries) => {
                    let prior_item = spec_env_get(env, x.item@);
                    let prior_index = spec_env_get(env, x.index@);
                    match foreach_spec(
                        x.childs@,
                        entries,
                        0,
                        x.item@,
                        x.index@,
                        x.separator@,
                        c,
                        e,
                        env,
                        pos,
                        false,
                    ) {
                        Err(er) => Err(er),
                        Ok((inner, args, env_f)) => {
                            let env_r = spec_put_back(
                                spec_put_back(env_f, x.item@, prior_item),
                                x.index@,
                                prior_index,
                            );
                            let sql = if entries.len() > 0 {
                                x.open_text@ + inner + x.close_text@
                            } else {
                                Seq::empty()
                            };
                            Ok(SpecOut { sig: SpecSig::Value(Val::Null), env: env_r, args, sql })
                        },
                    }
                },
            },
        },
    }
}

/// The meaning of a node sequence: each node in turn, threading environment
/// and argument positions; a loop-continuation signal skips the remaining
/// siblings and propagates.
pub open spec fn eval_nodes_spec<C: StringConvert, E: ExprEngine>(
    ns: Seq<NodeType>,
    c: C,
    e: E,
    env: Val,
    pos: nat,
) -> Result<SpecOut, SpecErr>
    decreases ns, 0nat,
{
    if ns.len() == 0 {
        Ok(SpecOut { sig: SpecSig::Value(Val::Null), env, args: Seq::empty(), sql: Seq::empty() })
    } else {
        match eval_node_spec(ns[0], c, e, env, pos) {
            Err(er) => Err(er),
            Ok(o1) => match o1.sig {
                SpecSig::LoopNext => Ok(o1),
                SpecSig::Value(_) => match eval_nodes_spec(
                    ns.drop_first(),
                    c,
                    e,
                    o1.env,
                    pos + o1.args.len(),
                ) {
                    Err(er) => Err(er),
                    Ok(o2) => Ok(
                        SpecOut {
                            sig: o2.sig,
                            env: o2.env,
                            args: o1.args + o2.args,
                            sql: o1.sql + o2.sql,
                        },
                    ),
                },
            },
        }
    }
}

/// The meaning of a node sequence evaluated in its own scope: keys the
/// children introduced are removed from the environment afterwards.
pub open spec fn scoped_spec<C: StringConvert, E: ExprEngine>(
    ns: Seq<NodeType>,
    c: C,
    e: E,
    env: Val,
    pos: nat,
) -> Result<SpecOut, SpecErr>
    decreases ns, 1nat,
{
    match eval_nodes_spec(ns, c, e, env, pos) {
        Err(er) => Err(er),
        Ok(o) => Ok(
            SpecOut { sig: o.sig, env: spec_restore(env, o.env), args: o.args, sql: o.sql },
        ),
    }
}

/// The meaning of a choice's branch walk from branch `k` on: the first
/// branch with a truthy test is evaluated in its own scope; `None` when no
/// branch matches.
pub open spec fn choose_spec<C: StringConvert, E: ExprEngine>(
    whens: Seq<NodeType>,
    k: int,
    c: C,
    e: E,
    env: Val,
    pos: nat,
) -> Result<Option<SpecOut>, SpecErr>
    decreases whens, whens.len() - k + 1,
{
    if k < 0 || k >= whens.len() {
        Ok(None)
    } else {
        match whens[k] {
            NodeType::NWhen(w) => match e.spec_eval(w.test@, env) {
                Err(m) => Err(SpecErr::Expr(m)),
                Ok(tv) => if spec_truthy(tv) {
                    match scoped_spec(w.childs@, c, e, env, pos) {
                        Err(er) => Err(er),
                        Ok(o) => Ok(Some(o)),
                    }
                } else {
                    choose_spec(whens, k + 1, c, e, env, pos)
                },
            },
            _ => Err(SpecErr::Structure("choose expects when branches"@)),
        }
    }
}

/// The meaning of an iteration from entry `k` on: per entry, the item and
/// index names are bound, the children run in their own scope, and kept
/// outputs are joined with the separator; a loop-continuation signal drops
/// that entry's output entirely.
pub open spec fn foreach_spec<C: StringConvert, E: ExprEngine>(
    childs: Seq<NodeType>,
    entries: Seq<(Val, Val)>,
    k: int,
    item: Seq<char>,
    index: Seq<char>,
    sep: Seq<char>,
    c: C,
    e: E,
    env: Val,
    pos: nat,
    started: bool,
) -> Result<(Seq<char>, Seq<Val>, Val), SpecErr>
    decreases childs, entries.len() - k + 1,
{
    if k < 0 || k >= entries.len() {
        Ok((Seq::empty(), Seq::empty(), env))
    } else {
        match spec_env_set(env, item, entries[k].1) {
            None => Err(SpecErr::Structure("foreach needs an object environment"@)),
            Some(env1) => match spec_env_set(env1, index, entries[k].0) {
                None => Err(SpecErr::Structure("foreach needs an object environment"@)),
                Some(env2) => match scoped_spec(childs, c, e, env2, pos) {
                    Err(er) => Err(er),
                    Ok(o) => {
                        let env3 = o.env;
                        match o.sig {
                            SpecSig::LoopNext => foreach_spec(
                                childs,
                                entries,
                                k + 1,
                                item,
                                index,
                                sep,
                                c,
                                e,
                                env3,
                                pos,
                                started,
                            ),
                            SpecSig::Value(_) => {
                                let piece = if started {
                                    sep + o.sql
                                } else {
                                    o.sql
                                };
                                match foreach_spec(
                                    childs,
                                    entries,
                                    k + 1,
                                    item,
                                    index,
                                    sep,
                                    c,
                                    e,
                                    env3,
                                    pos + o.args.len(),
                                    true,
                                ) {
                                    Err(er) => Err(er),
                                    Ok((sql_r, args_r, env_f)) => Ok(
                                        (piece + sql_r, o.args + args_r, env_f),
                                    ),
                                }
                            },
                        }
                    },
                },
            },
        }
    }
}

/// Executable results match the spec interpreter's outcome: same signal or
/// error, same environment, and the accumulators extended by exactly the
/// spec's appended argument values and text.
pub open spec fn eval_matches(
    r: Result<Signal, EvalError>,
    spec_r: Result<SpecOut, SpecErr>,
    env1: Val,
    args0: Seq<Value>,
    args1: Seq<Value>,
    sql0: Seq<char>,
    sql1: Seq<char>,
) -> bool {
    match (r, spec_r) {
        (Ok(sig), Ok(o)) => sig@ == o.sig && env1 == o.env && vals_model(args1) == vals_model(args0)
            + o.args && sql1 == sql0 + o.sql,
        (Err(er), Err(se)) => er@ == se,
        _ => false,
    }
}

/// Whether the environment is an object.
pub fn env_is_obj(env: &Value) -> (r: bool)
    ensures
        r == (env@ is Obj),
{
    match env {
        Value::Obj(_) => true,
        _ => false,
    }
}

/// The keys of an object environment, in order; empty for any other shape.
pub fn env_keys(env: &Value) -> (r: Vec<String>)
    ensures
        match env@ {
            Val::Obj(fs) => strs_model(r@) == spec_obj_keys(fs),
            _ => r@.len() == 0,
        },
{
    let mut out: Vec<String> = Vec::new();
    match env {
        Value::Obj(fields) => {
            let ghost fm = fields_model(fields@);
            let mut i: usize = 0;
            #[verifier::loop_isolation(false)]
            while i < fields.len()
                invariant
                    i <= fields.len(),
                    out@.len() == i,
                    forall|j: int| 0 <= j < i ==> (#[trigger] out@[j])@ == fm[j].0,
                decreases fields.len() - i,
            {
                out.push(fields[i].0.clone());
                i = i + 1;
            }
            proof {
                assert(strs_model(out@) =~= spec_obj_keys(fm));
            }
            out
        },
        _ => out,
    }
}

/// Takes every field whose key is not among `keys` out of an object
/// environment; other shapes are left alone.
pub fn env_restore(env: &mut Value, keys: &Vec<String>)
    ensures
        final(env)@ == spec_restore_keys(old(env)@, strs_model(keys@)),
{
    let ghost ks = strs_model(keys@);
    let mut cur = Value::Null;
    core::mem::swap(env, &mut cur);
    match cur {
        Value::Obj(fields) => {
            let ghost fm0 = fields_model(fields@);
            let ghost pred = |p: (Seq<char>, Val)| ks.contains(p.0);
            let mut kept: Vec<(String, Value)> = Vec::new();
            let mut i: usize = 0;
            proof {
                reveal(Seq::filter);
                assert(fm0.subrange(0, 0) =~= Seq::<(Seq<char>, Val)>::empty());
                assert(fields_model(kept@) =~= fm0.subrange(0, 0).filter(pred));
            }
            #[verifier::loop_isolation(false)]
            while i < fields.len()
                invariant
                    i <= fields.len(),
                    fields_model(kept@) == fm0.subrange(0, i as int).filter(pred),
                decreases fields.len() - i,
            {
                let mut seen = false;
                let mut j: usize = 0;
                #[verifier::loop_isolation(false)]
                while j < keys.len()
                    invariant
                        j <= keys.len(),
                        seen <==> exists|t: int|
                            0 <= t < j && (#[trigger] keys@[t])@ == fields@[i as int].0@,
                    decreases keys.len() - j,
                {
                    if !seen && str_eq(keys[j].as_str(), fields[i].0.as_str()) {
                        seen = true;
                    }
                    j = j + 1;
                }
                proof {
                    if seen {
                        let t = choose|t: int|
                            0 <= t < keys@.len() && (#[trigger] keys@[t])@
                                == fields@[i as int].0@;
                        assert(ks[t] == fm0[i as int].0);
                        assert(ks.contains(fm0[i as int].0));
                    } else {
                        if ks.contains(fm0[i as int].0) {
                            let t = choose|t: int|
                                0 <= t < ks.len() && #[trigger] ks[t] == fm0[i as int].0;
                            assert(keys@[t]@ == fields@[i as int].0@);
                        }
                    }
                    reveal(Seq::filter);
                    assert(seen == pred(fm0[i as int]));
                    assert(fm0.subrange(0, i + 1).drop_last() =~= fm0.subrange(0, i as int));
                    assert(fm0.subrange(0, i + 1).last() == fm0[i as int]);
                }
                let ghost kept0 = kept@;
                if seen {
                    let k = fields[i].0.clone();
                    let v = fields[i].1.duplicate();
                    kept.push((k, v));
                    proof {
                        assert(fields_model(kept@) =~= fields_model(kept0).push(fm0[i as int]));
                        assert(fields_model(kept@) =~= fm0.subrange(0, i + 1).filter(pred));
                    }
                } else {
                    proof {
                        assert(fields_model(kept@) =~= fm0.subrange(0, i + 1).filter(pred));
                    }
                }
                i = i + 1;
            }
            proof {
                assert(fm0.subrange(0, fm0.len() as int) =~= fm0);
            }
            *env = Value::Obj(kept);
        },
        other => {
            *env = other;
        },
    }
}

/// One unfolding step of the node-sequence interpreter.
proof fn lemma_nodes_spec_step<C: StringConvert, E: ExprEngine>(
    ns: Seq<NodeType>,
    c: C,
    e: E,
    env: Val,
    pos: nat,
)
    requires
        ns.len() > 0,
    ensures
        eval_nodes_spec(ns, c, e, env, pos) == (match eval_node_spec(ns[0], c, e, env, pos) {
            Err(er) => Err::<SpecOut, SpecErr>(er),
            Ok(o1) => match o1.sig {
                SpecSig::LoopNext => Ok::<SpecOut, SpecErr>(o1),
                SpecSig::Value(u) => match eval_nodes_spec(
                    ns.drop_first(),
                    c,
                    e,
                    o1.env,
                    pos + o1.args.len(),
                ) {
                    Err(er) => Err::<SpecOut, SpecErr>(er),
                    Ok(o2) => Ok::<SpecOut, SpecErr>(
                        SpecOut {
                            sig: o2.sig,
                            env: o2.env,
                            args: o1.args + o2.args,
                            sql: o1.sql + o2.sql,
                        },
                    ),
                },
            },
        }),
{
    reveal_with_fuel(eval_nodes_spec, 2);
}

/// One unfolding step of the choice branch walk.
proof fn lemma_choose_spec_step<C: StringConvert, E: ExprEngine>(
    whens: Seq<NodeType>,
    k: int,
    c: C,
    e: E,
    env: Val,
    pos: nat,
)
    requires
        0 <= k < whens.len(),
    ensures
        choose_spec(whens, k, c, e, env, pos) == (match whens[k] {
            NodeType::NWhen(w) => match e.spec_eval(w.test@, env) {
                Err(m) => Err::<Option<SpecOut>, SpecErr>(SpecErr::Expr(m)),
                Ok(tv) => if spec_truthy(tv) {
                    match scoped_spec(w.childs@, c, e, env, pos) {
                        Err(er) => Err::<Option<SpecOut>, SpecErr>(er),
                        Ok(o) => Ok::<Option<SpecOut>, SpecErr>(Some(o)),
                    }
                } else {
                    choose_spec(whens, k + 1, c, e, env, pos)
                },
            },
            _ => Err::<Option<SpecOut>, SpecErr>(
                SpecErr::Structure("choose expects when branches"@),
            ),
        }),
{
    reveal_with_fuel(choose_spec, 2);
}

/// One unfolding step of the iteration walk.
proof fn lemma_foreach_spec_step<C: StringConvert, E: ExprEngine>(
    childs: Seq<NodeType>,
    entries: Seq<(Val, Val)>,
    k: int,
    item: Seq<char>,
    index: Seq<char>,
    sep: Seq<char>,
    c: C,
    e: E,
    env: Val,
    pos: nat,
    started: bool,
)
    requires
        0 <= k < entries.len(),
    ensures
        foreach_spec(childs, entries, k, item, index, sep, c, e, env, pos, started) == (
        match spec_env_set(env, item, entries[k].1) {
            None => Err::<(Seq<char>, Seq<Val>, Val), SpecErr>(
                SpecErr::Structure("foreach needs an object environment"@),
            ),
            Some(env1) => match spec_env_set(env1, index, entries[k].0) {
                None => Err::<(Seq<char>, Seq<Val>, Val), SpecErr>(
                    SpecErr::Structure("foreach needs an object environment"@),
                ),
                Some(env2) => match scoped_spec(childs, c, e, env2, pos) {
                    Err(er) => Err::<(Seq<char>, Seq<Val>, Val), SpecErr>(er),
                    Ok(o) => match o.sig {
                        SpecSig::LoopNext => foreach_spec(
                            childs,
                            entries,
                            k + 1,
                            item,
                            index,
                            sep,
                            c,
                            e,
                            o.env,
                            pos,
                            started,
                        ),
                        SpecSig::Value(u) => {
                            let piece = if started {
                                sep + o.sql
                            } else {
                                o.sql
                            };
                            match foreach_spec(
                                childs,
                                entries,
                                k + 1,
                                item,
                                index,
                                sep,
                                c,
                                e,
                                o.env,
                                pos + o.args.len(),
                                true,
                            ) {
                                Err(er) => Err::<(Seq<char>, Seq<Val>, Val), SpecErr>(er),
                                Ok(p) => Ok::<(Seq<char>, Seq<Val>, Val), SpecErr>(
                                    (piece + p.0, o.args + p.1, p.2),
                                ),
                            }
                        },
                    },
                },
            },
        }),
{
    reveal_with_fuel(foreach_spec, 2);
}

/// Each node of a well-formed sequence is well formed.
pub proof fn lemma_nodes_wf_elem(ns: Seq<NodeType>, k: int)
    requires
        nodes_wf(ns),
        0 <= k < ns.len(),
    ensures
        node_wf(ns[k]),
    decreases ns.len(),
{
    if k > 0 {
        lemma_nodes_wf_elem(ns.drop_first(), k - 1);
        assert(ns.drop_first()[k - 1] == ns[k]);
    }
}

/// Evaluates a literal node: walks the token pairs in order, rewriting the
/// working text and resolving one argument value per value-binding token,
/// then appends the finished text to the SQL buffer.
fn eval_string_node<C: StringConvert, E: ExprEngine>(
    sn: &StringNode,
    convert: &C,
    env: &Value,
    engine: &E,
    arg_array: &mut Vec<Value>,
    arg_sql: &mut String,
) -> (r: Result<(), EvalError>)
    requires
        sn.wf(),
    ensures
        match (
            r,
            string_node_spec(
                pairs_model(sn.express_map@),
                sn.value@,
                *convert,
                *engine,
                env@,
                old(arg_array)@.len() as nat,
            ),
        ) {
            (Ok(u), Ok((sql, args))) => vals_model(final(arg_array)@) == vals_model(
                old(arg_array)@,
            ) + args && final(arg_sql)@ == old(arg_sql)@ + sql,
            (Err(er), Err(se)) => er@ == se,
            _ => false,
        },
{
    let ghost tm = pairs_model(sn.express_map@);
    let ghost pos0 = old(arg_array)@.len() as nat;
    let ghost full = string_node_spec(tm, sn.value@, *convert, *engine, env@, pos0);
    let mut w: String = sn.value.clone();
    let mut i: usize = 0;
    proof {
        assert(tm.subrange(0, tm.len() as int) =~= tm);
        let d0 = vals_model(arg_array@).subrange(
            old(arg_array)@.len() as int,
            arg_array@.len() as int,
        );
        assert(d0 =~= Seq::<Val>::empty());
        assert(vals_model(arg_array@).subrange(0, old(arg_array)@.len() as int) =~= vals_model(
            old(arg_array)@,
        ));
        match full {
            Ok(p) => {
                assert(d0 + p.1 =~= p.1);
            },
            Err(_) => {},
        }
    }
    #[verifier::loop_isolation(false)]
    while i < sn.express_map.len()
        invariant
            i <= sn.express_map@.len(),
            old(arg_array)@.len() <= arg_array@.len(),
            vals_model(arg_array@).subrange(0, old(arg_array)@.len() as int) == vals_model(
                old(arg_array)@,
            ),
            arg_sql@ == old(arg_sql)@,
            ({
                let rest = string_node_spec(
                    tm.subrange(i as int, tm.len() as int),
                    w@,
                    *convert,
                    *engine,
                    env@,
                    arg_array@.len() as nat,
                );
                match rest {
                    Ok((sqlr, argsr)) => full == Ok::<(Seq<char>, Seq<Val>), SpecErr>(
                        (
                            sqlr,
                            vals_model(arg_array@).subrange(
                                old(arg_array)@.len() as int,
                                arg_array@.len() as int,
                            ) + argsr,
                        ),
                    ),
                    Err(er) => full == Err::<(Seq<char>, Seq<Val>), SpecErr>(er),
                }
            }),
        decreases sn.express_map@.len() - i,
    {
        proof {
            assert(tm.subrange(i as int, tm.len() as int).drop_first() =~= tm.subrange(
                i + 1,
                tm.len() as int,
            ));
            assert(tm.subrange(i as int, tm.len() as int)[0] == tm[i as int]);
            assert(tm[i as int] == (sn.express_map@[i as int].0@, sn.express_map@[i as int].1@));
        }
        let key = &sn.express_map[i].0;
        let tok = &sn.express_map[i].1;
        if key.as_str().unicode_len() == 0 {
            proof {
                reveal_strlit("");
                assert(""@ =~= Seq::<char>::empty());
            }
            w = replace_all(w.as_str(), tok.as_str(), "");
        } else if tok.as_str().get_char(0) == '#' {
            let ph = convert.convert(arg_array.len());
            w = replace_all(w.as_str(), tok.as_str(), ph.as_str());
            let got = env_get(env, key.as_str());
            let ghost args_before = vals_model(arg_array@).subrange(
                old(arg_array)@.len() as int,
                arg_array@.len() as int,
            );
            match got {
                Some(v) => {
                    arg_array.push(v);
                },
                None => {
                    match engine.eval(key.as_str(), env) {
                        Ok(v) => {
                            arg_array.push(v);
                        },
                        Err(m) => {
                            return Err(EvalError::Expr(m));
                        },
                    }
                },
            }
            proof {
                let args_now = vals_model(arg_array@).subrange(
                    old(arg_array)@.len() as int,
                    arg_array@.len() as int,
                );
                assert(vals_model(arg_array@).subrange(0, old(arg_array)@.len() as int)
                    =~= vals_model(old(arg_array)@));
                assert(args_now =~= args_before.push(
                    vals_model(arg_array@).last(),
                ));
                assert forall|q: Seq<Val>| true implies args_now + q =~= args_before + (seq![
                    vals_model(arg_array@).last(),
                ] + q) by {
                }
            }
        } else {
            let got = env_get(env, key.as_str());
            let v = match got {
                Some(v) => v,
                None => {
                    match engine.eval(key.as_str(), env) {
                        Ok(v) => v,
                        Err(m) => {
                            return Err(EvalError::Expr(m));
                        },
                    }
                },
            };
            let txt = splice_text(&v);
            w = replace_all(w.as_str(), tok.as_str(), txt.as_str());
        }
        i = i + 1;
    }
    proof {
        assert(tm.subrange(tm.len() as int, tm.len() as int) =~= Seq::<(Seq<char>, Seq<char>)>::empty());
    }
    arg_sql.append(w.as_str());
    proof {
        assert(vals_model(final(arg_array)@) =~= vals_model(old(arg_array)@) + vals_model(
            arg_array@,
        ).subrange(old(arg_array)@.len() as int, arg_array@.len() as int));
    }
    Ok(())
}

/// Strips one leading occurrence of the first matching override.
fn strip_prefix_once(s: &str, ovs: &Vec<String>) -> (r: String)
    ensures
        r@ == spec_strip_prefix_once(s@, strs_model(ovs@)),
{
    let ghost sm = strs_model(ovs@);
    let slen = s.unicode_len();
    let mut k: usize = 0;
    proof {
        assert(sm.subrange(0, sm.len() as int) =~= sm);
    }
    #[verifier::loop_isolation(false)]
    while k < ovs.len()
        invariant
            k <= ovs.len(),
            spec_strip_prefix_once(s@, sm) == spec_strip_prefix_once(
                s@,
                sm.subrange(k as int, sm.len() as int),
            ),
        decreases ovs.len() - k,
    {
        proof {
            assert(sm.subrange(k as int, sm.len() as int)[0] == sm[k as int]);
            assert(sm.subrange(k as int, sm.len() as int).drop_first() =~= sm.subrange(
                k + 1,
                sm.len() as int,
            ));
        }
        let p = &ovs[k];
        let plen = p.as_str().unicode_len();
        if plen > 0 && starts_with(s, p.as_str()) {
            return s.substring_char(plen, slen).to_owned();
        }
        k = k + 1;
    }
    s.to_owned()
}

/// Strips one trailing occurrence of the first matching override.
fn strip_suffix_once(s: &str, ovs: &Vec<String>) -> (r: String)
    ensures
        r@ == spec_strip_suffix_once(s@, strs_model(ovs@)),
{
    let ghost sm = strs_model(ovs@);
    let slen = s.unicode_len();
    let mut k: usize = 0;
    proof {
        assert(sm.subrange(0, sm.len() as int) =~= sm);
    }
    #[verifier::loop_isolation(false)]
    while k < ovs.len()
        invariant
            k <= ovs.len(),
            spec_strip_suffix_once(s@, sm) == spec_strip_suffix_once(
                s@,
                sm.subrange(k as int, sm.len() as int),
            ),
        decreases ovs.len() - k,
    {
        proof {
            assert(sm.subrange(k as int, sm.len() as int)[0] == sm[k as int]);
            assert(sm.subrange(k as int, sm.len() as int).drop_first() =~= sm.subrange(
                k + 1,
                sm.len() as int,
            ));
        }
        let p = &ovs[k];
        let plen = p.as_str().unicode_len();
        if plen > 0 && ends_with(s, p.as_str()) {
            return s.substring_char(0, slen - plen).to_owned();
        }
        k = k + 1;
    }
    s.to_owned()
}

/// Applies a trim node's overrides to its children's text.
fn apply_trim(inner: &str, trim: &str) -> (r: String)
    ensures
        r@ == spec_trim_sql(inner@, trim@),
{
    proof {
        reveal_strlit("|");
        assert("|"@ =~= seq!['|']);
    }
    let ovs = split_str(trim, "|");
    let p = strip_prefix_once(inner, &ovs);
    strip_suffix_once(p.as_str(), &ovs)
}

/// Applies where-clause cleanup to the children's text.
fn apply_where(inner: &str) -> (r: String)
    ensures
        r@ == spec_where_sql(inner@),
{
    let t = trim_ws(inner);
    let tlen = t.as_str().unicode_len();
    let ts = t.as_str();
    let u: String = if tlen >= 4 && (ts.get_char(0) == 'a' || ts.get_char(0) == 'A') && (
    ts.get_char(1) == 'n' || ts.get_char(1) == 'N') && (ts.get_char(2) == 'd' || ts.get_char(2)
        == 'D') && ts.get_char(3) == ' ' {
        ts.substring_char(4, tlen).to_owned()
    } else if tlen >= 3 && (ts.get_char(0) == 'o' || ts.get_char(0) == 'O') && (ts.get_char(1)
        == 'r' || ts.get_char(1) == 'R') && ts.get_char(2) == ' ' {
        ts.substring_char(3, tlen).to_owned()
    } else {
        t.clone()
    };
    if u.as_str().unicode_len() == 0 {
        let r = String::new();
        proof {
            assert(r@ =~= spec_where_sql(inner@));
        }
        r
    } else {
        let mut out = "WHERE ".to_owned();
        out.append(u.as_str());
        out
    }
}

/// Applies set-clause cleanup to the children's text.
fn apply_set(inner: &str) -> (r: String)
    ensures
        r@ == spec_set_sql(inner@),
{
    let t = trim_ws(inner);
    let tlen = t.as_str().unicode_len();
    let u: String = if tlen > 0 && t.as_str().get_char(tlen - 1) == ',' {
        proof {
            assert(t@.subrange(0, t@.len() - 1) =~= t@.drop_last());
        }
        t.as_str().substring_char(0, tlen - 1).to_owned()
    } else {
        t.clone()
    };
    if u.as_str().unicode_len() == 0 {
        let r = String::new();
        proof {
            assert(r@ =~= spec_set_sql(inner@));
        }
        r
    } else {
        let mut out = "SET ".to_owned();
        out.append(u.as_str());
        out
    }
}

/// Rebinds a saved prior value of `key`, or removes the key if it was
/// absent before.
fn put_back(env: &mut Value, key: &str, prior: Option<Value>)
    ensures
        final(env)@ == spec_put_back(
            old(env)@,
            key@,
            match prior {
                Some(v) => Some(v@),
                None => None,
            },
        ),
{
    match prior {
        None => {
            env_remove(env, key);
        },
        Some(v) => {
            let u = env_set(env, key, v);
        },
    }
}

impl NodeType {
    /// The evaluation contract every node kind implements: against a
    /// conversion policy, a mutable environment and an expression engine,
    /// append argument values and SQL text and hand back a signal or fail.
    /// The outcome is exactly what the spec interpreter gives the node.
    #[verifier::rlimit(60)]
    pub fn eval<C: StringConvert, E: ExprEngine>(
        &self,
        convert: &C,
        env: &mut Value,
        engine: &E,
        arg_array: &mut Vec<Value>,
        arg_sql: &mut String,
    ) -> (r: Result<Signal, EvalError>)
        requires
            node_wf(*self),
        ensures
            eval_matches(
                r,
                eval_node_spec(
                    *self,
                    *convert,
                    *engine,
                    old(env)@,
                    old(arg_array)@.len() as nat,
                ),
                final(env)@,
                old(arg_array)@,
                final(arg_array)@,
                old(arg_sql)@,
                final(arg_sql)@,
            ),
        decreases *self, 3nat,
    {
        match self {
            NodeType::NString(sn) => {
                match eval_string_node(sn, convert, env, engine, arg_array, arg_sql) {
                    Ok(u) => Ok(Signal::Value(Value::Null)),
                    Err(er) => Err(er),
                }
            },
            NodeType::NIf(x) => {
                match engine.eval(x.test.as_str(), env) {
                    Err(m) => Err(EvalError::Expr(m)),
                    Ok(tv) => {
                        if tv.truthy() {
                            eval_nodes_scoped(&x.childs, convert, env, engine, arg_array, arg_sql)
                        } else {
                            proof {
                                assert(final(arg_sql)@ =~= old(arg_sql)@ + Seq::<char>::empty());
                                assert(vals_model(final(arg_array)@) =~= vals_model(
                                    old(arg_array)@,
                                ) + Seq::<Val>::empty());
                            }
                            Ok(Signal::Value(Value::Null))
                        }
                    },
                }
            },
            NodeType::NWhen(x) => {
                match engine.eval(x.test.as_str(), env) {
                    Err(m) => Err(EvalError::Expr(m)),
                    Ok(tv) => {
                        if tv.truthy() {
                            eval_nodes_scoped(&x.childs, convert, env, engine, arg_array, arg_sql)
                        } else {
                            proof {
                                assert(final(arg_sql)@ =~= old(arg_sql)@ + Seq::<char>::empty());
                                assert(vals_model(final(arg_array)@) =~= vals_model(
                                    old(arg_array)@,
                                ) + Seq::<Val>::empty());
                            }
                            Ok(Signal::Value(Value::Null))
                        }
                    },
                }
            },
            NodeType::NOtherwise(x) => {
                eval_nodes_scoped(&x.childs, convert, env, engine, arg_array, arg_sql)
            },
            NodeType::NTrim(x) => {
                let mut inner = String::new();
                match eval_nodes_scoped(&x.childs, convert, env, engine, arg_array, &mut inner) {
                    Err(er) => Err(er),
                    Ok(sig) => {
                        let t = apply_trim(inner.as_str(), x.trim.as_str());
                        arg_sql.append(t.as_str());
                        Ok(sig)
                    },
                }
            },
            NodeType::NWhere(x) => {
                let mut inner = String::new();
                match eval_nodes_scoped(&x.childs, convert, env, engine, arg_array, &mut inner) {
                    Err(er) => Err(er),
                    Ok(sig) => {
                        let t = apply_where(inner.as_str());
                        arg_sql.append(t.as_str());
                        Ok(sig)
                    },
                }
            },
            NodeType::NSet(x) => {
                let mut inner = String::new();
                match eval_nodes_scoped(&x.childs, convert, env, engine, arg_array, &mut inner) {
                    Err(er) => Err(er),
                    Ok(sig) => {
                        let t = apply_set(inner.as_str());
                        arg_sql.append(t.as_str());
                        Ok(sig)
                    },
                }
            },
            NodeType::NBind(x) => {
                match engine.eval(x.value.as_str(), env) {
                    Err(m) => Err(EvalError::Expr(m)),
                    Ok(v) => {
                        if env_set(env, x.name.as_str(), v) {
                            proof {
                                assert(final(arg_sql)@ =~= old(arg_sql)@ + Seq::<char>::empty());
                                assert(vals_model(final(arg_array)@) =~= vals_model(
                                    old(arg_array)@,
                                ) + Seq::<Val>::empty());
                            }
                            Ok(Signal::Value(Value::Null))
                        } else {
                            Err(EvalError::Structure("bind needs an object environment".to_owned()))
                        }
                    },
                }
            },
            NodeType::NContinue(_) => {
                proof {
                    assert(final(arg_sql)@ =~= old(arg_sql)@ + Seq::<char>::empty());
                    assert(vals_model(final(arg_array)@) =~= vals_model(old(arg_array)@)
                        + Seq::<Val>::empty());
                }
                Ok(Signal::LoopNext)
            },
            NodeType::NSql(x) => eval_nodes(&x.childs, convert, env, engine, arg_array, arg_sql),
            NodeType::NChoose(x) => eval_choose(x, convert, env, engine, arg_array, arg_sql),
            NodeType::NForEach(x) => eval_foreach(x, convert, env, engine, arg_array, arg_sql),
        }
    }
}

/// Evaluates a node sequence in order against shared accumulators; a
/// loop-continuation signal from a child skips the remaining siblings.
#[verifier::rlimit(60)]
pub fn eval_nodes<C: StringConvert, E: ExprEngine>(
    nodes: &Vec<NodeType>,
    convert: &C,
    env: &mut Value,
    engine: &E,
    arg_array: &mut Vec<Value>,
    arg_sql: &mut String,
) -> (r: Result<Signal, EvalError>)
    requires
        nodes_wf(nodes@),
    ensures
        eval_matches(
            r,
            eval_nodes_spec(nodes@, *convert, *engine, old(env)@, old(arg_array)@.len() as nat),
            final(env)@,
            old(arg_array)@,
            final(arg_array)@,
            old(arg_sql)@,
            final(arg_sql)@,
        ),
    decreases *nodes, 0nat,
{
    let ghost full = eval_nodes_spec(
        nodes@,
        *convert,
        *engine,
        old(env)@,
        old(arg_array)@.len() as nat,
    );
    let mut i: usize = 0;
    proof {
        assert(nodes@.subrange(0, nodes@.len() as int) =~= nodes@);
        assert(vals_model(arg_array@).subrange(0, old(arg_array)@.len() as int) =~= vals_model(
            old(arg_array)@,
        ));
        assert(vals_model(arg_array@).subrange(
            old(arg_array)@.len() as int,
            arg_array@.len() as int,
        ) =~= Seq::<Val>::empty());
        assert(arg_sql@.subrange(old(arg_sql)@.len() as int, arg_sql@.len() as int)
            =~= Seq::<char>::empty());
        match full {
            Ok(o2) => {
                assert(Seq::<Val>::empty() + o2.args =~= o2.args);
                assert(Seq::<char>::empty() + o2.sql =~= o2.sql);
            },
            Err(_) => {},
        }
    }
    #[verifier::loop_isolation(false)]
    while i < nodes.len()
        invariant
            i <= nodes@.len(),
            old(arg_array)@.len() <= arg_array@.len(),
            old(arg_sql)@.len() <= arg_sql@.len(),
            vals_model(arg_array@).subrange(0, old(arg_array)@.len() as int) == vals_model(
                old(arg_array)@,
            ),
            arg_sql@.subrange(0, old(arg_sql)@.len() as int) == old(arg_sql)@,
            ({
                let rest = eval_nodes_spec(
                    nodes@.subrange(i as int, nodes@.len() as int),
                    *convert,
                    *engine,
                    env@,
                    arg_array@.len() as nat,
                );
                let argsd = vals_model(arg_array@).subrange(
                    old(arg_array)@.len() as int,
                    arg_array@.len() as int,
                );
                let sqld = arg_sql@.subrange(old(arg_sql)@.len() as int, arg_sql@.len() as int);
                match rest {
                    Ok(o2) => full == Ok::<SpecOut, SpecErr>(
                        SpecOut {
                            sig: o2.sig,
                            env: o2.env,
                            args: argsd + o2.args,
                            sql: sqld + o2.sql,
                        },
                    ),
                    Err(er) => full == Err::<SpecOut, SpecErr>(er),
                }
            }),
        decreases nodes@.len() - i,
    {
        proof {
            lemma_nodes_wf_elem(nodes@, i as int);
            assert(nodes@.subrange(i as int, nodes@.len() as int)[0] == nodes@[i as int]);
            assert(nodes@.subrange(i as int, nodes@.len() as int).drop_first() =~= nodes@.subrange(
                i + 1,
                nodes@.len() as int,
            ));
            lemma_nodes_spec_step(
                nodes@.subrange(i as int, nodes@.len() as int),
                *convert,
                *engine,
                env@,
                arg_array@.len() as nat,
            );
        }
        let ghost args_pre = arg_array@;
        let ghost sql_pre = arg_sql@;
        let ghost env_pre = env@;
        let ghost c1 = eval_node_spec(
            nodes@[i as int],
            *convert,
            *engine,
            env@,
            arg_array@.len() as nat,
        );
        let r1 = nodes[i].eval(convert, env, engine, arg_array, arg_sql);
        match r1 {
            Err(er) => {
                return Err(er);
            },
            Ok(sig) => {
                proof {
                    assert(c1 is Ok);
                    let o1 = c1->Ok_0;
                    assert(vals_model(arg_array@) == vals_model(args_pre) + o1.args);
                    assert(env@ == o1.env);
                    assert(arg_sql@ == sql_pre + o1.sql);
                    assert(vals_model(arg_array@).subrange(0, args_pre.len() as int) =~= vals_model(
                        args_pre,
                    ));
                    assert(vals_model(arg_array@).subrange(0, old(arg_array)@.len() as int)
                        =~= vals_model(args_pre).subrange(0, old(arg_array)@.len() as int));
                    assert(arg_sql@.subrange(0, sql_pre.len() as int) =~= sql_pre);
                    assert(arg_sql@.subrange(0, old(arg_sql)@.len() as int) =~= sql_pre.subrange(
                        0,
                        old(arg_sql)@.len() as int,
                    ));
                    let d1 = vals_model(args_pre).subrange(
                        old(arg_array)@.len() as int,
                        args_pre.len() as int,
                    );
                    let d2 = vals_model(arg_array@).subrange(
                        args_pre.len() as int,
                        arg_array@.len() as int,
                    );
                    assert(d2 =~= o1.args);
                    assert(vals_model(arg_array@).subrange(
                        old(arg_array)@.len() as int,
                        arg_array@.len() as int,
                    ) =~= d1 + d2);
                    assert(vals_model(args_pre) =~= vals_model(old(arg_array)@) + d1);
                    let s1 = sql_pre.subrange(old(arg_sql)@.len() as int, sql_pre.len() as int);
                    let s2 = arg_sql@.subrange(sql_pre.len() as int, arg_sql@.len() as int);
                    assert(s2 =~= o1.sql);
                    assert(arg_sql@.subrange(old(arg_sql)@.len() as int, arg_sql@.len() as int)
                        =~= s1 + s2);
                    assert(sql_pre =~= old(arg_sql)@ + s1);
                }
                match sig {
                    Signal::LoopNext => {
                        proof {
                            let o1 = c1->Ok_0;
                            let d1 = vals_model(args_pre).subrange(
                                old(arg_array)@.len() as int,
                                args_pre.len() as int,
                            );
                            assert(vals_model(arg_array@) =~= vals_model(old(arg_array)@) + (d1
                                + o1.args));
                            let s1 = sql_pre.subrange(
                                old(arg_sql)@.len() as int,
                                sql_pre.len() as int,
                            );
                            assert(arg_sql@ =~= old(arg_sql)@ + (s1 + o1.sql));
                        }
                        return Ok(Signal::LoopNext);
                    },
                    Signal::Value(v) => {
                        proof {
                            let rest2 = eval_nodes_spec(
                                nodes@.subrange(i + 1, nodes@.len() as int),
                                *convert,
                                *engine,
                                env@,
                                arg_array@.len() as nat,
                            );
                            let d1 = vals_model(args_pre).subrange(
                                old(arg_array)@.len() as int,
                                args_pre.len() as int,
                            );
                            let d2 = vals_model(arg_array@).subrange(
                                args_pre.len() as int,
                                arg_array@.len() as int,
                            );
                            let s1 = sql_pre.subrange(
                                old(arg_sql)@.len() as int,
                                sql_pre.len() as int,
                            );
                            let s2 = arg_sql@.subrange(sql_pre.len() as int, arg_sql@.len() as int);
                            match rest2 {
                                Ok(o2) => {
                                    assert((d1 + d2) + o2.args =~= d1 + (d2 + o2.args));
                                    assert((s1 + s2) + o2.sql =~= s1 + (s2 + o2.sql));
                                },
                                Err(_) => {},
                            }
                        }
                        i = i + 1;
                    },
                }
            },
        }
    }
    proof {
        assert(nodes@.subrange(nodes@.len() as int, nodes@.len() as int)
            =~= Seq::<NodeType>::empty());
        let argsd = vals_model(arg_array@).subrange(
            old(arg_array)@.len() as int,
            arg_array@.len() as int,
        );
        let sqld = arg_sql@.subrange(old(arg_sql)@.len() as int, arg_sql@.len() as int);
        assert(argsd + Seq::<Val>::empty() =~= argsd);
        assert(sqld + Seq::<char>::empty() =~= sqld);
        assert(vals_model(arg_array@) =~= vals_model(old(arg_array)@) + argsd);
        assert(arg_sql@ =~= old(arg_sql)@ + sqld);
    }
    Ok(Signal::Value(Value::Null))
}

/// Evaluates a node sequence in its own scope: environment keys the
/// children introduced are removed afterwards.
pub fn eval_nodes_scoped<C: StringConvert, E: ExprEngine>(
    nodes: &Vec<NodeType>,
    convert: &C,
    env: &mut Value,
    engine: &E,
    arg_array: &mut Vec<Value>,
    arg_sql: &mut String,
) -> (r: Result<Signal, EvalError>)
    requires
        nodes_wf(nodes@),
    ensures
        eval_matches(
            r,
            scoped_spec(nodes@, *convert, *engine, old(env)@, old(arg_array)@.len() as nat),
            final(env)@,
            old(arg_array)@,
            final(arg_array)@,
            old(arg_sql)@,
            final(arg_sql)@,
        ),
    decreases *nodes, 1nat,
{
    let is_obj = env_is_obj(env);
    let keys = env_keys(env);
    match eval_nodes(nodes, convert, env, engine, arg_array, arg_sql) {
        Err(er) => Err(er),
        Ok(sig) => {
            if is_obj {
                env_restore(env, &keys);
            }
            Ok(sig)
        },
    }
}

/// Walks a choice's branches in order: the first `when` whose test is
/// truthy is evaluated in its own scope; with no match, the default branch
/// runs if present.
#[verifier::rlimit(60)]
fn eval_choose<C: StringConvert, E: ExprEngine>(
    x: &ChooseNode,
    convert: &C,
    env: &mut Value,
    engine: &E,
    arg_array: &mut Vec<Value>,
    arg_sql: &mut String,
) -> (r: Result<Signal, EvalError>)
    requires
        node_wf(NodeType::NChoose(*x)),
    ensures
        eval_matches(
            r,
            eval_node_spec(
                NodeType::NChoose(*x),
                *convert,
                *engine,
                old(env)@,
                old(arg_array)@.len() as nat,
            ),
            final(env)@,
            old(arg_array)@,
            final(arg_array)@,
            old(arg_sql)@,
            final(arg_sql)@,
        ),
    decreases *x, 2nat,
{
    let ghost pos0 = old(arg_array)@.len() as nat;
    let mut k: usize = 0;
    #[verifier::loop_isolation(false)]
    while k < x.when_nodes.len()
        invariant
            k <= x.when_nodes@.len(),
            *env == *old(env),
            arg_array@ == old(arg_array)@,
            arg_sql@ == old(arg_sql)@,
            choose_spec(x.when_nodes@, 0, *convert, *engine, old(env)@, pos0) == choose_spec(
                x.when_nodes@,
                k as int,
                *convert,
                *engine,
                old(env)@,
                pos0,
            ),
        decreases x.when_nodes@.len() - k,
    {
        proof {
            lemma_nodes_wf_elem(x.when_nodes@, k as int);
            lemma_choose_spec_step(
                x.when_nodes@,
                k as int,
                *convert,
                *engine,
                old(env)@,
                pos0,
            );
        }
        match &x.when_nodes[k] {
            NodeType::NWhen(w) => {
                match engine.eval(w.test.as_str(), env) {
                    Err(m) => {
                        return Err(EvalError::Expr(m));
                    },
                    Ok(tv) => {
                        if tv.truthy() {
                            return eval_nodes_scoped(
                                &w.childs,
                                convert,
                                env,
                                engine,
                                arg_array,
                                arg_sql,
                            );
                        }
                    },
                }
            },
            _ => {
                return Err(EvalError::Structure("choose expects when branches".to_owned()));
            },
        }
        k = k + 1;
    }
    match &x.otherwise_node {
        None => {
            proof {
                assert(final(arg_sql)@ =~= old(arg_sql)@ + Seq::<char>::empty());
                assert(vals_model(final(arg_array)@) =~= vals_model(old(arg_array)@)
                    + Seq::<Val>::empty());
            }
            Ok(Signal::Value(Value::Null))
        },
        Some(b) => {
            proof {
                assert(node_wf(**b));
            }
            b.eval(convert, env, engine, arg_array, arg_sql)
        },
    }
}

/// Iterates a collection: per entry the item and index names are bound, the
/// children run in their own scope, kept outputs are joined with the
/// separator, and a non-empty collection's output is wrapped in the open
/// and close text. A loop-continuation signal drops that entry's output.
#[verifier::rlimit(100)]
fn eval_foreach<C: StringConvert, E: ExprEngine>(
    x: &ForEachNode,
    convert: &C,
    env: &mut Value,
    engine: &E,
    arg_array: &mut Vec<Value>,
    arg_sql: &mut String,
) -> (r: Result<Signal, EvalError>)
    requires
        node_wf(NodeType::NForEach(*x)),
    ensures
        eval_matches(
            r,
            eval_node_spec(
                NodeType::NForEach(*x),
                *convert,
                *engine,
                old(env)@,
                old(arg_array)@.len() as nat,
            ),
            final(env)@,
            old(arg_array)@,
            final(arg_array)@,
            old(arg_sql)@,
            final(arg_sql)@,
        ),
    decreases *x, 2nat,
{
    let ghost pos0 = old(arg_array)@.len() as nat;
    let cv = match engine.eval(x.collection.as_str(), env) {
        Ok(v) => v,
        Err(m) => {
            return Err(EvalError::Expr(m));
        },
    };
    let mut entries: Vec<(Value, Value)> = Vec::new();
    match &cv {
        Value::Arr(items) => {
            if items.len() as u64 > 0x7fff_ffff_ffff_ffffu64 {
                return Err(
                    EvalError::Structure("foreach expects an array or object collection".to_owned()),
                );
            }
            let mut t: usize = 0;
            #[verifier::loop_isolation(false)]
            while t < items.len()
                invariant
                    t <= items@.len(),
                    items@.len() <= 0x7fff_ffff_ffff_ffff,
                    entries@.len() == t,
                    forall|j: int|
                        0 <= j < t ==> (#[trigger] entries@[j]).0@ == Val::Int(j) && entries@[j].1@
                            == vals_model(items@)[j],
                decreases items@.len() - t,
            {
                entries.push((Value::Int(t as i64), items[t].duplicate()));
                t = t + 1;
            }
        },
        Value::Obj(fields) => {
            let mut t: usize = 0;
            #[verifier::loop_isolation(false)]
            while t < fields.len()
                invariant
                    t <= fields@.len(),
                    entries@.len() == t,
                    forall|j: int|
                        0 <= j < t ==> (#[trigger] entries@[j]).0@ == Val::Str(
                            fields_model(fields@)[j].0,
                        ) && entries@[j].1@ == fields_model(fields@)[j].1,
                decreases fields@.len() - t,
            {
                entries.push((Value::Str(fields[t].0.clone()), fields[t].1.duplicate()));
                t = t + 1;
            }
        },
        _ => {
            return Err(
                EvalError::Structure("foreach expects an array or object collection".to_owned()),
            );
        },
    }
    let ghost sentries = spec_entries(cv@)->Some_0;
    proof {
        assert(spec_entries(cv@) is Some);
        assert(entries@.len() == sentries.len());
        assert(forall|j: int|
            0 <= j < entries@.len() ==> (#[trigger] entries@[j]).0@ == sentries[j].0
                && entries@[j].1@ == sentries[j].1);
    }
    let prior_item = env_get(env, x.item.as_str());
    let prior_index = env_get(env, x.index.as_str());
    let ghost fullfe = foreach_spec(
        x.childs@,
        sentries,
        0,
        x.item@,
        x.index@,
        x.separator@,
        *convert,
        *engine,
        old(env)@,
        pos0,
        false,
    );
    let mut joined = String::new();
    let mut started = false;
    let mut k: usize = 0;
    proof {
        assert(vals_model(arg_array@).subrange(0, old(arg_array)@.len() as int) =~= vals_model(
            old(arg_array)@,
        ));
        assert(vals_model(arg_array@).subrange(
            old(arg_array)@.len() as int,
            arg_array@.len() as int,
        ) =~= Seq::<Val>::empty());
        match fullfe {
            Ok(p) => {
                assert(joined@ + p.0 =~= p.0);
                assert(Seq::<Val>::empty() + p.1 =~= p.1);
            },
            Err(_) => {},
        }
    }
    #[verifier::loop_isolation(false)]
    while k < entries.len()
        invariant
            k <= entries@.len(),
            old(arg_array)@.len() <= arg_array@.len(),
            vals_model(arg_array@).subrange(0, old(arg_array)@.len() as int) == vals_model(
                old(arg_array)@,
            ),
            arg_sql@ == old(arg_sql)@,
            ({
                let rest = foreach_spec(
                    x.childs@,
                    sentries,
                    k as int,
                    x.item@,
                    x.index@,
                    x.separator@,
                    *convert,
                    *engine,
                    env@,
                    arg_array@.len() as nat,
                    started,
                );
                let argsd = vals_model(arg_array@).subrange(
                    old(arg_array)@.len() as int,
                    arg_array@.len() as int,
                );
                match rest {
                    Ok(p) => fullfe == Ok::<(Seq<char>, Seq<Val>, Val), SpecErr>(
                        (joined@ + p.0, argsd + p.1, p.2),
                    ),
                    Err(er) => fullfe == Err::<(Seq<char>, Seq<Val>, Val), SpecErr>(er),
                }
            }),
        decreases entries@.len() - k,
    {
        let ghost env_k = env@;
        let ghost nk = arg_array@.len() as nat;
        let ghost started_k = started;
        let ghost joined_k = joined@;
        proof {
            lemma_foreach_spec_step(
                x.childs@,
                sentries,
                k as int,
                x.item@,
                x.index@,
                x.separator@,
                *convert,
                *engine,
                env_k,
                nk,
                started_k,
            );
        }
        let item_v = entries[k].1.duplicate();
        let idx_v = entries[k].0.duplicate();
        proof {
            assert(item_v@ == sentries[k as int].1);
            assert(idx_v@ == sentries[k as int].0);
        }
        if !env_set(env, x.item.as_str(), item_v) {
            return Err(EvalError::Structure("foreach needs an object environment".to_owned()));
        }
        if !env_set(env, x.index.as_str(), idx_v) {
            return Err(EvalError::Structure("foreach needs an object environment".to_owned()));
        }
        let n_before = arg_array.len();
        let ghost args_pre = arg_array@;
        let ghost cs = scoped_spec(x.childs@, *convert, *engine, env@, nk);
        let mut inner = String::new();
        match eval_nodes_scoped(&x.childs, convert, env, engine, arg_array, &mut inner) {
            Err(er) => {
                return Err(er);
            },
            Ok(sig) => {
                proof {
                    assert(cs is Ok);
                    assert(vals_model(arg_array@).subrange(0, args_pre.len() as int) =~= vals_model(
                        args_pre,
                    ));
                }
                match sig {
                    Signal::LoopNext => {
                        arg_array.truncate(n_before);
                        proof {
                            let o = cs->Ok_0;
                            assert(o.sig == SpecSig::LoopNext);
                            assert(vals_model(arg_array@) =~= vals_model(args_pre));
                            assert(vals_model(arg_array@).subrange(
                                0,
                                old(arg_array)@.len() as int,
                            ) =~= vals_model(old(arg_array)@));
                            assert(env@ == o.env);
                        }
                    },
                    Signal::Value(v) => {
                        if started {
                            joined.append(x.separator.as_str());
                        }
                        joined.append(inner.as_str());
                        proof {
                            let o = cs->Ok_0;
                            assert(o.sig is Value);
                            assert(env@ == o.env);
                            assert(vals_model(arg_array@) == vals_model(args_pre) + o.args);
                            let d1 = vals_model(args_pre).subrange(
                                old(arg_array)@.len() as int,
                                args_pre.len() as int,
                            );
                            let d2 = vals_model(arg_array@).subrange(
                                args_pre.len() as int,
                                arg_array@.len() as int,
                            );
                            assert(d2 =~= o.args);
                            assert(vals_model(arg_array@).subrange(
                                old(arg_array)@.len() as int,
                                arg_array@.len() as int,
                            ) =~= d1 + d2);
                            assert(inner@ == o.sql);
                            if started_k {
                                assert(joined@ =~= joined_k + (x.separator@ + o.sql));
                            } else {
                                assert(joined@ =~= joined_k + o.sql);
                            }
                            let rest2 = foreach_spec(
                                x.childs@,
                                sentries,
                                k + 1,
                                x.item@,
                                x.index@,
                                x.separator@,
                                *convert,
                                *engine,
                                env@,
                                arg_array@.len() as nat,
                                true,
                            );
                            match rest2 {
                                Ok(p) => {
                                    assert((d1 + d2) + p.1 =~= d1 + (d2 + p.1));
                                    if started_k {
                                        assert(joined_k + ((x.separator@ + o.sql) + p.0)
                                            =~= (joined_k + (x.separator@ + o.sql)) + p.0);
                                    } else {
                                        assert(joined_k + (o.sql + p.0) =~= (joined_k
                                            + o.sql) + p.0);
                                    }
                                },
                                Err(_) => {},
                            }
                        }
                        started = true;
                    },
                }
            },
        }
        k = k + 1;
    }
    proof {
        let argsd = vals_model(arg_array@).subrange(
            old(arg_array)@.len() as int,
            arg_array@.len() as int,
        );
        match fullfe {
            Ok(p) => {
                assert(joined@ + Seq::<char>::empty() =~= joined@);
                assert(argsd + Seq::<Val>::empty() =~= argsd);
            },
            Err(_) => {},
        }
    }
    put_back(env, x.item.as_str(), prior_item);
    put_back(env, x.index.as_str(), prior_index);
    if entries.len() > 0 {
        arg_sql.append(x.open_text.as_str());
        arg_sql.append(joined.as_str());
        arg_sql.append(x.close_text.as_str());
        proof {
            assert(final(arg_sql)@ =~= old(arg_sql)@ + (x.open_text@ + joined@ + x.close_text@));
        }
    } else {
        proof {
            assert(final(arg_sql)@ =~= old(arg_sql)@ + Seq::<char>::empty());
        }
    }
    proof {
        assert(vals_model(final(arg_array)@) =~= vals_model(old(arg_array)@) + vals_model(
            final(arg_array)@,
        ).subrange(old(arg_array)@.len() as int, final(arg_array)@.len() as int));
    }
    Ok(Signal::Value(Value::Null))
}

/// Evaluates a whole tree: the top-level node sequence, depth first, left
/// to right. A loop-continuation signal reaching the top is a structural
/// error; otherwise the accumulators hold the call's SQL text and ordered
/// argument values exactly as the spec interpreter gives them.
pub fn eval_tree<C: StringConvert, E: ExprEngine>(
    nodes: &Vec<NodeType>,
    convert: &C,
    env: &mut Value,
    engine: &E,
    arg_array: &mut Vec<Value>,
    arg_sql: &mut String,
) -> (r: Result<Value, EvalError>)
    requires
        nodes_wf(nodes@),
    ensures
        match eval_nodes_spec(
            nodes@,
            *convert,
            *engine,
            old(env)@,
            old(arg_array)@.len() as nat,
        ) {
            Ok(o) => match o.sig {
                SpecSig::Value(v) => r is Ok && r->Ok_0@ == v && final(env)@ == o.env
                    && vals_model(final(arg_array)@) == vals_model(old(arg_array)@) + o.args
                    && final(arg_sql)@ == old(arg_sql)@ + o.sql,
                SpecSig::LoopNext => r is Err && r->Err_0@ == SpecErr::Structure(
                    "continue used outside of iteration"@,
                ),
            },
            Err(se) => r is Err && r->Err_0@ == se,
        },
{
    match eval_nodes(nodes, convert, env, engine, arg_array, arg_sql) {
        Err(er) => Err(er),
        Ok(sig) => match sig {
            Signal::Value(v) => Ok(v),
            Signal::LoopNext => Err(
                EvalError::Structure("continue used outside of iteration".to_owned()),
            ),
        },
    }
}

} // verus!
