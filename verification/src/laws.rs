//! Laws of the evaluation contract, stated and proved over the spec
//! interpreter that every executable node is proved to match.

use vstd::prelude::*;

use crate::eval::{
    eval_node_spec, scoped_spec, spec_entries, string_node_spec, SpecOut,
};
use crate::node::{
    BindNode, ExprEngine, ForEachNode, IfNode, NodeType, SpecErr, SpecSig, StringConvert,
};
use crate::value::{
    lemma_find_key, spec_env_get, spec_env_set, spec_fields_get, spec_fields_set, spec_find_key,
    spec_truthy, Val,
};

verus! {

/// The binding keys of the value-binding tokens of a literal node's token
/// walk, in left-to-right order.
pub open spec fn hash_keys(ts: Seq<(Seq<char>, Seq<char>)>) -> Seq<Seq<char>>
    decreases ts.len(),
{
    if ts.len() == 0 {
        Seq::empty()
    } else {
        let rest = hash_keys(ts.drop_first());
        if ts[0].0.len() > 0 && ts[0].1.len() > 0 && ts[0].1[0] == '#' {
            seq![ts[0].0] + rest
        } else {
            rest
        }
    }
}

/// What a binding key resolves to: the environment's value when the key is
/// bound, else the expression engine's answer.
pub open spec fn spec_resolve<E: ExprEngine>(e: E, env: Val, key: Seq<char>) -> Result<
    Val,
    Seq<char>,
> {
    match spec_env_get(env, key) {
        Some(v) => Ok(v),
        None => e.spec_eval(key, env),
    }
}

/// LAW (literal node): a successful literal-node walk appends exactly one
/// argument value per value-binding token, in the tokens' left-to-right
/// order, each the resolution of that token's key — the same order in which
/// the walk splices one placeholder text per value-binding token.
pub proof fn lemma_literal_args_in_order<C: StringConvert, E: ExprEngine>(
    ts: Seq<(Seq<char>, Seq<char>)>,
    w: Seq<char>,
    c: C,
    e: E,
    env: Val,
    pos: nat,
)
    requires
        string_node_spec(ts, w, c, e, env, pos) is Ok,
    ensures
        ({
            let args = string_node_spec(ts, w, c, e, env, pos)->Ok_0.1;
            &&& args.len() == hash_keys(ts).len()
            &&& forall|k: int|
                0 <= k < args.len() ==> spec_resolve(e, env, hash_keys(ts)[k]) == Ok::<
                    Val,
                    Seq<char>,
                >(#[trigger] args[k])
        }),
    decreases ts.len(),
{
    if ts.len() > 0 {
        let key = ts[0].0;
        let tok = ts[0].1;
        if key.len() == 0 {
            lemma_literal_args_in_order(
                ts.drop_first(),
                crate::strutil::spec_replace(w, tok, Seq::empty()),
                c,
                e,
                env,
                pos,
            );
        } else if tok.len() > 0 && tok[0] == '#' {
            let w2 = crate::strutil::spec_replace(w, tok, c.spec_convert(pos));
            lemma_literal_args_in_order(ts.drop_first(), w2, c, e, env, pos + 1);
            let v = spec_resolve(e, env, key)->Ok_0;
            let rest_args = string_node_spec(ts.drop_first(), w2, c, e, env, pos + 1)->Ok_0.1;
            let args = string_node_spec(ts, w, c, e, env, pos)->Ok_0.1;
            assert(args == seq![v] + rest_args);
            assert(hash_keys(ts) == seq![key] + hash_keys(ts.drop_first()));
            assert forall|k: int|
                0 <= k < args.len() implies spec_resolve(e, env, hash_keys(ts)[k]) == Ok::<
                Val,
                Seq<char>,
            >(#[trigger] args[k]) by {
                if k == 0 {
                    assert(args[0] == v);
                    assert(hash_keys(ts)[0] == key);
                } else {
                    assert(args[k] == rest_args[k - 1]);
                    assert(hash_keys(ts)[k] == hash_keys(ts.drop_first())[k - 1]);
                }
            }
        } else {
            let v = spec_resolve(e, env, key)->Ok_0;
            lemma_literal_args_in_order(
                ts.drop_first(),
                crate::strutil::spec_replace(w, tok, crate::text::spec_splice_text(v)),
                c,
                e,
                env,
                pos,
            );
        }
    }
}

/// LAW (conditional): with a truthy test, a conditional node's outcome is
/// exactly its children's scoped outcome — included once; with a falsy
/// test, nothing is appended to either accumulator and the environment is
/// unchanged.
pub proof fn lemma_conditional_includes_once<C: StringConvert, E: ExprEngine>(
    x: IfNode,
    c: C,
    e: E,
    env: Val,
    pos: nat,
)
    requires
        e.spec_eval(x.test@, env) is Ok,
    ensures
        spec_truthy(e.spec_eval(x.test@, env)->Ok_0) ==> eval_node_spec(
            NodeType::NIf(x),
            c,
            e,
            env,
            pos,
        ) == scoped_spec(x.childs@, c, e, env, pos),
        !spec_truthy(e.spec_eval(x.test@, env)->Ok_0) ==> eval_node_spec(
            NodeType::NIf(x),
            c,
            e,
            env,
            pos,
        ) == Ok::<SpecOut, SpecErr>(
            SpecOut {
                sig: SpecSig::Value(Val::Null),
                env,
                args: Seq::empty(),
                sql: Seq::empty(),
            },
        ),
{
}

/// Binding a key and looking it up gives back exactly the bound value.
pub proof fn lemma_env_set_get(env: Val, key: Seq<char>, v: Val)
    requires
        env is Obj,
    ensures
        spec_env_set(env, key, v) is Some,
        spec_env_get(spec_env_set(env, key, v)->Some_0, key) == Some(v),
{
    let fs = env->Obj_0;
    let fs2 = spec_fields_set(fs, key, v);
    lemma_find_key(fs, key);
    lemma_find_key(fs2, key);
    match spec_find_key(fs, key) {
        Some(i) => {
            assert(fs2 == fs.update(i, (key, v)));
            assert(fs2[i].0 == key);
            match spec_find_key(fs2, key) {
                Some(i2) => {
                    if i2 < i {
                        assert(fs2[i2] == fs[i2]);
                    }
                    assert(i2 == i);
                    assert(spec_fields_get(fs2, key) == Some(v));
                },
                None => {
                    assert(false);
                },
            }
        },
        None => {
            assert(fs2 == fs.push((key, v)));
            assert(fs2[fs.len() as int].0 == key);
            match spec_find_key(fs2, key) {
                Some(i2) => {
                    if i2 < fs.len() {
                        assert(fs2[i2] == fs[i2]);
                    }
                    assert(i2 == fs.len());
                    assert(spec_fields_get(fs2, key) == Some(v));
                },
                None => {
                    assert(false);
                },
            }
        },
    }
}

/// LAW (bind): a successful bind appends nothing to either accumulator and
/// leaves an environment in which the bound name is mapped to exactly the
/// expression's value — a following sibling that reads the name observes
/// the computed value without any re-evaluation.
pub proof fn lemma_bind_makes_value_visible<C: StringConvert, E: ExprEngine>(
    x: BindNode,
    c: C,
    e: E,
    env: Val,
    pos: nat,
)
    requires
        e.spec_eval(x.value@, env) is Ok,
        env is Obj,
    ensures
        eval_node_spec(NodeType::NBind(x), c, e, env, pos) is Ok,
        ({
            let o = eval_node_spec(NodeType::NBind(x), c, e, env, pos)->Ok_0;
            &&& o.args.len() == 0
            &&& o.sql.len() == 0
            &&& spec_env_get(o.env, x.name@) == Some(e.spec_eval(x.value@, env)->Ok_0)
        }),
{
    let v = e.spec_eval(x.value@, env)->Ok_0;
    lemma_env_set_get(env, x.name@, v);
}

/// LAW (iteration): a collection with no entries contributes nothing — the
/// node appends no text and no argument values.
pub proof fn lemma_foreach_empty_contributes_nothing<C: StringConvert, E: ExprEngine>(
    x: ForEachNode,
    c: C,
    e: E,
    env: Val,
    pos: nat,
)
    requires
        e.spec_eval(x.collection@, env) is Ok,
        spec_entries(e.spec_eval(x.collection@, env)->Ok_0) == Some(Seq::<(Val, Val)>::empty()),
    ensures
        eval_node_spec(NodeType::NForEach(x), c, e, env, pos) is Ok,
        eval_node_spec(NodeType::NForEach(x), c, e, env, pos)->Ok_0.args.len() == 0,
        eval_node_spec(NodeType::NForEach(x), c, e, env, pos)->Ok_0.sql.len() == 0,
{
    reveal_with_fuel(crate::eval::foreach_spec, 2);
    assert(crate::eval::foreach_spec(
        x.childs@,
        Seq::<(Val, Val)>::empty(),
        0,
        x.item@,
        x.index@,
        x.separator@,
        c,
        e,
        env,
        pos,
        false,
    ) == Ok::<(Seq<char>, Seq<Val>, Val), SpecErr>((Seq::empty(), Seq::empty(), env)));
}

} // verus!
