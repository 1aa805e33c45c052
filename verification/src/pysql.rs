//! The decisions behind the generated data-access functions: which
//! executor call a generated body makes, and which of a function's
//! arguments are bound into the SQL argument map.

use vstd::prelude::*;

use crate::strutil::{spec_find, find_str, strs_model};
use crate::value::str_eq;

verus! {

/// `pat` occurs somewhere in `s`.
pub open spec fn spec_contains(s: Seq<char>, pat: Seq<char>) -> bool {
    spec_find(s, pat, 0) is Some
}

/// Whether `pat` occurs somewhere in `s`.
pub fn contains_str(s: &str, pat: &str) -> (r: bool)
    ensures
        r == spec_contains(s@, pat@),
{
    match find_str(s, pat, 0) {
        Some(_) => true,
        None => false,
    }
}

/// The call a generated function body makes with the prepared SQL.
#[derive(Debug, PartialEq, Eq, Structural)]
pub enum CallKind {
    Fetch,
    Exec,
    FetchPage,
}

/// Which executor call a generated body makes: a paged fetch when the
/// return type mentions `Page <` and the arguments mention `& PageRequest`;
/// otherwise a fetch for fetching statements and an exec for the rest.
pub open spec fn spec_call_kind(is_fetch: bool, return_ty: Seq<char>, func_args: Seq<char>) -> CallKind {
    if spec_contains(return_ty, "Page <"@) && spec_contains(func_args, "& PageRequest"@) {
        CallKind::FetchPage
    } else if is_fetch {
        CallKind::Fetch
    } else {
        CallKind::Exec
    }
}

/// Decides the executor call for a generated body.
pub fn py_sql_call_kind(is_fetch: bool, return_ty: &str, func_args: &str) -> (r: CallKind)
    ensures
        r == spec_call_kind(is_fetch, return_ty@, func_args@),
{
    if contains_str(return_ty, "Page <") && contains_str(func_args, "& PageRequest") {
        CallKind::FetchPage
    } else if is_fetch {
        CallKind::Fetch
    } else {
        CallKind::Exec
    }
}

/// The argument names bound into the SQL argument map: every name but the
/// one naming the executor itself.
pub open spec fn spec_kept_args(names: Seq<Seq<char>>, rbatis_name: Seq<char>) -> Seq<Seq<char>> {
    names.filter(|n: Seq<char>| n != rbatis_name)
}

/// The context identifier among the argument names: the last name equal to
/// `ctx_id`, `context_id` or `tx_id` that does not name the executor.
pub open spec fn spec_context_id(names: Seq<Seq<char>>, rbatis_name: Seq<char>) -> Option<
    Seq<char>,
>
    decreases names.len(),
{
    if names.len() == 0 {
        None
    } else {
        let n = names.last();
        if n != rbatis_name && (n == "ctx_id"@ || n == "context_id"@ || n == "tx_id"@) {
            Some(n)
        } else {
            spec_context_id(names.drop_last(), rbatis_name)
        }
    }
}

/// Splits a generated function's argument names into those bound into the
/// SQL argument map (all but the executor's own name, in order) and the
/// context identifier, if one is named.
pub fn filter_args_context_id(rbatis_name: &str, fn_arg_name_vec: &Vec<String>) -> (r: (
    Vec<String>,
    Option<String>,
))
    ensures
        strs_model(r.0@) == spec_kept_args(strs_model(fn_arg_name_vec@), rbatis_name@),
        match r.1 {
            Some(c) => spec_context_id(strs_model(fn_arg_name_vec@), rbatis_name@) == Some(c@),
            None => spec_context_id(strs_model(fn_arg_name_vec@), rbatis_name@) is None,
        },
{
    let ghost nm = strs_model(fn_arg_name_vec@);
    let ghost pred = |n: Seq<char>| n != rbatis_name@;
    let mut kept: Vec<String> = Vec::new();
    let mut ctx: Option<String> = None;
    let mut i: usize = 0;
    proof {
        reveal(Seq::filter);
        assert(nm.subrange(0, 0) =~= Seq::<Seq<char>>::empty());
        assert(strs_model(kept@) =~= nm.subrange(0, 0).filter(pred));
    }
    #[verifier::loop_isolation(false)]
    while i < fn_arg_name_vec.len()
        invariant
            i <= fn_arg_name_vec@.len(),
            strs_model(kept@) == nm.subrange(0, i as int).filter(pred),
            match ctx {
                Some(c) => spec_context_id(nm.subrange(0, i as int), rbatis_name@) == Some(c@),
                None => spec_context_id(nm.subrange(0, i as int), rbatis_name@) is None,
            },
        decreases fn_arg_name_vec@.len() - i,
    {
        let item = &fn_arg_name_vec[i];
        proof {
            reveal(Seq::filter);
            assert(nm.subrange(0, i + 1).drop_last() =~= nm.subrange(0, i as int));
            assert(nm.subrange(0, i + 1).last() == nm[i as int]);
        }
        if str_eq(item.as_str(), rbatis_name) {
            proof {
                assert(strs_model(kept@) =~= nm.subrange(0, i + 1).filter(pred));
            }
            i = i + 1;
            continue ;
        }
        if str_eq(item.as_str(), "ctx_id") || str_eq(item.as_str(), "context_id") || str_eq(
            item.as_str(),
            "tx_id",
        ) {
            proof {
                reveal_strlit("ctx_id");
                reveal_strlit("context_id");
                reveal_strlit("tx_id");
            }
            ctx = Some(item.clone());
        }
        let ghost kept0 = kept@;
        kept.push(item.clone());
        proof {
            assert(strs_model(kept@) =~= strs_model(kept0).push(nm[i as int]));
            assert(strs_model(kept@) =~= nm.subrange(0, i + 1).filter(pred));
        }
        i = i + 1;
    }
    proof {
        assert(nm.subrange(0, nm.len() as int) =~= nm);
    }
    (kept, ctx)
}

} // verus!
