//! Canonical text form of values: the compact JSON-like rendering used when
//! a text-splice token is replaced by a non-string value.

use vstd::prelude::*;

use crate::strutil::{i64_str, spec_int_str};
use crate::value::{vals_model, fields_model, Val, Value};

verus! {

/// Escape of one character inside a quoted string.
pub open spec fn spec_escape_char(c: char) -> Seq<char> {
    if c == '"' {
        seq!['\\', '"']
    } else if c == '\\' {
        seq!['\\', '\\']
    } else {
        seq![c]
    }
}

/// Escape of a whole string body, character by character.
pub open spec fn spec_escape(s: Seq<char>) -> Seq<char>
    decreases s.len(),
{
    if s.len() == 0 {
        s
    } else {
        spec_escape(s.drop_last()) + spec_escape_char(s.last())
    }
}

/// Canonical text of a value: `null`, `true`/`false`, decimal integers,
/// quoted and escaped strings, and bracketed comma-separated sequences.
pub open spec fn spec_text(v: Val) -> Seq<char>
    decreases v, 0nat,
{
    match v {
        Val::Null => seq!['n', 'u', 'l', 'l'],
        Val::Bool(b) => if b {
            seq!['t', 'r', 'u', 'e']
        } else {
            seq!['f', 'a', 'l', 's', 'e']
        },
        Val::Int(i) => spec_int_str(i),
        Val::Str(s) => seq!['"'] + spec_escape(s) + seq!['"'],
        Val::Arr(items) => seq!['['] + spec_text_items(items) + seq![']'],
        Val::Obj(fields) => seq!['{'] + spec_text_fields(fields) + seq!['}'],
    }
}

/// Comma-separated canonical texts of a sequence of values.
pub open spec fn spec_text_items(items: Seq<Val>) -> Seq<char>
    decreases items, items.len(),
{
    if items.len() == 0 {
        Seq::empty()
    } else if items.len() == 1 {
        spec_text(items.last())
    } else {
        spec_text_items(items.drop_last()) + seq![','] + spec_text(items.last())
    }
}

/// Comma-separated `"key":value` renderings of object fields.
pub open spec fn spec_text_fields(fields: Seq<(Seq<char>, Val)>) -> Seq<char>
    decreases fields, fields.len(),
{
    if fields.len() == 0 {
        Seq::empty()
    } else {
        let f = fields.last();
        let one = seq!['"'] + spec_escape(f.0) + seq!['"', ':'] + spec_text(f.1);
        if fields.len() == 1 {
            one
        } else {
            spec_text_fields(fields.drop_last()) + seq![','] + one
        }
    }
}

/// What a text-splice token is replaced by: strings verbatim, anything else
/// in canonical text form.
pub open spec fn spec_splice_text(v: Val) -> Seq<char> {
    match v {
        Val::Str(s) => s,
        _ => spec_text(v),
    }
}

fn push_escaped(out: &mut String, s: &str)
    ensures
        final(out)@ == old(out)@ + spec_escape(s@),
{
    let slen = s.unicode_len();
    let mut i: usize = 0;
    proof {
        assert(s@.subrange(0, 0) =~= Seq::<char>::empty());
        assert(old(out)@ + spec_escape(s@.subrange(0, 0)) =~= old(out)@);
    }
    #[verifier::loop_isolation(false)]
    while i < slen
        invariant
            i <= slen,
            out@ == old(out)@ + spec_escape(s@.subrange(0, i as int)),
        decreases slen - i,
    {
        let c = s.get_char(i);
        if c == '"' {
            proof {
                reveal_strlit("\\\"");
            }
            out.append("\\\"");
        } else if c == '\\' {
            proof {
                reveal_strlit("\\\\");
            }
            out.append("\\\\");
        } else {
            out.append(s.substring_char(i, i + 1));
        }
        proof {
            assert(s@.subrange(0, i + 1).drop_last() =~= s@.subrange(0, i as int));
            assert(s@.subrange(0, i + 1).last() == s@[i as int]);
            assert(s@.subrange(i as int, i + 1) =~= seq![s@[i as int]]);
            assert(out@ =~= old(out)@ + spec_escape(s@.subrange(0, i + 1)));
        }
        i = i + 1;
    }
    proof {
        assert(s@.subrange(0, slen as int) =~= s@);
    }
}

/// Canonical text of a value.
pub fn canonical_text(v: &Value) -> (r: String)
    ensures
        r@ == spec_text(v@),
    decreases v,
{
    match v {
        Value::Null => {
            proof {
                reveal_strlit("null");
            }
            let r = "null".to_owned();
            proof {
                assert(r@ =~= spec_text(v@));
            }
            r
        },
        Value::Bool(b) => {
            if *b {
                proof {
                    reveal_strlit("true");
                }
                let r = "true".to_owned();
                proof {
                    assert(r@ =~= spec_text(v@));
                }
                r
            } else {
                proof {
                    reveal_strlit("false");
                }
                let r = "false".to_owned();
                proof {
                    assert(r@ =~= spec_text(v@));
                }
                r
            }
        },
        Value::Int(i) => i64_str(*i),
        Value::Str(s) => {
            proof {
                reveal_strlit("\"");
            }
            let mut out = String::new();
            out.append("\"");
            push_escaped(&mut out, s.as_str());
            out.append("\"");
            proof {
                assert(out@ =~= spec_text(v@));
            }
            out
        },
        Value::Arr(items) => {
            proof {
                reveal_strlit("[");
                reveal_strlit("]");
                reveal_strlit(",");
            }
            let ghost m = vals_model(items@);
            let mut out = String::new();
            out.append("[");
            let mut i: usize = 0;
            proof {
                assert(out@ =~= seq!['['] + spec_text_items(m.subrange(0, 0)));
            }
            #[verifier::loop_isolation(false)]
            while i < items.len()
                invariant
                    i <= items.len(),
                    m == vals_model(items@),
                    out@ == seq!['['] + spec_text_items(m.subrange(0, i as int)),
                decreases items.len() - i,
            {
                if i > 0 {
                    out.append(",");
                }
                let piece = canonical_text(&items[i]);
                out.append(piece.as_str());
                proof {
                    assert(m.subrange(0, i + 1).drop_last() =~= m.subrange(0, i as int));
                    assert(m.subrange(0, i + 1).last() == m[i as int]);
                    assert(out@ =~= seq!['['] + spec_text_items(m.subrange(0, i + 1)));
                }
                i = i + 1;
            }
            out.append("]");
            proof {
                assert(m.subrange(0, m.len() as int) =~= m);
                assert(out@ =~= spec_text(v@));
            }
            out
        },
        Value::Obj(fields) => {
            proof {
                reveal_strlit("{");
                reveal_strlit("}");
                reveal_strlit(",");
                reveal_strlit("\"");
                reveal_strlit(":");
            }
            let ghost m = fields_model(fields@);
            let mut out = String::new();
            out.append("{");
            let mut i: usize = 0;
            proof {
                assert(out@ =~= seq!['{'] + spec_text_fields(m.subrange(0, 0)));
            }
            #[verifier::loop_isolation(false)]
            while i < fields.len()
                invariant
                    i <= fields.len(),
                    m == fields_model(fields@),
                    out@ == seq!['{'] + spec_text_fields(m.subrange(0, i as int)),
                decreases fields.len() - i,
            {
                if i > 0 {
                    out.append(",");
                }
                out.append("\"");
                push_escaped(&mut out, fields[i].0.as_str());
                out.append("\"");
                out.append(":");
                let piece = canonical_text(&fields[i].1);
                out.append(piece.as_str());
                proof {
                    assert(m.subrange(0, i + 1).drop_last() =~= m.subrange(0, i as int));
                    assert(m.subrange(0, i + 1).last() == m[i as int]);
                    assert(out@ =~= seq!['{'] + spec_text_fields(m.subrange(0, i + 1)));
                }
                i = i + 1;
            }
            out.append("}");
            proof {
                assert(m.subrange(0, m.len() as int) =~= m);
                assert(out@ =~= spec_text(v@));
            }
            out
        },
    }
}

/// Text a splice token is replaced by: strings verbatim, other values in
/// their canonical text form.
pub fn splice_text(v: &Value) -> (r: String)
    ensures
        r@ == spec_splice_text(v@),
{
    match v {
        Value::Str(s) => s.clone(),
        _ => canonical_text(v),
    }
}

} // verus!
