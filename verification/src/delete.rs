//! Delete-statement builders: the skeleton `DELETE FROM .. where ..` (or its
//! logic-delete `UPDATE .. SET ..` form) filled from a result-map
//! description and a caller argument rendered as SQL value text.

use vstd::prelude::*;

use crate::strutil::{i64_str, spec_int_str, spec_replace, replace_all};
use crate::value::{fields_model, vals_model, Val, Value};

verus! {

/// A logic-delete column: deleting sets this column to the given value
/// instead of removing the row.
pub struct LogicDeleteNode {
    pub column: String,
    pub logic_deleted: String,
}

/// What a result map tells the delete builder: the table name and the
/// logic-delete column, when one is configured.
pub struct ResultMapNode {
    pub table: Option<String>,
    pub delete_node: Option<LogicDeleteNode>,
}

/// SQL value text of an argument: strings quoted with single quotes,
/// numbers and booleans and null spelled out, arrays as a parenthesized
/// comma-separated list, objects as `key = value` pairs joined with ` AND `.
pub open spec fn spec_sql_value(v: Val) -> Seq<char>
    decreases v, 0nat,
{
    match v {
        Val::Null => "null"@,
        Val::Bool(b) => if b {
            "true"@
        } else {
            "false"@
        },
        Val::Int(i) => spec_int_str(i),
        Val::Str(s) => seq!['\''] + s + seq!['\''],
        Val::Arr(items) => seq!['('] + spec_sql_values(items) + seq![')'],
        Val::Obj(fields) => spec_sql_pairs(fields),
    }
}

/// Comma-separated SQL value texts.
pub open spec fn spec_sql_values(items: Seq<Val>) -> Seq<char>
    decreases items, 1nat,
{
    if items.len() == 0 {
        Seq::empty()
    } else if items.len() == 1 {
        spec_sql_value(items.last())
    } else {
        spec_sql_values(items.drop_last()) + seq![','] + spec_sql_value(items.last())
    }
}

/// `key = value` pairs joined with ` AND `.
pub open spec fn spec_sql_pairs(fields: Seq<(Seq<char>, Val)>) -> Seq<char>
    decreases fields, 1nat,
{
    if fields.len() == 0 {
        Seq::empty()
    } else {
        let f = fields.last();
        let one = f.0 + " = "@ + spec_sql_value(f.1);
        if fields.len() == 1 {
            one
        } else {
            spec_sql_pairs(fields.drop_last()) + " AND "@ + one
        }
    }
}

/// Renders an argument as SQL value text.
pub fn sql_value_of(v: &Value) -> (r: String)
    ensures
        r@ == spec_sql_value(v@),
    decreases *v,
{
    match v {
        Value::Null => {
            let r = "null".to_owned();
            r
        },
        Value::Bool(b) => {
            if *b {
                "true".to_owned()
            } else {
                "false".to_owned()
            }
        },
        Value::Int(i) => i64_str(*i),
        Value::Str(s) => {
            proof {
                reveal_strlit("'");
            }
            let mut out = "'".to_owned();
            out.append(s.as_str());
            out.append("'");
            proof {
                assert(out@ =~= spec_sql_value(v@));
            }
            out
        },
        Value::Arr(items) => {
            proof {
                reveal_strlit("(");
                reveal_strlit(")");
                reveal_strlit(",");
            }
            let ghost m = vals_model(items@);
            let mut out = "(".to_owned();
            let mut i: usize = 0;
            proof {
                assert(out@ =~= seq!['('] + spec_sql_values(m.subrange(0, 0)));
            }
            #[verifier::loop_isolation(false)]
            while i < items.len()
                invariant
                    i <= items.len(),
                    m == vals_model(items@),
                    out@ == seq!['('] + spec_sql_values(m.subrange(0, i as int)),
                decreases items.len() - i,
            {
                if i > 0 {
                    out.append(",");
                }
                let piece = sql_value_of(&items[i]);
                out.append(piece.as_str());
                proof {
                    assert(m.subrange(0, i + 1).drop_last() =~= m.subrange(0, i as int));
                    assert(m.subrange(0, i + 1).last() == m[i as int]);
                    assert(out@ =~= seq!['('] + spec_sql_values(m.subrange(0, i + 1)));
                }
                i = i + 1;
            }
            out.append(")");
            proof {
                assert(m.subrange(0, m.len() as int) =~= m);
                assert(out@ =~= spec_sql_value(v@));
            }
            out
        },
        Value::Obj(fields) => {
            let ghost m = fields_model(fields@);
            let mut out = String::new();
            let mut i: usize = 0;
            proof {
                assert(out@ =~= spec_sql_pairs(m.subrange(0, 0)));
            }
            #[verifier::loop_isolation(false)]
            while i < fields.len()
                invariant
                    i <= fields.len(),
                    m == fields_model(fields@),
                    out@ == spec_sql_pairs(m.subrange(0, i as int)),
                decreases fields.len() - i,
            {
                if i > 0 {
                    out.append(" AND ");
                }
                out.append(fields[i].0.as_str());
                out.append(" = ");
                let piece = sql_value_of(&fields[i].1);
                out.append(piece.as_str());
                proof {
                    assert(m.subrange(0, i + 1).drop_last() =~= m.subrange(0, i as int));
                    assert(m.subrange(0, i + 1).last() == m[i as int]);
                    assert(out@ =~= spec_sql_pairs(m.subrange(0, i + 1)));
                }
                i = i + 1;
            }
            proof {
                assert(m.subrange(0, m.len() as int) =~= m);
                assert(out@ =~= spec_sql_value(v@));
            }
            out
        },
    }
}

/// The delete statement built from a result map and finished where text:
/// the table name fills the skeleton; a configured logic-delete column
/// turns the statement into an update that sets it.
pub open spec fn spec_do_delete_by(node_table: Option<Seq<char>>, node_logic: Option<
    (Seq<char>, Seq<char>),
>, where_str: Seq<char>) -> Result<Seq<char>, Seq<char>> {
    match node_table {
        None => Err("[rbatis]  can not find table defin in <result_map>!"@),
        Some(table) => {
            let base = spec_replace("DELETE FROM #{table} #{set} where #{where}"@, "#{table}"@, table);
            let with_set = match node_logic {
                Some(l) => spec_replace(
                    spec_replace(base, "DELETE FROM"@, "UPDATE"@),
                    "#{set}"@,
                    "SET "@ + l.0 + " = "@ + l.1,
                ),
                None => spec_replace(base, "#{set}"@, Seq::empty()),
            };
            Ok(spec_replace(with_set, "#{where}"@, where_str))
        },
    }
}

/// The where text a delete argument produces: `id = v` for a scalar,
/// `id in (..)` for an array, the rendered conditions for an object.
pub open spec fn spec_delete_where(argv: Val) -> Seq<char> {
    match argv {
        Val::Arr(_) => "id in "@ + spec_sql_value(argv),
        Val::Obj(_) => spec_sql_value(argv),
        _ => "id = "@ + spec_sql_value(argv),
    }
}

/// The outcome of a delete against a found result map: null and boolean
/// arguments are rejected, every other shape fills the statement skeleton.
pub open spec fn spec_delete_outcome(
    node_table: Option<Seq<char>>,
    node_logic: Option<(Seq<char>, Seq<char>)>,
    argv: Val,
) -> Result<Seq<char>, Seq<char>> {
    match argv {
        Val::Null => Err("[rbatis] arg is null value"@),
        Val::Bool(_) => Err("[rbatis] not support arg type value: "@ + spec_sql_value(argv)),
        _ => spec_do_delete_by(node_table, node_logic, spec_delete_where(argv)),
    }
}

/// The table part of a result map's model.
pub open spec fn spec_node_table(n: ResultMapNode) -> Option<Seq<char>> {
    match n.table {
        Some(t) => Some(t@),
        None => None,
    }
}

/// The logic-delete part of a result map's model.
pub open spec fn spec_node_logic(n: ResultMapNode) -> Option<(Seq<char>, Seq<char>)> {
    match n.delete_node {
        Some(l) => Some((l.column@, l.logic_deleted@)),
        None => None,
    }
}

/// A registry of result maps, each under its mapper name and identifier.
pub struct Rbatis {
    pub mappers: Vec<(String, String, ResultMapNode)>,
}

/// Position of the first registered result map under the given mapper name
/// and identifier.
pub open spec fn spec_find_mapper(
    ms: Seq<(String, String, ResultMapNode)>,
    mapper_name: Seq<char>,
    id: Seq<char>,
) -> Option<int>
    decreases ms.len(),
{
    if ms.len() == 0 {
        None
    } else if ms[0].0@ == mapper_name && ms[0].1@ == id {
        Some(0)
    } else {
        match spec_find_mapper(ms.drop_first(), mapper_name, id) {
            None => None,
            Some(i) => Some(i + 1),
        }
    }
}

/// A hit at `i` with no earlier hit pins the find position.
pub proof fn lemma_find_mapper_at(
    ms: Seq<(String, String, ResultMapNode)>,
    mapper_name: Seq<char>,
    id: Seq<char>,
    i: int,
)
    requires
        0 <= i < ms.len(),
        ms[i].0@ == mapper_name && ms[i].1@ == id,
        forall|j: int| 0 <= j < i ==> !((#[trigger] ms[j]).0@ == mapper_name && ms[j].1@ == id),
    ensures
        spec_find_mapper(ms, mapper_name, id) == Some(i),
    decreases ms.len(),
{
    if i > 0 {
        lemma_find_mapper_at(ms.drop_first(), mapper_name, id, i - 1);
        assert(forall|j: int| 0 <= j < ms.len() - 1 ==> ms.drop_first()[j] == ms[j + 1]);
    }
}

/// With no hit anywhere there is no find position.
pub proof fn lemma_find_mapper_none(
    ms: Seq<(String, String, ResultMapNode)>,
    mapper_name: Seq<char>,
    id: Seq<char>,
)
    requires
        forall|j: int|
            0 <= j < ms.len() ==> !((#[trigger] ms[j]).0@ == mapper_name && ms[j].1@ == id),
    ensures
        spec_find_mapper(ms, mapper_name, id) is None,
    decreases ms.len(),
{
    if ms.len() > 0 {
        assert(forall|j: int| 0 <= j < ms.len() - 1 ==> ms.drop_first()[j] == ms[j + 1]);
        lemma_find_mapper_none(ms.drop_first(), mapper_name, id);
    }
}

impl Rbatis {
    /// An empty registry.
    pub fn new() -> (r: Rbatis)
        ensures
            r.mappers@.len() == 0,
    {
        Rbatis { mappers: Vec::new() }
    }

    /// Registers a result map under a mapper name and identifier.
    pub fn load_result_map(&mut self, mapper_name: &str, id: &str, node: ResultMapNode)
        ensures
            final(self).mappers@.len() == old(self).mappers@.len() + 1,
            final(self).mappers@.subrange(0, old(self).mappers@.len() as int) == old(self).mappers@,
            final(self).mappers@.last().0@ == mapper_name@,
            final(self).mappers@.last().1@ == id@,
            final(self).mappers@.last().2 == node,
    {
        self.mappers.push((mapper_name.to_owned(), id.to_owned(), node));
        proof {
            assert(final(self).mappers@.subrange(0, old(self).mappers@.len() as int)
                =~= old(self).mappers@);
        }
    }

    /// The registered result map under the given mapper name and
    /// identifier; an error when none is registered.
    fn get_result_map_node(&self, mapper_name: &str, id: &str) -> (r: Result<
        &ResultMapNode,
        String,
    >)
        ensures
            match (r, spec_find_mapper(self.mappers@, mapper_name@, id@)) {
                (Ok(n), Some(i)) => *n == self.mappers@[i].2,
                (Err(m), None) => m@ == "[rbatis] result_map_node not found"@,
                _ => false,
            },
    {
        let ghost ms = self.mappers@;
        let mut i: usize = 0;
        proof {
            assert(ms.subrange(0, ms.len() as int) =~= ms);
        }
        #[verifier::loop_isolation(false)]
        while i < self.mappers.len()
            invariant
                i <= ms.len(),
                forall|j: int|
                    0 <= j < i ==> !((#[trigger] ms[j]).0@ == mapper_name@ && ms[j].1@ == id@),
            decreases ms.len() - i,
        {
            if crate::value::str_eq(self.mappers[i].0.as_str(), mapper_name) && crate::value::str_eq(
                self.mappers[i].1.as_str(),
                id,
            ) {
                proof {
                    lemma_find_mapper_at(ms, mapper_name@, id@, i as int);
                }
                return Ok(&self.mappers[i].2);
            }
            i = i + 1;
        }
        proof {
            lemma_find_mapper_none(ms, mapper_name@, id@);
        }
        Err("[rbatis] result_map_node not found".to_owned())
    }

    /// The basic delete statement frame.
    fn do_delete_by(&mut self, result_map_node: &ResultMapNode, where_str: &str) -> (r: Result<
        String,
        String,
    >)
        ensures
            match (
                r,
                spec_do_delete_by(
                    match result_map_node.table {
                        Some(t) => Some(t@),
                        None => None,
                    },
                    match result_map_node.delete_node {
                        Some(l) => Some((l.column@, l.logic_deleted@)),
                        None => None,
                    },
                    where_str@,
                ),
            ) {
                (Ok(s), Ok(ss)) => s@ == ss,
                (Err(m), Err(mm)) => m@ == mm,
                _ => false,
            },
    {
        match &result_map_node.table {
            None => Err("[rbatis]  can not find table defin in <result_map>!".to_owned()),
            Some(table) => {
                proof {
                    reveal_strlit("#{table}");
                    reveal_strlit("#{set}");
                    reveal_strlit("#{where}");
                    reveal_strlit("DELETE FROM");
                    reveal_strlit("UPDATE");
                }
                let sql = replace_all(
                    "DELETE FROM #{table} #{set} where #{where}",
                    "#{table}",
                    table.as_str(),
                );
                let sql2: String = match &result_map_node.delete_node {
                    Some(l) => {
                        let upd = replace_all(sql.as_str(), "DELETE FROM", "UPDATE");
                        let mut set_text = "SET ".to_owned();
                        set_text.append(l.column.as_str());
                        set_text.append(" = ");
                        set_text.append(l.logic_deleted.as_str());
                        replace_all(upd.as_str(), "#{set}", set_text.as_str())
                    },
                    None => {
                        proof {
                            reveal_strlit("");
                            assert(""@ =~= Seq::<char>::empty());
                        }
                        replace_all(sql.as_str(), "#{set}", "")
                    },
                };
                Ok(replace_all(sql2.as_str(), "#{where}", where_str))
            },
        }
    }

    /// The where clause of a delete by a single identifier.
    fn do_delete_by_id_where(&mut self, env: &Value) -> (r: Result<String, String>)
        ensures
            r is Ok && r->Ok_0@ == "id = "@ + spec_sql_value(env@),
    {
        let mut where_str = "id = ".to_owned();
        let v = sql_value_of(env);
        where_str.append(v.as_str());
        Ok(where_str)
    }

    /// The where clause of a delete by a list of identifiers.
    fn do_delete_by_ids_where(&mut self, env: &Value) -> (r: Result<String, String>)
        ensures
            r is Ok && r->Ok_0@ == "id in "@ + spec_sql_value(env@),
    {
        let mut where_str = "id in ".to_owned();
        let v = sql_value_of(env);
        where_str.append(v.as_str());
        Ok(where_str)
    }

    /// The where clause of a delete by a map of column conditions.
    fn do_delete_by_map_where(&mut self, env: &Value) -> (r: Result<String, String>)
        ensures
            r is Ok && r->Ok_0@ == spec_sql_value(env@),
    {
        Ok(sql_value_of(env))
    }

    /// Builds the delete statement for the result map registered under the
    /// given mapper name and identifier: a null argument is rejected first;
    /// then a string or number deletes by identifier, an array by an
    /// identifier list, an object by column conditions, and any other shape
    /// is rejected.
    pub fn delete(&mut self, mapper_name: &str, id: &str, arg: &Value) -> (r: Result<
        String,
        String,
    >)
        ensures
            arg@ is Null ==> r is Err && r->Err_0@ == "[rbatis] arg is null value"@,
            !(arg@ is Null) ==> match spec_find_mapper(old(self).mappers@, mapper_name@, id@) {
                None => r is Err && r->Err_0@ == "[rbatis] result_map_node not found"@,
                Some(i) => {
                    let node = old(self).mappers@[i].2;
                    match (
                        r,
                        spec_delete_outcome(spec_node_table(node), spec_node_logic(node), arg@),
                    ) {
                        (Ok(sql), Ok(ss)) => sql@ == ss,
                        (Err(m), Err(mm)) => m@ == mm,
                        _ => false,
                    }
                },
            },
    {
        match arg {
            Value::Null => {
                return Err("[rbatis] arg is null value".to_owned());
            },
            _ => {},
        }
        let node: ResultMapNode = match self.get_result_map_node(mapper_name, id) {
            Err(e) => {
                return Err(e);
            },
            Ok(found) => ResultMapNode {
                table: match &found.table {
                    Some(t) => Some(t.clone()),
                    None => None,
                },
                delete_node: match &found.delete_node {
                    Some(l) => Some(
                        LogicDeleteNode {
                            column: l.column.clone(),
                            logic_deleted: l.logic_deleted.clone(),
                        },
                    ),
                    None => None,
                },
            },
        };
        match arg {
            Value::Null => Err("[rbatis] arg is null value".to_owned()),
            Value::Str(_) | Value::Int(_) => {
                let where_str = match self.do_delete_by_id_where(arg) {
                    Ok(w) => w,
                    Err(e) => {
                        return Err(e);
                    },
                };
                self.do_delete_by(&node, where_str.as_str())
            },
            Value::Arr(_) => {
                let where_str = match self.do_delete_by_ids_where(arg) {
                    Ok(w) => w,
                    Err(e) => {
                        return Err(e);
                    },
                };
                self.do_delete_by(&node, where_str.as_str())
            },
            Value::Obj(_) => {
                let where_str = match self.do_delete_by_map_where(arg) {
                    Ok(w) => w,
                    Err(e) => {
                        return Err(e);
                    },
                };
                self.do_delete_by(&node, where_str.as_str())
            },
            Value::Bool(_) => {
                let mut m = "[rbatis] not support arg type value: ".to_owned();
                let v = sql_value_of(arg);
                m.append(v.as_str());
                Err(m)
            },
        }
    }
}

} // verus!
