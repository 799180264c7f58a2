use vstd::prelude::*;
use vstd::string::StringExecFns;

use crate::common::{decimal_text, int_text, joined, replace_all, replace_text};

verus! {

/// A value written into the text of an SQL query.
#[derive(Debug, Clone)]
pub enum SqlValue {
    Text(String),
    Integer(i32),
}

/// A value as SQL text: text quoted, with its quotes doubled so that it
/// cannot end the literal; an integer in decimal.
pub open spec fn sql_literal(v: SqlValue) -> Seq<char> {
    match v {
        SqlValue::Text(t) => "'"@ + replace_all(t@, "'"@, "''"@) + "'"@,
        SqlValue::Integer(n) => decimal_text(n as int),
    }
}

pub open spec fn sql_literals(values: Seq<SqlValue>) -> Seq<Seq<char>> {
    values.map_values(|v: SqlValue| sql_literal(v))
}

pub fn opt_to_sql_value(opt_value: Option<&SqlValue>) -> (r: String)
    ensures
        r@ == match opt_value {
            Some(v) => sql_literal(*v),
            None => "null"@,
        },
{
    match opt_value {
        Some(SqlValue::Text(t)) => {
            proof {
                reveal_strlit("'");
            }
            let mut text = String::from_str("'");
            let escaped = replace_text(t.as_str(), "'", "''");
            text.append(escaped.as_str());
            text.append("'");
            text
        },
        Some(SqlValue::Integer(n)) => int_text(*n),
        None => String::from_str("null"),
    }
}

pub fn to_sql_value(value: &SqlValue) -> (r: String)
    ensures
        r@ == sql_literal(*value),
{
    opt_to_sql_value(Some(value))
}

/// The condition that `field` is one of `values`.
pub fn in_qry(field: &str, values: &Vec<SqlValue>) -> (r: String)
    ensures
        r@ == field@ + " IN ("@ + joined(sql_literals(values@), ","@) + ")"@,
{
    let ghost parts = sql_literals(values@);
    let mut list = String::new();
    let n = values.len();
    for i in 0..n
        invariant
            n == values@.len(),
            parts == sql_literals(values@),
            list@ == joined(parts.take(i as int), ","@),
    {
        if i > 0 {
            list.append(",");
        }
        let part = to_sql_value(&values[i]);
        list.append(part.as_str());
        proof {
            assert(parts.take(i + 1).drop_last() =~= parts.take(i as int));
            if i == 0 {
                assert(list@ =~= joined(parts.take(1), ","@));
            } else {
                assert(list@ =~= joined(parts.take(i as int), ","@) + ","@ + parts[i as int]);
            }
        }
    }
    proof {
        assert(parts.take(n as int) =~= parts);
    }
    let mut text = String::from_str(field);
    text.append(" IN (");
    text.append(list.as_str());
    text.append(")");
    text
}

} // verus!
