//! Key selection and SQL rendering: the extracted descriptors are
//! sorted by their order field read as an integer, the first column
//! becomes the sort key, and the whole statement is rendered as text.

use vstd::prelude::*;
use vstd::multiset::Multiset;
use vstd::string::*;
use crate::num::{is_i32_numeral, numeral_val, parse_i32};
use crate::row::{render_row, Row, RowV};

verus! {

broadcast use vstd::seq_lib::group_to_multiset_ensures;

/// Why no key column could be selected.
#[derive(Clone, Copy, Debug, PartialEq, Eq, Structural)]
pub enum KeyError {
    /// The report yielded no descriptors at all.
    Empty,
    /// Some descriptor's order field does not read as an integer.
    BadOrder,
}

/// Whether every order field reads as a 32-bit integer.
pub open spec fn all_orders_numeric(rows: Seq<RowV>) -> bool {
    forall|i: int| 0 <= i < rows.len() ==> is_i32_numeral((#[trigger] rows[i]).order)
}

/// Whether the rows stand in ascending order of their order fields.
pub open spec fn sorted_by_order(rows: Seq<RowV>) -> bool {
    forall|i: int, j: int|
        0 <= i < j < rows.len() ==> numeral_val((#[trigger] rows[i]).order) <= numeral_val(
            (#[trigger] rows[j]).order,
        )
}

/// Sorts the descriptors ascending by their order fields read as
/// integers, so that the first of the result names the key column.
/// Fails on an empty sequence, or where an order field is not an
/// integer.
pub fn order_rows(rows: Vec<Row>) -> (r: Result<Vec<Row>, KeyError>)
    ensures
        match r {
            Ok(sorted) => {
                &&& rows@.len() > 0
                &&& all_orders_numeric(rows.deep_view())
                &&& sorted@.len() == rows@.len()
                &&& sorted@.to_multiset() == rows@.to_multiset()
                &&& sorted_by_order(sorted.deep_view())
            },
            Err(e) => {
                &&& e == KeyError::Empty <==> rows@.len() == 0
                &&& e == KeyError::BadOrder <==> rows@.len() > 0 && !all_orders_numeric(
                    rows.deep_view(),
                )
            },
        },
{
    let ghost orig = rows@;
    if rows.len() == 0 {
        return Err(KeyError::Empty);
    }
    let n = rows.len();
    for i in 0..n
        invariant
            n == rows.len(),
            forall|j: int| 0 <= j < i ==> is_i32_numeral((#[trigger] rows.deep_view()[j]).order),
    {
        if parse_i32(rows[i].order().as_str()).is_none() {
            proof {
                assert(!is_i32_numeral(rows.deep_view()[i as int].order));
            }
            return Err(KeyError::BadOrder);
        }
    }
    let mut rest = rows;
    let mut out: Vec<Row> = Vec::new();
    proof {
        assert(out@.to_multiset().add(rest@.to_multiset()) =~= orig.to_multiset());
    }
    while rest.len() > 0
        invariant
            out@.len() + rest@.len() == orig.len(),
            out@.to_multiset().add(rest@.to_multiset()) == orig.to_multiset(),
            all_orders_numeric(rest.deep_view()),
            sorted_by_order(out.deep_view()),
            forall|a: int, b: int|
                0 <= a < out@.len() && 0 <= b < rest@.len() ==> numeral_val(
                    (#[trigger] out.deep_view()[a]).order,
                ) <= numeral_val((#[trigger] rest.deep_view()[b]).order),
        decreases rest@.len(),
    {
        let mut m: usize = 0;
        proof {
            assert(rest.deep_view()[0] == rest@[0]@);
        }
        let mut mv = parse_i32(rest[0].order().as_str()).unwrap();
        let k = rest.len();
        for j in 1..k
            invariant
                k == rest.len(),
                rest@.len() > 0,
                m < j <= k,
                all_orders_numeric(rest.deep_view()),
                mv == numeral_val(rest.deep_view()[m as int].order),
                forall|b: int|
                    0 <= b < j ==> mv <= numeral_val((#[trigger] rest.deep_view()[b]).order),
        {
            proof {
                assert(rest.deep_view()[j as int] == rest@[j as int]@);
            }
            let jv = parse_i32(rest[j].order().as_str()).unwrap();
            if jv < mv {
                m = j;
                mv = jv;
            }
        }
        let ghost old_out = out@;
        let ghost old_rest = rest@;
        let ghost old_dv = rest.deep_view();
        let ghost old_out_dv = out.deep_view();
        let x = rest.remove(m);
        out.push(x);
        proof {
            old_rest.remove_ensures(m as int);
            assert(old_rest.contains(old_rest[m as int]));
            assert(old_rest.to_multiset().count(x) > 0);
            assert(out@ == old_out.push(x));
            assert(rest@ == old_rest.remove(m as int));
            assert(out@.to_multiset().add(rest@.to_multiset()) =~= orig.to_multiset());
            assert(x@ == old_dv[m as int]);
            assert forall|b: int| 0 <= b < rest@.len() implies numeral_val(
                (#[trigger] rest.deep_view()[b]).order,
            ) >= mv && is_i32_numeral(rest.deep_view()[b].order) by {
                if b < m {
                    assert(rest@[b] == old_rest[b]);
                    assert(rest.deep_view()[b] == old_dv[b]);
                } else {
                    assert(rest@[b] == old_rest[b + 1]);
                    assert(rest.deep_view()[b] == old_dv[b + 1]);
                }
            }
            assert(all_orders_numeric(rest.deep_view()));
            assert forall|a: int| 0 <= a < out@.len() implies numeral_val(
                (#[trigger] out.deep_view()[a]).order,
            ) <= mv by {
                if a < old_out.len() {
                    assert(out.deep_view()[a] == old_out_dv[a]);
                    assert(numeral_val(old_out_dv[a].order) <= numeral_val(old_dv[m as int].order));
                } else {
                    assert(out.deep_view()[a] == x@);
                }
            }
            assert forall|a: int, b: int|
                0 <= a < b < out.deep_view().len() implies numeral_val(
                (#[trigger] out.deep_view()[a]).order,
            ) <= numeral_val((#[trigger] out.deep_view()[b]).order) by {
                if b < old_out.len() {
                    assert(out.deep_view()[a] == old_out_dv[a]);
                    assert(out.deep_view()[b] == old_out_dv[b]);
                } else {
                    assert(out.deep_view()[b] == x@);
                    assert(out.deep_view()[a] == old_out_dv[a]);
                    assert(numeral_val(old_out_dv[a].order) <= numeral_val(old_dv[m as int].order));
                }
            }
            assert(sorted_by_order(out.deep_view()));
        }
    }
    proof {
        assert(rest@ =~= Seq::<Row>::empty());
        assert(rest@.to_multiset().len() == 0);
        assert(rest@.to_multiset() =~= Multiset::<Row>::empty());
        assert(out@.to_multiset() =~= orig.to_multiset());
    }
    Ok(out)
}

/// The column lines of the statement, one per descriptor, each
/// indented with a tab and closed with a line feed: the first `k`
/// descriptors' worth.
pub open spec fn render_columns(rows: Seq<RowV>, k: int) -> Seq<char>
    decreases k,
{
    if k <= 0 {
        Seq::empty()
    } else {
        render_columns(rows, k - 1) + "\t"@ + render_row(rows[k - 1]) + "\n"@
    }
}

/// The full statement: a `DROP TABLE` guard, the `CREATE TABLE` with
/// every column line, and the `SORTKEY` clause naming the key column.
pub open spec fn spec_render_sql(table: Seq<char>, rows: Seq<RowV>, key: Seq<char>) -> Seq<char> {
    "DROP TABLE IF EXISTS "@ + table + ";\n"@ + "CREATE TABLE "@ + table + " (\n"@
        + render_columns(rows, rows.len() as int) + ")\n"@ + "SORTKEY("@ + key + ");\n"@
}

/// Renders the whole SQL statement for the given table name, column
/// descriptors (in their final order) and key column name.
pub fn render_sql(table: &str, rows: &Vec<Row>, key: &str) -> (r: String)
    ensures
        r@ == spec_render_sql(table@, rows.deep_view(), key@),
{
    let ghost dv = rows.deep_view();
    let mut r = String::from_str("DROP TABLE IF EXISTS ");
    r.append(table);
    r.append(";\n");
    r.append("CREATE TABLE ");
    r.append(table);
    r.append(" (\n");
    let ghost head = r@;
    proof {
        assert(head + render_columns(dv, 0) =~= head);
    }
    let n = rows.len();
    for k in 0..n
        invariant
            n == rows.len(),
            dv == rows.deep_view(),
            r@ == head + render_columns(dv, k as int),
    {
        r.append("\t");
        let line = rows[k].string();
        r.append(line.as_str());
        r.append("\n");
        proof {
            assert(rows[k as int]@ == dv[k as int]);
            assert(r@ =~= head + render_columns(dv, k + 1));
        }
    }
    r.append(")\n");
    r.append("SORTKEY(");
    r.append(key);
    r.append(");\n");
    proof {
        assert(r@ =~= spec_render_sql(table@, dv, key@));
    }
    r
}

} // verus!
