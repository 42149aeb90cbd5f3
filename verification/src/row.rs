//! One row of the variable table: a validated column descriptor, built
//! from the whitespace tokens of a report line, and its SQL rendering.

use vstd::prelude::*;
use vstd::string::*;
use crate::text::{lower_seq, lower_str, str_eq};

verus! {

/// The abstract value of a [`Row`]: the four fields as character
/// sequences.
pub struct RowV {
    pub order: Seq<char>,
    pub variable: Seq<char>,
    pub vartype: Seq<char>,
    pub length: Seq<char>,
}

impl RowV {
    /// The construction invariant: the SQL type is one of the two
    /// recognized ones.
    pub open spec fn wf(self) -> bool {
        self.vartype == "varchar"@ || self.vartype == "int"@
    }
}

/// Why a candidate line is not a column descriptor.
#[derive(Clone, Copy, Debug, PartialEq, Eq, Structural)]
pub enum ParseError {
    /// Fewer than four tokens were supplied.
    InsufficientFields,
    /// The type tag is neither `char` nor `num`, case-folded.
    UnrecognizedType,
}

/// The descriptor a token sequence parses to, if any: at least four
/// tokens, the order and name case-folded, the type tag mapped through
/// `char -> varchar`, `num -> int`, the length taken verbatim.
pub open spec fn parse_row_spec(toks: Seq<Seq<char>>) -> Option<RowV> {
    if toks.len() < 4 {
        None
    } else {
        let tag = lower_seq(toks[2]);
        if tag == "char"@ {
            Some(
                RowV {
                    order: lower_seq(toks[0]),
                    variable: lower_seq(toks[1]),
                    vartype: "varchar"@,
                    length: toks[3],
                },
            )
        } else if tag == "num"@ {
            Some(
                RowV {
                    order: lower_seq(toks[0]),
                    variable: lower_seq(toks[1]),
                    vartype: "int"@,
                    length: toks[3],
                },
            )
        } else {
            None
        }
    }
}

/// The textual form a descriptor renders as: the name, the SQL type
/// with the length parenthesized for a character column, and a
/// trailing comma.
pub open spec fn render_row(rv: RowV) -> Seq<char> {
    if rv.vartype == "varchar"@ {
        rv.variable + " "@ + rv.vartype + "("@ + rv.length + ")"@ + ","@
    } else {
        rv.variable + " "@ + rv.vartype + ","@
    }
}

/// One validated column descriptor.
pub struct Row {
    order: String,
    variable: String,
    vartype: String,
    length: String,
}

impl View for Row {
    type V = RowV;

    closed spec fn view(&self) -> RowV {
        RowV {
            order: self.order@,
            variable: self.variable@,
            vartype: self.vartype@,
            length: self.length@,
        }
    }
}

impl DeepView for Row {
    type V = RowV;

    open spec fn deep_view(&self) -> RowV {
        self.view()
    }
}

impl Row {
    /// Builds a descriptor from the whitespace tokens of one line, or
    /// says why the line is not a column.
    pub fn new(fields: Vec<&str>) -> (r: Result<Row, ParseError>)
        ensures
            ({
                let p = parse_row_spec(fields.deep_view());
                &&& r is Ok <==> p is Some
                &&& r is Ok ==> r->Ok_0@ == p->Some_0 && r->Ok_0@.wf()
                &&& fields@.len() < 4 ==> r == Err::<Row, ParseError>(ParseError::InsufficientFields)
                &&& fields@.len() >= 4 && p is None ==> r == Err::<Row, ParseError>(
                    ParseError::UnrecognizedType,
                )
            }),
    {
        if fields.len() < 4 {
            return Err(ParseError::InsufficientFields);
        }
        let tag = lower_str(fields[2]);
        let vartype: &'static str = if str_eq(tag.as_str(), "char") {
            "varchar"
        } else if str_eq(tag.as_str(), "num") {
            "int"
        } else {
            return Err(ParseError::UnrecognizedType);
        };
        let order = lower_str(fields[0]);
        let variable = lower_str(fields[1]);
        let length = String::from_str(fields[3]);
        Ok(Row { order, variable, vartype: String::from_str(vartype), length })
    }

    /// Renders the descriptor as one line of a column list:
    /// `<name> varchar(<length>),` for a character column, else
    /// `<name> int,`.
    pub fn string(&self) -> (r: String)
        ensures
            r@ == render_row(self@),
    {
        let mut r = String::from_str(self.variable.as_str());
        r.append(" ");
        r.append(self.vartype.as_str());
        if str_eq(self.vartype.as_str(), "varchar") {
            r.append("(");
            r.append(self.length.as_str());
            r.append(")");
        }
        r.append(",");
        proof {
            assert(r@ =~= render_row(self@));
        }
        r
    }

    /// The declared order field, case-folded.
    pub fn order(&self) -> (r: &String)
        ensures
            r@ == self@.order,
    {
        &self.order
    }

    /// The column name, case-folded.
    pub fn variable(&self) -> (r: &String)
        ensures
            r@ == self@.variable,
    {
        &self.variable
    }
}

} // verus!
