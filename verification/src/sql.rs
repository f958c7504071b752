//! Conditions and assignments of the statements that are sent to the database: how
//! they are written down, and what they mean for a row.

use vstd::prelude::*;
use vstd::string::*;

use crate::db::RowView;
use crate::ids::MemoryId;
use crate::json::JsonView;
use crate::text::{self, concat2, concat3, concat5, integer_of, join};
use crate::time::Timestamp;

verus! {

/// An expression. Operators, functions, columns and constants are kept by their words.
#[derive(Debug, PartialEq, Eq)]
pub enum Expr {
    /// A column or a constant.
    Word(&'static str),
    /// A parameter, counted from one.
    Param(i32),
    /// An operator before its operand.
    Before(&'static str, Box<Expr>),
    /// An operator between its operands.
    Between(Box<Expr>, &'static str, Box<Expr>),
    /// An operator behind its operand.
    Behind(Box<Expr>, &'static str),
    /// A change of type.
    Cast(Box<Expr>, &'static str),
    /// An expression in brackets.
    Brackets(Box<Expr>),
    /// A function of one argument.
    Call(&'static str, Box<Expr>),
    /// A function of two arguments.
    Call2(&'static str, Box<Expr>, Box<Expr>),
}

/// How an expression is written down.
pub open spec fn written(e: Expr) -> Seq<char>
    decreases e,
{
    match e {
        Expr::Word(w) => w@,
        Expr::Param(n) => "$"@ + text::integer(n as int),
        Expr::Before(op, a) => op@ + " "@ + written(*a),
        Expr::Between(a, op, b) => written(*a) + " "@ + op@ + " "@ + written(*b),
        Expr::Behind(a, op) => written(*a) + " "@ + op@,
        Expr::Cast(a, t) => written(*a) + "::"@ + t@,
        Expr::Brackets(a) => "("@ + written(*a) + ")"@,
        Expr::Call(f, a) => f@ + "("@ + written(*a) + ")"@,
        Expr::Call2(f, a, b) => f@ + "("@ + written(*a) + ", "@ + written(*b) + ")"@,
    }
}

impl Expr {
    /// The expression as it is written down.
    pub fn write(&self) -> (r: String)
        ensures
            r@ == written(*self),
        decreases self,
    {
        match self {
            Expr::Word(w) => (*w).to_owned(),
            Expr::Param(n) => concat2("$", integer_of(*n as i64).as_str()),
            Expr::Before(op, a) => concat3(op, " ", a.write().as_str()),
            Expr::Between(a, op, b) => concat5(
                a.write().as_str(),
                " ",
                op,
                " ",
                b.write().as_str(),
            ),
            Expr::Behind(a, op) => concat3(a.write().as_str(), " ", op),
            Expr::Cast(a, t) => concat3(a.write().as_str(), "::", t),
            Expr::Brackets(a) => concat3("(", a.write().as_str(), ")"),
            Expr::Call(f, a) => {
                let mut r = (*f).to_owned();
                r.append("(");
                r.append(a.write().as_str());
                r.append(")");
                r
            },
            Expr::Call2(f, a, b) => {
                let mut r = (*f).to_owned();
                r.append("(");
                r.append(a.write().as_str());
                r.append(", ");
                r.append(b.write().as_str());
                r.append(")");
                r
            },
        }
    }
}

// ---- Meaning --------------------------------------------------------------------------

/// A value. Numbers are in hundredths where they stand for a share of one.
pub enum Value {
    Null,
    Bool(bool),
    Number(int),
    Text(Seq<char>),
    Texts(Seq<Seq<char>>),
    /// Any one of the texts.
    AnyOf(Seq<Seq<char>>),
    Id(MemoryId),
    Time(Timestamp),
    Json(JsonView),
    Vector,
}

/// What an expression speaks of.
pub struct Context {
    pub row: RowView,
    /// The confidence of the row in hundredths, where it has one.
    pub confidence: Option<int>,
    /// How far the row is from the query, in hundredths.
    pub distance: int,
    /// The values of the parameters.
    pub params: Seq<Value>,
    /// Whether the first JSON value contains the second.
    pub contains: spec_fn(JsonView, JsonView) -> bool,
}

/// The value of an optional JSON value.
pub open spec fn json_or_null(j: Option<JsonView>) -> Value {
    match j {
        Some(j) => Value::Json(j),
        None => Value::Null,
    }
}

/// The value of a word: that of the column of the row, or that of the constant.
pub open spec fn word_value(w: Seq<char>, c: Context) -> Value {
    if w == "profile"@ {
        Value::Text(c.row.profile)
    } else if w == "id"@ {
        Value::Id(c.row.id)
    } else if w == "memory_type"@ {
        Value::Text(c.row.memory_type)
    } else if w == "tags"@ {
        Value::Texts(c.row.tags)
    } else if w == "external_refs"@ {
        json_or_null(c.row.external_refs)
    } else if w == "invalidated_at"@ {
        match c.row.invalidated_at {
            Some(t) => Value::Time(t),
            None => Value::Null,
        }
    } else if w == "superseded_by"@ {
        match c.row.superseded_by {
            Some(id) => Value::Id(id),
            None => Value::Null,
        }
    } else if w == "applies_to_domains"@ {
        Value::Texts(c.row.facets.domains)
    } else if w == "applies_to_skills"@ {
        Value::Texts(c.row.facets.skills)
    } else if w == "applies_to_projects"@ {
        Value::Texts(c.row.facets.projects)
    } else if w == "applies_to_situations"@ {
        Value::Texts(c.row.facets.situations)
    } else if w == "confidence"@ {
        match c.confidence {
            Some(n) => Value::Number(n),
            None => Value::Null,
        }
    } else if w == "reinforcement_count"@ {
        Value::Number(c.row.reinforcement_count as int)
    } else if w == "embedding"@ {
        Value::Vector
    } else if w == "'{}'"@ {
        Value::Texts(Seq::empty())
    } else if w == "0.0"@ {
        Value::Number(0)
    } else if w == "0.5"@ {
        Value::Number(50)
    } else if w == "1.0"@ {
        Value::Number(100)
    } else if w == "1"@ {
        Value::Number(1)
    } else {
        arbitrary()
    }
}

/// Whether two lists of texts have one in common.
pub open spec fn overlap(a: Seq<Seq<char>>, b: Seq<Seq<char>>) -> bool {
    exists|i: int| 0 <= i < a.len() && b.contains(#[trigger] a[i])
}

/// Whether the first list of texts holds all of the second.
pub open spec fn includes(a: Seq<Seq<char>>, b: Seq<Seq<char>>) -> bool {
    forall|i: int| 0 <= i < b.len() ==> a.contains(#[trigger] b[i])
}

/// Whether two values are equal; unknown, where one is missing.
pub open spec fn equal_values(a: Value, b: Value) -> Value {
    match (a, b) {
        (Value::Null, _) => Value::Null,
        (_, Value::Null) => Value::Null,
        (Value::Text(x), Value::AnyOf(all)) => Value::Bool(all.contains(x)),
        _ => Value::Bool(a == b),
    }
}

/// What an operator between two values gives.
pub open spec fn between(a: Value, op: Seq<char>, b: Value, c: Context) -> Value {
    if op == "AND"@ {
        if a == Value::Bool(false) || b == Value::Bool(false) {
            Value::Bool(false)
        } else if a == Value::Bool(true) && b == Value::Bool(true) {
            Value::Bool(true)
        } else {
            Value::Null
        }
    } else if op == "OR"@ {
        if a == Value::Bool(true) || b == Value::Bool(true) {
            Value::Bool(true)
        } else if a == Value::Bool(false) && b == Value::Bool(false) {
            Value::Bool(false)
        } else {
            Value::Null
        }
    } else if op == "="@ {
        equal_values(a, b)
    } else if op == "<>"@ {
        match equal_values(a, b) {
            Value::Bool(x) => Value::Bool(!x),
            _ => Value::Null,
        }
    } else if op == "+"@ {
        match (a, b) {
            (Value::Number(x), Value::Number(y)) => Value::Number(x + y),
            _ => Value::Null,
        }
    } else if op == "-"@ {
        match (a, b) {
            (Value::Number(x), Value::Number(y)) => Value::Number(x - y),
            _ => Value::Null,
        }
    } else if op == ">="@ {
        match (a, b) {
            (Value::Number(x), Value::Number(y)) => Value::Bool(x >= y),
            _ => Value::Null,
        }
    } else if op == "&&"@ {
        match (a, b) {
            (Value::Texts(x), Value::Texts(y)) => Value::Bool(overlap(x, y)),
            _ => Value::Null,
        }
    } else if op == "@>"@ {
        match (a, b) {
            (Value::Texts(x), Value::Texts(y)) => Value::Bool(includes(x, y)),
            (Value::Json(x), Value::Json(y)) => Value::Bool((c.contains)(x, y)),
            _ => Value::Null,
        }
    } else if op == "<=>"@ {
        match (a, b) {
            (Value::Vector, Value::Vector) => Value::Number(c.distance),
            _ => Value::Null,
        }
    } else {
        arbitrary()
    }
}

/// What a function of two values gives.
pub open spec fn applied(f: Seq<char>, a: Value, b: Value) -> Value {
    if f == "LEAST"@ {
        match (a, b) {
            (Value::Number(x), Value::Number(y)) => Value::Number(
                if x <= y {
                    x
                } else {
                    y
                },
            ),
            _ => arbitrary(),
        }
    } else if f == "GREATEST"@ {
        match (a, b) {
            (Value::Number(x), Value::Number(y)) => Value::Number(
                if x >= y {
                    x
                } else {
                    y
                },
            ),
            _ => arbitrary(),
        }
    } else if f == "COALESCE"@ {
        if a is Null {
            b
        } else {
            a
        }
    } else {
        arbitrary()
    }
}

/// The value of an expression.
pub open spec fn value(e: Expr, c: Context) -> Value
    decreases e,
{
    match e {
        Expr::Word(w) => word_value(w@, c),
        Expr::Param(n) => c.params[n - 1],
        Expr::Before(op, a) => if op@ == "NOT"@ {
            match value(*a, c) {
                Value::Bool(x) => Value::Bool(!x),
                _ => Value::Null,
            }
        } else {
            arbitrary()
        },
        Expr::Between(a, op, b) => between(value(*a, c), op@, value(*b, c), c),
        Expr::Behind(a, op) => if op@ == "IS NULL"@ {
            Value::Bool(value(*a, c) is Null)
        } else if op@ == "IS NOT NULL"@ {
            Value::Bool(!(value(*a, c) is Null))
        } else {
            arbitrary()
        },
        Expr::Cast(a, _) => value(*a, c),
        Expr::Brackets(a) => value(*a, c),
        Expr::Call(f, a) => if f@ == "ANY"@ {
            match value(*a, c) {
                Value::Texts(x) => Value::AnyOf(x),
                _ => Value::Null,
            }
        } else {
            arbitrary()
        },
        Expr::Call2(f, a, b) => applied(f@, value(*a, c), value(*b, c)),
    }
}

/// Whether a row is among those that a condition selects.
pub open spec fn selects(condition: Expr, c: Context) -> bool {
    value(condition, c) == Value::Bool(true)
}

/// An assignment of an update.
#[derive(Debug, PartialEq, Eq)]
pub struct Assignment {
    pub column: &'static str,
    pub to: Expr,
}

/// How assignments are written down.
pub open spec fn assignments_written(sets: Seq<Assignment>) -> Seq<Seq<char>> {
    sets.map_values(|a: Assignment| a.column@ + " = "@ + written(a.to))
}

/// How an update of the memories is written down: what it assigns, which rows it
/// changes, and what it gives back of them.
pub open spec fn update_written(
    sets: Seq<Assignment>,
    condition: Expr,
    returning: Expr,
) -> Seq<char> {
    "UPDATE memories SET "@ + text::joined(assignments_written(sets), ", "@) + " WHERE "@
        + written(condition) + " RETURNING "@ + written(returning)
}

/// An update of the memories as it is written down.
pub fn write_update(sets: &[Assignment], condition: &Expr, returning: &Expr) -> (r: String)
    ensures
        r@ == update_written(sets@, *condition, *returning),
{
    let mut parts: Vec<String> = Vec::new();
    for i in 0..sets.len()
        invariant
            text::texts(parts@) == assignments_written(sets@).take(i as int),
    {
        let ghost before = parts@;
        parts.push(concat3(sets[i].column, " = ", sets[i].to.write().as_str()));
        assert(text::texts(parts@) =~= text::texts(before).push(parts@[i as int]@));
        assert(text::texts(parts@) =~= assignments_written(sets@).take(i + 1));
    }
    assert(text::texts(parts@) =~= assignments_written(sets@));
    let mut r = "UPDATE memories SET ".to_owned();
    r.append(join(parts.as_slice(), ", ").as_str());
    r.append(" WHERE ");
    r.append(condition.write().as_str());
    r.append(" RETURNING ");
    r.append(returning.write().as_str());
    r
}

/// What an update makes of a column of a row that it changes, or `None` where it
/// leaves the column alone.
pub open spec fn assigned(sets: Seq<Assignment>, column: Seq<char>, c: Context) -> Option<Value>
    decreases sets.len(),
{
    if sets.len() == 0 {
        None
    } else if sets.last().column@ == column {
        Some(value(sets.last().to, c))
    } else {
        assigned(sets.drop_last(), column, c)
    }
}

// ---- Words --------------------------------------------------------------------------------

/// What the columns and the constants mean.
pub proof fn lemma_words(c: Context)
    ensures
        word_value("profile"@, c) == Value::Text(c.row.profile),
        word_value("id"@, c) == Value::Id(c.row.id),
        word_value("memory_type"@, c) == Value::Text(c.row.memory_type),
        word_value("tags"@, c) == Value::Texts(c.row.tags),
        word_value("external_refs"@, c) == json_or_null(c.row.external_refs),
        word_value("invalidated_at"@, c) is Null <==> c.row.invalidated_at is None,
        word_value("superseded_by"@, c) is Null <==> c.row.superseded_by is None,
        word_value("applies_to_domains"@, c) == Value::Texts(c.row.facets.domains),
        word_value("applies_to_skills"@, c) == Value::Texts(c.row.facets.skills),
        word_value("applies_to_projects"@, c) == Value::Texts(c.row.facets.projects),
        word_value("applies_to_situations"@, c) == Value::Texts(c.row.facets.situations),
        word_value("confidence"@, c) == (match c.confidence {
            Some(n) => Value::Number(n),
            None => Value::Null,
        }),
        word_value("reinforcement_count"@, c) == Value::Number(c.row.reinforcement_count as int),
        word_value("embedding"@, c) == Value::Vector,
        word_value("'{}'"@, c) == Value::Texts(Seq::empty()),
        word_value("0.0"@, c) == Value::Number(0),
        word_value("0.5"@, c) == Value::Number(50),
        word_value("1.0"@, c) == Value::Number(100),
        word_value("1"@, c) == Value::Number(1),
{
    reveal_strlit("profile");
    reveal_strlit("id");
    reveal_strlit("memory_type");
    reveal_strlit("tags");
    reveal_strlit("external_refs");
    reveal_strlit("invalidated_at");
    reveal_strlit("superseded_by");
    reveal_strlit("applies_to_domains");
    reveal_strlit("applies_to_skills");
    reveal_strlit("applies_to_projects");
    reveal_strlit("applies_to_situations");
    reveal_strlit("confidence");
    reveal_strlit("reinforcement_count");
    reveal_strlit("embedding");
    reveal_strlit("'{}'");
    reveal_strlit("0.0");
    reveal_strlit("0.5");
    reveal_strlit("1.0");
    reveal_strlit("1");
    assert("profile"@.len() == 7);
    assert("id"@.len() == 2);
    assert("memory_type"@.len() == 11);
    assert("tags"@.len() == 4);
    assert("external_refs"@.len() == 13);
    assert("invalidated_at"@.len() == 14);
    assert("superseded_by"@.len() == 13);
    assert("applies_to_domains"@.len() == 18);
    assert("applies_to_skills"@.len() == 17);
    assert("applies_to_projects"@.len() == 19);
    assert("applies_to_situations"@.len() == 21);
    assert("confidence"@.len() == 10);
    assert("reinforcement_count"@.len() == 19);
    assert("embedding"@.len() == 9);
    assert("'{}'"@.len() == 4);
    assert("0.0"@.len() == 3);
    assert("0.5"@.len() == 3);
    assert("1.0"@.len() == 3);
    assert("1"@.len() == 1);
    assert("external_refs"@[0] != "superseded_by"@[0]);
    assert("tags"@[0] != "'{}'"@[0]);
    assert("0.0"@[2] != "0.5"@[2]);
    assert("1.0"@[0] != "0.5"@[0]);
    assert("1.0"@[0] != "0.0"@[0]);
    assert("applies_to_skills"@[0] != "reinforcement_count"@[0]);
    assert("applies_to_projects"@[0] != "reinforcement_count"@[0]);
}

/// What the operators and the functions mean.
pub proof fn lemma_operators(a: Value, b: Value, c: Context)
    ensures
        between(a, "OR"@, b, c) == (if a == Value::Bool(true) || b == Value::Bool(true) {
            Value::Bool(true)
        } else if a == Value::Bool(false) && b == Value::Bool(false) {
            Value::Bool(false)
        } else {
            Value::Null
        }),
        between(a, "AND"@, b, c) == Value::Bool(true) <==> a == Value::Bool(true) && b
            == Value::Bool(true),
        between(a, "="@, b, c) == equal_values(a, b),
        a is Number && b is Number ==> {
            &&& between(a, "+"@, b, c) == Value::Number(a->Number_0 + b->Number_0)
            &&& between(a, "-"@, b, c) == Value::Number(a->Number_0 - b->Number_0)
            &&& between(a, ">="@, b, c) == Value::Bool(a->Number_0 >= b->Number_0)
        },
        a is Texts && b is Texts ==> {
            &&& between(a, "&&"@, b, c) == Value::Bool(overlap(a->Texts_0, b->Texts_0))
            &&& between(a, "@>"@, b, c) == Value::Bool(includes(a->Texts_0, b->Texts_0))
        },
        a is Json && b is Json ==> between(a, "@>"@, b, c) == Value::Bool(
            (c.contains)(a->Json_0, b->Json_0),
        ),
        a is Null ==> between(a, "@>"@, b, c) == Value::Null,
        a is Vector && b is Vector ==> between(a, "<=>"@, b, c) == Value::Number(c.distance),
        applied("COALESCE"@, a, b) == (if a is Null {
            b
        } else {
            a
        }),
        a is Number && b is Number ==> {
            &&& applied("LEAST"@, a, b) == Value::Number(
                if a->Number_0 <= b->Number_0 {
                    a->Number_0
                } else {
                    b->Number_0
                },
            )
            &&& applied("GREATEST"@, a, b) == Value::Number(
                if a->Number_0 >= b->Number_0 {
                    a->Number_0
                } else {
                    b->Number_0
                },
            )
        },
{
    reveal_strlit("AND");
    reveal_strlit("OR");
    reveal_strlit("=");
    reveal_strlit("<>");
    reveal_strlit("+");
    reveal_strlit("-");
    reveal_strlit(">=");
    reveal_strlit("&&");
    reveal_strlit("@>");
    reveal_strlit("<=>");
    reveal_strlit("LEAST");
    reveal_strlit("GREATEST");
    reveal_strlit("COALESCE");
    assert("AND"@.len() == 3);
    assert("OR"@.len() == 2);
    assert("="@.len() == 1);
    assert("<>"@.len() == 2);
    assert("+"@.len() == 1);
    assert("-"@.len() == 1);
    assert(">="@.len() == 2);
    assert("&&"@.len() == 2);
    assert("@>"@.len() == 2);
    assert("<=>"@.len() == 3);
    assert("+"@[0] != "="@[0]);
    assert("-"@[0] != "="@[0]);
    assert("-"@[0] != "+"@[0]);
    assert(">="@[0] != "<>"@[0]);
    assert(">="@[0] != "OR"@[0]);
    assert("<>"@[0] != "OR"@[0]);
    assert("&&"@[0] != "OR"@[0]);
    assert("&&"@[0] != "<>"@[0]);
    assert("&&"@[0] != ">="@[0]);
    assert("@>"@[0] != "OR"@[0]);
    assert("@>"@[0] != "<>"@[0]);
    assert("@>"@[0] != ">="@[0]);
    assert("@>"@[0] != "&&"@[0]);
    assert("<=>"@[0] != "AND"@[0]);
    assert("GREATEST"@[0] != "COALESCE"@[0]);
}

// ---- Building ---------------------------------------------------------------------------

/// A column or a constant.
pub fn word(w: &'static str) -> (r: Expr)
    ensures
        r == Expr::Word(w),
{
    Expr::Word(w)
}

/// An operator between its operands.
pub fn both(a: Expr, op: &'static str, b: Expr) -> (r: Expr)
    ensures
        r == Expr::Between(Box::new(a), op, Box::new(b)),
{
    Expr::Between(Box::new(a), op, Box::new(b))
}

// ---- Conditions ---------------------------------------------------------------------------

/// Both conditions.
pub open spec fn both_hold(a: Expr, b: Expr) -> Expr {
    Expr::Between(Box::new(a), "AND", Box::new(b))
}

/// The column holds the value of the parameter.
pub open spec fn column_is(column: &'static str, n: i32) -> Expr {
    Expr::Between(Box::new(Expr::Word(column)), "=", Box::new(Expr::Param(n)))
}

/// The column holds nothing, where the parameter asks for that.
pub open spec fn nothing_if_asked(n: i32, column: &'static str) -> Expr {
    Expr::Brackets(
        Box::new(
            Expr::Between(
                Box::new(Expr::Before("NOT", Box::new(Expr::Param(n)))),
                "OR",
                Box::new(Expr::Behind(Box::new(Expr::Word(column)), "IS NULL")),
            ),
        ),
    )
}

/// The condition, where the parameter names some texts.
pub open spec fn if_named(n: i32, condition: Expr) -> Expr {
    Expr::Brackets(
        Box::new(
            Expr::Between(
                Box::new(
                    Expr::Between(
                        Box::new(Expr::Cast(Box::new(Expr::Param(n)), "text[]")),
                        "=",
                        Box::new(Expr::Word("'{}'")),
                    ),
                ),
                "OR",
                Box::new(condition),
            ),
        ),
    )
}

/// The column relates to the parameter as the operator says.
pub open spec fn column_to(column: &'static str, op: &'static str, n: i32) -> Expr {
    Expr::Between(Box::new(Expr::Word(column)), op, Box::new(Expr::Param(n)))
}

/// The column holds one of the texts of the parameter.
pub open spec fn column_in(column: &'static str, n: i32) -> Expr {
    Expr::Between(
        Box::new(Expr::Word(column)),
        "=",
        Box::new(Expr::Call("ANY", Box::new(Expr::Param(n)))),
    )
}

/// The column contains the JSON value of the parameter, where that is given.
pub open spec fn contains_if_given(n: i32, column: &'static str) -> Expr {
    Expr::Brackets(
        Box::new(
            Expr::Between(
                Box::new(
                    Expr::Behind(Box::new(Expr::Cast(Box::new(Expr::Param(n)), "jsonb")), "IS NULL"),
                ),
                "OR",
                Box::new(column_to(column, "@>", n)),
            ),
        ),
    )
}

/// Both conditions.
pub fn make_both_hold(a: Expr, b: Expr) -> (r: Expr)
    ensures
        r == both_hold(a, b),
{
    Expr::Between(Box::new(a), "AND", Box::new(b))
}

/// The column holds the value of the parameter.
pub fn make_column_is(column: &'static str, n: i32) -> (r: Expr)
    ensures
        r == column_is(column, n),
{
    Expr::Between(Box::new(Expr::Word(column)), "=", Box::new(Expr::Param(n)))
}

/// The column holds nothing, where the parameter asks for that.
pub fn make_nothing_if_asked(n: i32, column: &'static str) -> (r: Expr)
    ensures
        r == nothing_if_asked(n, column),
{
    Expr::Brackets(
        Box::new(
            Expr::Between(
                Box::new(Expr::Before("NOT", Box::new(Expr::Param(n)))),
                "OR",
                Box::new(Expr::Behind(Box::new(Expr::Word(column)), "IS NULL")),
            ),
        ),
    )
}

/// The condition, where the parameter names some texts.
pub fn make_if_named(n: i32, condition: Expr) -> (r: Expr)
    ensures
        r == if_named(n, condition),
{
    Expr::Brackets(
        Box::new(
            Expr::Between(
                Box::new(
                    Expr::Between(
                        Box::new(Expr::Cast(Box::new(Expr::Param(n)), "text[]")),
                        "=",
                        Box::new(Expr::Word("'{}'")),
                    ),
                ),
                "OR",
                Box::new(condition),
            ),
        ),
    )
}

/// The column relates to the parameter as the operator says.
pub fn make_column_to(column: &'static str, op: &'static str, n: i32) -> (r: Expr)
    ensures
        r == column_to(column, op, n),
{
    Expr::Between(Box::new(Expr::Word(column)), op, Box::new(Expr::Param(n)))
}

/// The column holds one of the texts of the parameter.
pub fn make_column_in(column: &'static str, n: i32) -> (r: Expr)
    ensures
        r == column_in(column, n),
{
    Expr::Between(
        Box::new(Expr::Word(column)),
        "=",
        Box::new(Expr::Call("ANY", Box::new(Expr::Param(n)))),
    )
}

/// The column contains the JSON value of the parameter, where that is given.
pub fn make_contains_if_given(n: i32, column: &'static str) -> (r: Expr)
    ensures
        r == contains_if_given(n, column),
{
    Expr::Brackets(
        Box::new(
            Expr::Between(
                Box::new(
                    Expr::Behind(Box::new(Expr::Cast(Box::new(Expr::Param(n)), "jsonb")), "IS NULL"),
                ),
                "OR",
                Box::new(make_column_to(column, "@>", n)),
            ),
        ),
    )
}

/// Both conditions select what each selects.
pub proof fn lemma_both_hold(a: Expr, b: Expr, c: Context)
    ensures
        selects(both_hold(a, b), c) <==> selects(a, c) && selects(b, c),
{
    lemma_operators(value(a, c), value(b, c), c);
}

/// What a column must hold.
pub proof fn lemma_column_is(column: &'static str, n: i32, c: Context)
    ensures
        selects(column_is(column, n), c) <==> !(word_value(column@, c) is Null) && !(c.params[n - 1]
            is Null) && equal_values(word_value(column@, c), c.params[n - 1]) == Value::Bool(true),
{
    reveal_with_fuel(value, 3);
    lemma_operators(word_value(column@, c), c.params[n - 1], c);
}

/// Rows that hold something in the column are left out where that is asked for.
pub proof fn lemma_nothing_if_asked(n: i32, column: &'static str, c: Context)
    requires
        c.params[n - 1] is Bool,
    ensures
        selects(nothing_if_asked(n, column), c) <==> c.params[n - 1] == Value::Bool(false)
            || word_value(column@, c) is Null,
{
    reveal_with_fuel(value, 5);
    reveal_strlit("NOT");
    reveal_strlit("IS NULL");
    let asked = c.params[n - 1]->Bool_0;
    lemma_operators(Value::Bool(!asked), Value::Bool(word_value(column@, c) is Null), c);
}

/// A list that names nothing lets every row pass.
pub proof fn lemma_if_named(n: i32, condition: Expr, c: Context)
    requires
        c.params[n - 1] is Texts,
    ensures
        selects(if_named(n, condition), c) <==> c.params[n - 1]->Texts_0.len() == 0 || selects(
            condition,
            c,
        ),
{
    reveal_with_fuel(value, 5);
    lemma_words(c);
    let named = c.params[n - 1];
    let none = Value::Texts(Seq::empty());
    lemma_operators(named, none, c);
    assert(named == none <==> named->Texts_0.len() == 0) by {
        if named->Texts_0.len() == 0 {
            assert(named->Texts_0 =~= Seq::<Seq<char>>::empty());
        }
    }
    lemma_operators(equal_values(named, none), value(condition, c), c);
}

/// A row has a text of the list in the column.
pub proof fn lemma_column_in(column: &'static str, n: i32, c: Context)
    requires
        c.params[n - 1] is Texts,
        word_value(column@, c) is Text,
    ensures
        selects(column_in(column, n), c) <==> c.params[n - 1]->Texts_0.contains(
            word_value(column@, c)->Text_0,
        ),
{
    reveal_with_fuel(value, 4);
    reveal_strlit("ANY");
    lemma_operators(word_value(column@, c), Value::AnyOf(c.params[n - 1]->Texts_0), c);
}

/// A row shares a text with the list, or holds all of the list.
pub proof fn lemma_column_to(column: &'static str, n: i32, c: Context)
    requires
        c.params[n - 1] is Texts,
        word_value(column@, c) is Texts,
    ensures
        selects(column_to(column, "&&", n), c) <==> overlap(
            word_value(column@, c)->Texts_0,
            c.params[n - 1]->Texts_0,
        ),
        selects(column_to(column, "@>", n), c) <==> includes(
            word_value(column@, c)->Texts_0,
            c.params[n - 1]->Texts_0,
        ),
{
    reveal_with_fuel(value, 3);
    lemma_operators(word_value(column@, c), c.params[n - 1], c);
}

/// A row contains the JSON value, where one is given.
pub proof fn lemma_contains_if_given(n: i32, column: &'static str, c: Context)
    requires
        c.params[n - 1] is Json || c.params[n - 1] is Null,
        word_value(column@, c) is Json || word_value(column@, c) is Null,
    ensures
        selects(contains_if_given(n, column), c) <==> c.params[n - 1] is Null || (word_value(
            column@,
            c,
        ) is Json && (c.contains)(word_value(column@, c)->Json_0, c.params[n - 1]->Json_0)),
{
    reveal_with_fuel(value, 6);
    reveal_strlit("IS NULL");
    let held = word_value(column@, c);
    let given = c.params[n - 1];
    lemma_operators(held, given, c);
    lemma_operators(Value::Bool(given is Null), between(held, "@>"@, given, c), c);
}

// ---- Laws ---------------------------------------------------------------------------------

/// An expression is written down as it is read: words and operators as they are, in their
/// places, and parameters by their numbers.
pub proof fn lemma_written_as_it_is_read(
    a: Expr,
    b: Expr,
    word: &'static str,
    number: i32,
)
    ensures
        written(Expr::Word(word)) == word@,
        number >= 0 ==> written(Expr::Param(number)) == "$"@ + text::decimal(number as nat),
        written(Expr::Before(word, Box::new(a))) == word@ + " "@ + written(a),
        written(Expr::Between(Box::new(a), word, Box::new(b))) == written(a) + " "@ + word@ + " "@
            + written(b),
        written(Expr::Behind(Box::new(a), word)) == written(a) + " "@ + word@,
        written(Expr::Cast(Box::new(a), word)) == written(a) + "::"@ + word@,
        written(Expr::Brackets(Box::new(a))) == "("@ + written(a) + ")"@,
        written(Expr::Call(word, Box::new(a))) == word@ + "("@ + written(a) + ")"@,
        written(Expr::Call2(word, Box::new(a), Box::new(b))) == word@ + "("@ + written(a) + ", "@
            + written(b) + ")"@,
{
}

/// An update is written with each column before what it is set to, with the condition
/// that says which rows are changed, and with what is given back of them.
pub proof fn lemma_update_is_written_as_it_is_meant(
    sets: Seq<Assignment>,
    condition: Expr,
    returning: Expr,
    i: int,
)
    ensures
        update_written(sets, condition, returning) == "UPDATE memories SET "@ + text::joined(
            assignments_written(sets),
            ", "@,
        ) + " WHERE "@ + written(condition) + " RETURNING "@ + written(returning),
        assignments_written(sets).len() == sets.len(),
        0 <= i < sets.len() ==> assignments_written(sets)[i] == sets[i].column@ + " = "@ + written(
            sets[i].to,
        ),
{
}

/// The conditions of queries are written with their columns, operators and parameters in
/// their places.
pub proof fn lemma_conditions_as_they_are_written(
    a: Expr,
    b: Expr,
    column: &'static str,
    op: &'static str,
    n: i32,
)
    ensures
        written(both_hold(a, b)) == written(a) + " "@ + "AND"@ + " "@ + written(b),
        written(column_is(column, n)) == column@ + " "@ + "="@ + " "@ + written(Expr::Param(n)),
        written(nothing_if_asked(n, column)) == "("@ + (("NOT"@ + " "@ + written(Expr::Param(n)))
            + " "@ + "OR"@ + " "@ + (column@ + " "@ + "IS NULL"@)) + ")"@,
        written(if_named(n, a)) == "("@ + (((written(Expr::Param(n)) + "::"@ + "text[]"@) + " "@
            + "="@ + " "@ + "'{}'"@) + " "@ + "OR"@ + " "@ + written(a)) + ")"@,
        written(column_to(column, op, n)) == column@ + " "@ + op@ + " "@ + written(Expr::Param(n)),
        written(column_in(column, n)) == column@ + " "@ + "="@ + " "@ + ("ANY"@ + "("@ + written(
            Expr::Param(n),
        ) + ")"@),
        written(contains_if_given(n, column)) == "("@ + (((written(Expr::Param(n)) + "::"@
            + "jsonb"@) + " "@ + "IS NULL"@) + " "@ + "OR"@ + " "@ + (column@ + " "@ + "@>"@ + " "@
            + written(Expr::Param(n)))) + ")"@,
{
    reveal_with_fuel(written, 6);
}

} // verus!
