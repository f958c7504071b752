//! Facets: the domains, skills, projects and situations that a memory applies to.

use vstd::prelude::*;
use vstd::string::*;

use crate::sql::{self, Context, Expr, Value};
use crate::text::{self, concat4, copy_strings, integer_of, is_text_before, str_eq};
use crate::tools::search::AppliesTo;

verus! {

/// What a memory applies to.
#[derive(Clone, Debug, PartialEq, Eq)]
pub struct Facets {
    pub domains: Vec<String>,
    pub skills: Vec<String>,
    pub projects: Vec<String>,
    pub situations: Vec<String>,
}

/// What a [`Facets`] value stands for.
#[verifier::ext_equal]
pub struct FacetsView {
    pub domains: Seq<Seq<char>>,
    pub skills: Seq<Seq<char>>,
    pub projects: Seq<Seq<char>>,
    pub situations: Seq<Seq<char>>,
}

impl View for Facets {
    type V = FacetsView;

    open spec fn view(&self) -> FacetsView {
        FacetsView {
            domains: text::texts(self.domains@),
            skills: text::texts(self.skills@),
            projects: text::texts(self.projects@),
            situations: text::texts(self.situations@),
        }
    }
}

impl Default for Facets {
    /// No facets.
    fn default() -> (r: Facets)
        ensures
            r@ == no_facets(),
    {
        broadcast use text::lemma_texts_empty;

        Facets {
            domains: Vec::new(),
            skills: Vec::new(),
            projects: Vec::new(),
            situations: Vec::new(),
        }
    }
}

/// The facets of what applies to nothing in particular.
pub open spec fn no_facets() -> FacetsView {
    FacetsView {
        domains: Seq::empty(),
        skills: Seq::empty(),
        projects: Seq::empty(),
        situations: Seq::empty(),
    }
}

impl FacetsView {
    /// Whether no facet names anything.
    pub open spec fn none(self) -> bool {
        self.domains.len() == 0 && self.skills.len() == 0 && self.projects.len() == 0
            && self.situations.len() == 0
    }
}

/// The texts of an optional list; none where there is no list.
pub open spec fn texts_or_none(o: Option<Vec<String>>) -> Seq<Seq<char>> {
    match o {
        Some(v) => text::texts(v@),
        None => Seq::empty(),
    }
}

fn list_or_none(o: Option<Vec<String>>) -> (r: Vec<String>)
    ensures
        text::texts(r@) == texts_or_none(o),
{
    broadcast use text::lemma_texts_empty;

    match o {
        Some(v) => v,
        None => Vec::new(),
    }
}

impl AppliesTo {
    /// The facets that the restriction names.
    pub open spec fn facets(self) -> FacetsView {
        FacetsView {
            domains: texts_or_none(self.domains),
            skills: texts_or_none(self.skills),
            projects: texts_or_none(self.projects),
            situations: texts_or_none(self.situations),
        }
    }
}

impl From<AppliesTo> for Facets {
    /// The facets that a restriction names; a list that is not there names
    /// nothing.
    fn from(a: AppliesTo) -> (r: Facets)
        ensures
            r@ == a.facets(),
    {
        Facets {
            domains: list_or_none(a.domains),
            skills: list_or_none(a.skills),
            projects: list_or_none(a.projects),
            situations: list_or_none(a.situations),
        }
    }
}

impl vstd::std_specs::convert::FromSpecImpl<AppliesTo> for Facets {
    open spec fn obeys_from_spec() -> bool {
        false
    }

    open spec fn from_spec(a: AppliesTo) -> Facets {
        arbitrary()
    }
}

impl Facets {
    /// Whether no facet names anything.
    pub fn is_empty(&self) -> (r: bool)
        ensures
            r == self@.none(),
    {
        self.domains.len() == 0 && self.skills.len() == 0 && self.projects.len() == 0
            && self.situations.len() == 0
    }

    /// A copy of the facets.
    pub fn copy(&self) -> (r: Facets)
        ensures
            r@ == self@,
    {
        Facets {
            domains: copy_strings(self.domains.as_slice()),
            skills: copy_strings(self.skills.as_slice()),
            projects: copy_strings(self.projects.as_slice()),
            situations: copy_strings(self.situations.as_slice()),
        }
    }
}

// ---- Filters --------------------------------------------------------------------

/// How many of the facets name something.
pub open spec fn facet_count(f: FacetsView) -> int {
    (if f.domains.len() > 0 { 1int } else { 0 }) + (if f.skills.len() > 0 { 1int } else { 0 })
        + (if f.projects.len() > 0 { 1int } else { 0 }) + (if f.situations.len() > 0 {
        1int
    } else {
        0
    })
}

/// A filter under way: the clauses so far, the values to bind so far, and the
/// number of the next parameter.
pub struct FilterView {
    pub sql: Seq<char>,
    pub binds: Seq<Seq<Seq<char>>>,
    pub next: int,
}

/// The filter with a clause for one more column, where it names something.
pub open spec fn with_column(
    f: FilterView,
    column: Seq<char>,
    values: Seq<Seq<char>>,
) -> FilterView {
    if values.len() > 0 {
        FilterView {
            sql: f.sql + (" AND "@ + column + " @> $"@ + text::integer(f.next)),
            binds: f.binds.push(values),
            next: f.next + 1,
        }
    } else {
        f
    }
}

/// The filter for the facets, with parameters numbered from `start`: a clause
/// for each facet that names something, in the order of the columns.
pub open spec fn contains_filter(f: FacetsView, start: int) -> FilterView {
    let f0 = FilterView { sql: Seq::empty(), binds: Seq::empty(), next: start };
    let f1 = with_column(f0, "applies_to_domains"@, f.domains);
    let f2 = with_column(f1, "applies_to_skills"@, f.skills);
    let f3 = with_column(f2, "applies_to_projects"@, f.projects);
    with_column(f3, "applies_to_situations"@, f.situations)
}

/// The views of the values to bind.
pub open spec fn bind_views(binds: Seq<&[String]>) -> Seq<Seq<Seq<char>>> {
    binds.map_values(|b: &[String]| text::texts(b@))
}

struct Filter<'a> {
    sql: String,
    binds: Vec<&'a [String]>,
    next: i32,
}

impl<'a> Filter<'a> {
    spec fn as_view(self) -> FilterView {
        FilterView { sql: self.sql@, binds: bind_views(self.binds@), next: self.next as int }
    }

    fn add_column(&mut self, column: &str, values: &'a [String])
        requires
            old(self).next < i32::MAX || values@.len() == 0,
        ensures
            final(self).as_view() == with_column(
                old(self).as_view(),
                column@,
                text::texts(values@),
            ),
    {
        let ghost before = self.as_view();
        if values.len() > 0 {
            let clause = concat4(" AND ", column, " @> $", integer_of(self.next as i64).as_str());
            self.sql.append(clause.as_str());
            self.binds.push(values);
            self.next = self.next + 1;
            assert(bind_views(self.binds@) =~= before.binds.push(text::texts(values@)));
        }
    }
}

impl Facets {
    /// An `AND applies_to_X @> $N` clause for each facet that names something,
    /// and the values to bind, in parameter order.
    pub fn sql_contains_filters(&self, start_param: i32) -> (r: (String, Vec<&[String]>))
        requires
            start_param + facet_count(self@) <= i32::MAX,
        ensures
            r.0@ == contains_filter(self@, start_param as int).sql,
            bind_views(r.1@) == contains_filter(self@, start_param as int).binds,
    {
        let mut f = Filter { sql: String::new(), binds: Vec::new(), next: start_param };
        assert(bind_views(f.binds@) =~= Seq::<Seq<Seq<char>>>::empty());
        assert(f.sql@ =~= Seq::<char>::empty());
        f.add_column("applies_to_domains", self.domains.as_slice());
        f.add_column("applies_to_skills", self.skills.as_slice());
        f.add_column("applies_to_projects", self.projects.as_slice());
        f.add_column("applies_to_situations", self.situations.as_slice());
        (f.sql, f.binds)
    }
}

/// The clause that holds a column to parameter `n`, where that names something.
pub open spec fn filter_clause(column: Seq<char>, n: int) -> Seq<char> {
    " AND ($"@ + text::integer(n) + "::text[] = '{}' OR "@ + column + " @> $"@ + text::integer(n)
        + ")"@
}

/// The clauses that hold all facets to parameters numbered from `start`.
pub open spec fn filter_clauses(start: int) -> Seq<char> {
    filter_clause("applies_to_domains"@, start) + filter_clause(
        "applies_to_skills"@,
        start + 1,
    ) + filter_clause("applies_to_projects"@, start + 2) + filter_clause(
        "applies_to_situations"@,
        start + 3,
    )
}

fn make_filter_clause(column: &str, n: i32) -> (r: String)
    ensures
        r@ == filter_clause(column@, n as int),
{
    let number = integer_of(n as i64);
    let mut r = " AND ($".to_owned();
    r.append(number.as_str());
    r.append("::text[] = '{}' OR ");
    r.append(column);
    r.append(" @> $");
    r.append(number.as_str());
    r.append(")");
    r
}

impl Facets {
    /// The clauses that hold all facets to parameters numbered from
    /// `start_param`; a parameter that names nothing lets everything pass.
    pub fn sql_filter_clauses(start_param: i32) -> (r: String)
        requires
            start_param + 3 <= i32::MAX,
        ensures
            r@ == filter_clauses(start_param as int),
    {
        let mut r = make_filter_clause("applies_to_domains", start_param);
        r.append(make_filter_clause("applies_to_skills", start_param + 1).as_str());
        r.append(make_filter_clause("applies_to_projects", start_param + 2).as_str());
        r.append(make_filter_clause("applies_to_situations", start_param + 3).as_str());
        r
    }
}

// ---- What the filters mean --------------------------------------------------------

/// Conditions as they are put behind another: each after `AND`.
pub open spec fn clauses(tests: Seq<Expr>) -> Seq<char>
    decreases tests.len(),
{
    if tests.len() == 0 {
        Seq::empty()
    } else {
        clauses(tests.drop_last()) + (" AND "@ + sql::written(tests.last()))
    }
}

/// Whether all conditions select the row.
pub open spec fn all_select(tests: Seq<Expr>, c: Context) -> bool {
    forall|i: int| 0 <= i < tests.len() ==> sql::selects(#[trigger] tests[i], c)
}

/// Whether a row applies to everything that the facets name.
pub open spec fn applies_to(row: FacetsView, f: FacetsView) -> bool {
    &&& sql::includes(row.domains, f.domains)
    &&& sql::includes(row.skills, f.skills)
    &&& sql::includes(row.projects, f.projects)
    &&& sql::includes(row.situations, f.situations)
}

/// The conditions with one more, that the column holds all of the list of parameter
/// `n`, where the list names something.
pub open spec fn with_test(
    tests: Seq<Expr>,
    column: &'static str,
    n: int,
    values: Seq<Seq<char>>,
) -> Seq<Expr> {
    if values.len() > 0 {
        tests.push(sql::column_to(column, "@>", n as i32))
    } else {
        tests
    }
}

proof fn lemma_with_column(
    f: FilterView,
    tests: Seq<Expr>,
    column: &'static str,
    values: Seq<Seq<char>>,
    start: int,
    c: Context,
    more: Seq<Value>,
)
    requires
        f.sql == clauses(tests),
        f.next == start + f.binds.len(),
        1 <= start,
        f.next <= i32::MAX,
        sql::word_value(column@, c) is Texts,
        more.len() >= with_column(f, column@, values).binds.len(),
        forall|i: int|
            0 <= i < with_column(f, column@, values).binds.len() ==> #[trigger] more[i]
                == Value::Texts(with_column(f, column@, values).binds[i]),
        forall|i: int| 0 <= i < more.len() ==> c.params[start - 1 + i] == #[trigger] more[i],
    ensures
        with_column(f, column@, values).sql == clauses(with_test(tests, column, f.next, values)),
        with_column(f, column@, values).next == start + with_column(f, column@, values).binds.len(),
        all_select(with_test(tests, column, f.next, values), c) <==> all_select(tests, c)
            && sql::includes(sql::word_value(column@, c)->Texts_0, values),
{
    if values.len() > 0 {
        let n = f.next as i32;
        let test = sql::column_to(column, "@>", n);
        let all = tests.push(test);
        assert(all.drop_last() =~= tests);
        reveal_with_fuel(sql::written, 3);
        reveal_strlit(" @> $");
        reveal_strlit(" ");
        reveal_strlit("@>");
        reveal_strlit("$");
        let number = text::integer(f.next);
        assert(" @> $"@ =~= " "@ + "@>"@ + " "@ + "$"@);
        assert(" AND "@ + column@ + " @> $"@ + number =~= " AND "@ + (column@ + " "@ + "@>"@ + " "@ + (
        "$"@ + number)));
        let k = f.binds.len() as int;
        assert(with_column(f, column@, values).binds[k] == values);
        assert(more[k] == Value::Texts(values));
        assert(c.params[n - 1] == more[k]);
        sql::lemma_column_to(column, n, c);
        if all_select(all, c) {
            assert(sql::selects(all[tests.len() as int], c));
            assert forall|i: int| 0 <= i < tests.len() implies sql::selects(
                #[trigger] tests[i],
                c,
            ) by {
                assert(all[i] == tests[i]);
            }
        }
    }
}

/// The conditions of the filter for the facets.
pub open spec fn filter_tests(f: FacetsView, start: int) -> Seq<Expr> {
    let f0 = FilterView { sql: Seq::empty(), binds: Seq::empty(), next: start };
    let f1 = with_column(f0, "applies_to_domains"@, f.domains);
    let f2 = with_column(f1, "applies_to_skills"@, f.skills);
    let f3 = with_column(f2, "applies_to_projects"@, f.projects);
    let t1 = with_test(Seq::empty(), "applies_to_domains", start, f.domains);
    let t2 = with_test(t1, "applies_to_skills", f1.next, f.skills);
    let t3 = with_test(t2, "applies_to_projects", f2.next, f.projects);
    with_test(t3, "applies_to_situations", f3.next, f.situations)
}

/// The filter for the facets selects the rows that apply to everything that they name,
/// and no others, where its values are bound from parameter `start` on.
pub proof fn lemma_filter_selects_what_applies(
    f: Facets,
    start: i32,
    sql_text: Seq<char>,
    binds: Seq<Seq<Seq<char>>>,
    c: Context,
    more: Seq<Value>,
)
    requires
        1 <= start,
        start + facet_count(f@) <= i32::MAX,
        sql_text == contains_filter(f@, start as int).sql,
        binds == contains_filter(f@, start as int).binds,
        more.len() == binds.len(),
        forall|i: int| 0 <= i < more.len() ==> #[trigger] more[i] == Value::Texts(binds[i]),
        forall|i: int| 0 <= i < more.len() ==> c.params[start - 1 + i] == #[trigger] more[i],
    ensures
        sql_text == clauses(filter_tests(f@, start as int)),
        all_select(filter_tests(f@, start as int), c) <==> {
            &&& sql::includes(c.row.facets.domains, text::texts(f.domains@))
            &&& sql::includes(c.row.facets.skills, text::texts(f.skills@))
            &&& sql::includes(c.row.facets.projects, text::texts(f.projects@))
            &&& sql::includes(c.row.facets.situations, text::texts(f.situations@))
        },
{
    sql::lemma_words(c);
    let s = start as int;
    let f0 = FilterView { sql: Seq::empty(), binds: Seq::empty(), next: s };
    let f1 = with_column(f0, "applies_to_domains"@, f@.domains);
    let f2 = with_column(f1, "applies_to_skills"@, f@.skills);
    let f3 = with_column(f2, "applies_to_projects"@, f@.projects);
    let f4 = with_column(f3, "applies_to_situations"@, f@.situations);
    let t0 = Seq::<Expr>::empty();
    let t1 = with_test(t0, "applies_to_domains", s, f@.domains);
    let t2 = with_test(t1, "applies_to_skills", f1.next, f@.skills);
    let t3 = with_test(t2, "applies_to_projects", f2.next, f@.projects);
    assert(f4.binds == binds);
    assert forall|i: int| 0 <= i < f3.binds.len() implies f3.binds[i] == f4.binds[i] by {}
    assert forall|i: int| 0 <= i < f2.binds.len() implies f2.binds[i] == f3.binds[i] by {}
    assert forall|i: int| 0 <= i < f1.binds.len() implies f1.binds[i] == f2.binds[i] by {}
    assert forall|i: int| 0 <= i < f1.binds.len() implies #[trigger] more[i] == Value::Texts(
        f1.binds[i],
    ) by {
        assert(f1.binds[i] == f4.binds[i]);
    }
    assert forall|i: int| 0 <= i < f2.binds.len() implies #[trigger] more[i] == Value::Texts(
        f2.binds[i],
    ) by {
        assert(f2.binds[i] == f4.binds[i]);
    }
    assert forall|i: int| 0 <= i < f3.binds.len() implies #[trigger] more[i] == Value::Texts(
        f3.binds[i],
    ) by {
        assert(f3.binds[i] == f4.binds[i]);
    }
    lemma_with_column(f0, t0, "applies_to_domains", f@.domains, s, c, more);
    lemma_with_column(f1, t1, "applies_to_skills", f@.skills, s, c, more);
    lemma_with_column(f2, t2, "applies_to_projects", f@.projects, s, c, more);
    lemma_with_column(f3, t3, "applies_to_situations", f@.situations, s, c, more);
}

proof fn lemma_filter_clause(column: &'static str, n: i32)
    ensures
        filter_clause(column@, n as int) == " AND "@ + sql::written(
            sql::if_named(n, sql::column_to(column, "@>", n)),
        ),
{
    reveal_with_fuel(sql::written, 6);
    reveal_strlit(" AND ($");
    reveal_strlit(" AND ");
    reveal_strlit("(");
    reveal_strlit("$");
    reveal_strlit("::text[] = '{}' OR ");
    reveal_strlit("::");
    reveal_strlit("text[]");
    reveal_strlit(" ");
    reveal_strlit("=");
    reveal_strlit("'{}'");
    reveal_strlit("OR");
    reveal_strlit(" @> $");
    reveal_strlit("@>");
    let number = text::integer(n as int);
    assert(" AND ($"@ =~= " AND "@ + "("@ + "$"@);
    assert(" @> $"@ =~= " "@ + "@>"@ + " "@ + "$"@);
    assert("::text[] = '{}' OR "@ =~= "::"@ + "text[]"@ + " "@ + "="@ + " "@ + "'{}'"@ + " "@
        + "OR"@ + " "@);
    let inner = ("$"@ + number) + "::"@ + "text[]"@;
    let named = inner + " "@ + "="@ + " "@ + "'{}'"@;
    let held = column@ + " "@ + "@>"@ + " "@ + ("$"@ + number);
    let whole = named + " "@ + "OR"@ + " "@ + held;
    assert(sql::written(sql::if_named(n, sql::column_to(column, "@>", n))) =~= "("@ + whole
        + ")"@);
    assert(filter_clause(column@, n as int) =~= " AND "@ + ("("@ + whole + ")"@));
}

/// The clauses for all facets are conditions on the four columns, in order, each with a
/// parameter of its own: a list that names nothing lets every row pass, and another
/// lets those pass that hold all of it.
pub proof fn lemma_filter_clauses_mean(start: i32, c: Context)
    requires
        1 <= start,
        start + 3 <= i32::MAX,
        c.params[start - 1] is Texts,
        c.params[start as int] is Texts,
        c.params[start + 1] is Texts,
        c.params[start + 2] is Texts,
    ensures
        ({
            let n1 = (start + 1) as i32;
            let n2 = (start + 2) as i32;
            let n3 = (start + 3) as i32;
            let tests = seq![
                sql::if_named(start, sql::column_to("applies_to_domains", "@>", start)),
                sql::if_named(n1, sql::column_to("applies_to_skills", "@>", n1)),
                sql::if_named(n2, sql::column_to("applies_to_projects", "@>", n2)),
                sql::if_named(n3, sql::column_to("applies_to_situations", "@>", n3)),
            ];
            &&& filter_clauses(start as int) == clauses(tests)
            &&& all_select(tests, c) <==> {
                &&& sql::includes(c.row.facets.domains, c.params[start - 1]->Texts_0)
                &&& sql::includes(c.row.facets.skills, c.params[start as int]->Texts_0)
                &&& sql::includes(c.row.facets.projects, c.params[start + 1]->Texts_0)
                &&& sql::includes(c.row.facets.situations, c.params[start + 2]->Texts_0)
            }
        }),
{
    let n1 = (start + 1) as i32;
    let n2 = (start + 2) as i32;
    let n3 = (start + 3) as i32;
    let a = sql::if_named(start, sql::column_to("applies_to_domains", "@>", start));
    let b = sql::if_named(n1, sql::column_to("applies_to_skills", "@>", n1));
    let d = sql::if_named(n2, sql::column_to("applies_to_projects", "@>", n2));
    let e = sql::if_named(n3, sql::column_to("applies_to_situations", "@>", n3));
    let tests = seq![a, b, d, e];
    lemma_filter_clause("applies_to_domains", start);
    lemma_filter_clause("applies_to_skills", n1);
    lemma_filter_clause("applies_to_projects", n2);
    lemma_filter_clause("applies_to_situations", n3);
    reveal_with_fuel(clauses, 5);
    assert(tests.drop_last() =~= seq![a, b, d]);
    assert(tests.drop_last().drop_last() =~= seq![a, b]);
    assert(tests.drop_last().drop_last().drop_last() =~= seq![a]);
    assert(tests.drop_last().drop_last().drop_last().drop_last() =~= Seq::<Expr>::empty());
    assert(filter_clauses(start as int) =~= clauses(tests));
    sql::lemma_words(c);
    sql::lemma_column_to("applies_to_domains", start, c);
    sql::lemma_column_to("applies_to_skills", n1, c);
    sql::lemma_column_to("applies_to_projects", n2, c);
    sql::lemma_column_to("applies_to_situations", n3, c);
    sql::lemma_if_named(start, sql::column_to("applies_to_domains", "@>", start), c);
    sql::lemma_if_named(n1, sql::column_to("applies_to_skills", "@>", n1), c);
    sql::lemma_if_named(n2, sql::column_to("applies_to_projects", "@>", n2), c);
    sql::lemma_if_named(n3, sql::column_to("applies_to_situations", "@>", n3), c);
    if all_select(tests, c) {
        assert(sql::selects(tests[0], c));
        assert(sql::selects(tests[1], c));
        assert(sql::selects(tests[2], c));
        assert(sql::selects(tests[3], c));
    }
}

// ---- Unions ---------------------------------------------------------------------

/// What has facets.
pub trait HasFacets {
    /// What the facets are; none, where an implementation does not say.
    open spec fn facet_texts(&self) -> FacetsView {
        no_facets()
    }

    fn domains(&self) -> (r: &[String])
        ensures
            text::texts(r@) == self.facet_texts().domains,
    ;

    fn skills(&self) -> (r: &[String])
        ensures
            text::texts(r@) == self.facet_texts().skills,
    ;

    fn projects(&self) -> (r: &[String])
        ensures
            text::texts(r@) == self.facet_texts().projects,
    ;

    fn situations(&self) -> (r: &[String])
        ensures
            text::texts(r@) == self.facet_texts().situations,
    ;
}

impl HasFacets for Facets {
    open spec fn facet_texts(&self) -> FacetsView {
        self@
    }

    fn domains(&self) -> (r: &[String]) {
        self.domains.as_slice()
    }

    fn skills(&self) -> (r: &[String]) {
        self.skills.as_slice()
    }

    fn projects(&self) -> (r: &[String]) {
        self.projects.as_slice()
    }

    fn situations(&self) -> (r: &[String]) {
        self.situations.as_slice()
    }
}

/// Whether the texts are in lexicographic order, each once.
pub open spec fn ascending(s: Seq<Seq<char>>) -> bool {
    forall|i: int, j: int|
        0 <= i < j < s.len() ==> text::text_before(#[trigger] s[i], #[trigger] s[j])
}

/// Whether one of the lists holds the text.
pub open spec fn occurs_in(t: Seq<char>, lists: Seq<Seq<Seq<char>>>) -> bool {
    exists|i: int| 0 <= i < lists.len() && (#[trigger] lists[i]).contains(t)
}

/// Whether `result` holds the texts of all of `lists`, in lexicographic order,
/// each once.
pub open spec fn is_union(result: Seq<Seq<char>>, lists: Seq<Seq<Seq<char>>>) -> bool {
    &&& ascending(result)
    &&& forall|t: Seq<char>| #[trigger]
        result.contains(t) <==> occurs_in(t, lists)
}

/// The domains of each item.
pub open spec fn all_domains<T: HasFacets>(items: Seq<T>) -> Seq<Seq<Seq<char>>> {
    items.map_values(|t: T| t.facet_texts().domains)
}

/// The skills of each item.
pub open spec fn all_skills<T: HasFacets>(items: Seq<T>) -> Seq<Seq<Seq<char>>> {
    items.map_values(|t: T| t.facet_texts().skills)
}

/// The projects of each item.
pub open spec fn all_projects<T: HasFacets>(items: Seq<T>) -> Seq<Seq<Seq<char>>> {
    items.map_values(|t: T| t.facet_texts().projects)
}

/// The situations of each item.
pub open spec fn all_situations<T: HasFacets>(items: Seq<T>) -> Seq<Seq<Seq<char>>> {
    items.map_values(|t: T| t.facet_texts().situations)
}

/// Adds a text to a list that is in order.
pub(crate) fn insert_text(v: &mut Vec<String>, s: &str)
    requires
        ascending(text::texts(old(v)@)),
    ensures
        ascending(text::texts(final(v)@)),
        forall|t: Seq<char>| #[trigger]
            text::texts(final(v)@).contains(t) <==> text::texts(old(v)@).contains(t) || t == s@,
{
    let ghost before = text::texts(v@);
    let mut p: usize = 0;
    while p < v.len() && is_text_before(v[p].as_str(), s)
        invariant
            before == text::texts(v@),
            p <= v@.len(),
            forall|i: int| 0 <= i < p ==> text::text_before(#[trigger] before[i], s@),
        decreases v@.len() - p,
    {
        assert(before[p as int] == v@[p as int]@);
        p = p + 1;
    }
    if p < v.len() && str_eq(v[p].as_str(), s) {
        assert(before[p as int] == s@);
        return ;
    }
    v.insert(p, s.to_owned());
    let ghost after = text::texts(v@);
    proof {
        assert(after =~= before.insert(p as int, s@));
        assert forall|i: int, j: int| 0 <= i < j < after.len() implies text::text_before(
            #[trigger] after[i],
            #[trigger] after[j],
        ) by {
            if i == p {
                assert(after[j] == before[j - 1]);
                text::lemma_text_before_total(before[p as int], s@);
                if p < j - 1 {
                    assert(text::text_before(before[p as int], before[j - 1]));
                    text::lemma_text_before_transitive(s@, before[p as int], before[j - 1]);
                }
            } else if j == p {
                assert(after[i] == before[i]);
            } else {
                let a = if i < p { i } else { i - 1 };
                let b = if j < p { j } else { j - 1 };
                assert(after[i] == before[a]);
                assert(after[j] == before[b]);
            }
        }
        assert forall|t: Seq<char>| #[trigger] after.contains(t) <==> before.contains(t) || t
            == s@ by {
            if after.contains(t) {
                let k = choose|k: int| 0 <= k < after.len() && after[k] == t;
                if k < p {
                    assert(before[k] == t);
                } else if k > p {
                    assert(before[k - 1] == t);
                }
            }
            if before.contains(t) {
                let k = choose|k: int| 0 <= k < before.len() && before[k] == t;
                if k < p {
                    assert(after[k] == t);
                } else {
                    assert(after[k + 1] == t);
                }
            }
            if t == s@ {
                assert(after[p as int] == t);
            }
        }
    }
}

fn insert_all(v: &mut Vec<String>, list: &[String], Ghost(lists): Ghost<Seq<Seq<Seq<char>>>>)
    requires
        is_union(text::texts(old(v)@), lists),
    ensures
        is_union(text::texts(final(v)@), lists.push(text::texts(list@))),
{
    let ghost added = text::texts(list@);
    let ghost before = text::texts(v@);
    for i in 0..list.len()
        invariant
            added == text::texts(list@),
            ascending(text::texts(v@)),
            forall|t: Seq<char>| #[trigger]
                text::texts(v@).contains(t) <==> before.contains(t) || added.take(
                    i as int,
                ).contains(t),
    {
        let ghost mid = text::texts(v@);
        insert_text(v, list[i].as_str());
        let ghost now = text::texts(v@);
        assert forall|t: Seq<char>| #[trigger] now.contains(t) <==> before.contains(t)
            || added.take(i + 1).contains(t) by {
            assert(mid.contains(t) <==> before.contains(t) || added.take(i as int).contains(t));
            assert(added.take(i + 1) =~= added.take(i as int).push(added[i as int]));
            assert(added[i as int] == list@[i as int]@);
            vstd::seq_lib::lemma_seq_contains_after_push(added.take(i as int), added[i as int], t);
        }
    }
    proof {
        let now = text::texts(v@);
        assert(added.take(added.len() as int) =~= added);
        let more = lists.push(added);
        assert forall|t: Seq<char>| #[trigger] now.contains(t) <==> occurs_in(t, more) by {
            if before.contains(t) {
                let k = choose|k: int| 0 <= k < lists.len() && (#[trigger] lists[k]).contains(t);
                assert(more[k] == lists[k]);
            }
            if added.contains(t) {
                assert(more[lists.len() as int].contains(t));
            }
            if occurs_in(t, more) {
                let k = choose|k: int| 0 <= k < more.len() && (#[trigger] more[k]).contains(t);
                if k < lists.len() {
                    assert(lists[k].contains(t));
                }
            }
        }
    }
}

impl Facets {
    /// The facets of all items together, each list in lexicographic order and
    /// without repetition.
    pub fn distinct_union<T: HasFacets>(items: &[T]) -> (r: Facets)
        ensures
            is_union(r@.domains, all_domains(items@)),
            is_union(r@.skills, all_skills(items@)),
            is_union(r@.projects, all_projects(items@)),
            is_union(r@.situations, all_situations(items@)),
    {
        let mut r = Facets::default();
        for i in 0..items.len()
            invariant
                is_union(r@.domains, all_domains(items@.take(i as int))),
                is_union(r@.skills, all_skills(items@.take(i as int))),
                is_union(r@.projects, all_projects(items@.take(i as int))),
                is_union(r@.situations, all_situations(items@.take(i as int))),
        {
            let ghost done = items@.take(i as int);
            let ghost next = items@.take(i + 1);
            let item = &items[i];
            insert_all(&mut r.domains, item.domains(), Ghost(all_domains(done)));
            insert_all(&mut r.skills, item.skills(), Ghost(all_skills(done)));
            insert_all(&mut r.projects, item.projects(), Ghost(all_projects(done)));
            insert_all(&mut r.situations, item.situations(), Ghost(all_situations(done)));
            assert(all_domains(next) =~= all_domains(done).push(item.facet_texts().domains));
            assert(all_skills(next) =~= all_skills(done).push(item.facet_texts().skills));
            assert(all_projects(next) =~= all_projects(done).push(item.facet_texts().projects));
            assert(all_situations(next) =~= all_situations(done).push(
                item.facet_texts().situations,
            ));
        }
        assert(items@.take(items@.len() as int) =~= items@);
        r
    }
}

// ---- Laws -----------------------------------------------------------------------

proof fn lemma_ascending_drop_last(a: Seq<Seq<char>>, t: Seq<char>)
    requires
        ascending(a),
        a.len() > 0,
    ensures
        ascending(a.drop_last()),
        a.drop_last().contains(t) <==> a.contains(t) && t != a.last(),
{
    let d = a.drop_last();
    if d.contains(t) {
        let k = choose|k: int| 0 <= k < d.len() && d[k] == t;
        assert(a[k] == t);
        assert(text::text_before(a[k], a[a.len() - 1]));
        text::lemma_text_before_irreflexive(t);
    }
    if a.contains(t) && t != a.last() {
        let k = choose|k: int| 0 <= k < a.len() && a[k] == t;
        assert(d[k] == t);
    }
}

/// Texts in lexicographic order, each once, are determined by which texts they
/// are.
pub proof fn lemma_ascending_unique(a: Seq<Seq<char>>, b: Seq<Seq<char>>)
    requires
        ascending(a),
        ascending(b),
        forall|t: Seq<char>| #[trigger] a.contains(t) <==> b.contains(t),
    ensures
        a == b,
    decreases a.len(),
{
    if a.len() == 0 {
        if b.len() > 0 {
            assert(b.contains(b[0]));
            assert(a.contains(b[0]));
        }
        assert(a =~= b);
    } else {
        assert(a.contains(a[0]));
        assert(b.len() > 0);
        let x = a.last();
        let y = b.last();
        if x != y {
            assert(a.contains(x));
            assert(b.contains(y));
            assert(b.contains(x));
            assert(a.contains(y));
            let k = choose|k: int| 0 <= k < b.len() && b[k] == x;
            let m = choose|m: int| 0 <= m < a.len() && a[m] == y;
            assert(text::text_before(b[k], b[b.len() - 1]));
            assert(text::text_before(a[m], a[a.len() - 1]));
            text::lemma_text_before_transitive(x, y, x);
            text::lemma_text_before_irreflexive(x);
        }
        let c = a.drop_last();
        let d = b.drop_last();
        assert forall|t: Seq<char>| #[trigger] c.contains(t) <==> d.contains(t) by {
            lemma_ascending_drop_last(a, t);
            lemma_ascending_drop_last(b, t);
            assert(a.contains(t) <==> b.contains(t));
        }
        lemma_ascending_drop_last(a, x);
        lemma_ascending_drop_last(b, y);
        lemma_ascending_unique(c, d);
        assert(a =~= c.push(x));
        assert(b =~= d.push(y));
    }
}

/// The union depends only on which texts occur: neither the order of the lists
/// nor repetition in or among them matters.
pub proof fn lemma_union_ignores_order(
    a: Seq<Seq<char>>,
    a_lists: Seq<Seq<Seq<char>>>,
    b: Seq<Seq<char>>,
    b_lists: Seq<Seq<Seq<char>>>,
)
    requires
        is_union(a, a_lists),
        is_union(b, b_lists),
        forall|t: Seq<char>| #[trigger] occurs_in(t, a_lists) <==> occurs_in(t, b_lists),
    ensures
        a == b,
{
    assert forall|t: Seq<char>| #[trigger] a.contains(t) <==> b.contains(t) by {}
    lemma_ascending_unique(a, b);
}

/// A union is the union of itself alone: to unite again changes nothing.
pub proof fn lemma_union_is_idempotent(a: Seq<Seq<char>>, lists: Seq<Seq<Seq<char>>>)
    requires
        is_union(a, lists),
    ensures
        is_union(a, seq![a]),
{
    let one = seq![a];
    assert forall|t: Seq<char>| #[trigger] a.contains(t) <==> occurs_in(t, one) by {
        assert(one[0] == a);
    }
}

/// The union of facets unites each list with its like: a text is among the domains of
/// the union exactly where it is among the domains of one of the items, and so for the
/// skills, the projects and the situations.
pub proof fn lemma_union_is_list_by_list(items: Seq<Facets>, r: Facets, t: Seq<char>)
    requires
        is_union(r@.domains, all_domains(items)),
        is_union(r@.skills, all_skills(items)),
        is_union(r@.projects, all_projects(items)),
        is_union(r@.situations, all_situations(items)),
    ensures
        text::texts(r.domains@).contains(t) <==> exists|i: int|
            0 <= i < items.len() && text::texts((#[trigger] items[i]).domains@).contains(t),
        text::texts(r.skills@).contains(t) <==> exists|i: int|
            0 <= i < items.len() && text::texts((#[trigger] items[i]).skills@).contains(t),
        text::texts(r.projects@).contains(t) <==> exists|i: int|
            0 <= i < items.len() && text::texts((#[trigger] items[i]).projects@).contains(t),
        text::texts(r.situations@).contains(t) <==> exists|i: int|
            0 <= i < items.len() && text::texts((#[trigger] items[i]).situations@).contains(t),
{
    assert(r@.domains.contains(t) <==> occurs_in(t, all_domains(items)));
    assert(r@.skills.contains(t) <==> occurs_in(t, all_skills(items)));
    assert(r@.projects.contains(t) <==> occurs_in(t, all_projects(items)));
    assert(r@.situations.contains(t) <==> occurs_in(t, all_situations(items)));
    assert forall|i: int| 0 <= i < items.len() implies {
        &&& all_domains(items)[i] == text::texts((#[trigger] items[i]).domains@)
        &&& all_skills(items)[i] == text::texts(items[i].skills@)
        &&& all_projects(items)[i] == text::texts(items[i].projects@)
        &&& all_situations(items)[i] == text::texts(items[i].situations@)
    } by {}
    if occurs_in(t, all_domains(items)) {
        let i = choose|i: int|
            0 <= i < items.len() && (#[trigger] all_domains(items)[i]).contains(t);
        assert(text::texts(items[i].domains@).contains(t));
    }
    if occurs_in(t, all_skills(items)) {
        let i = choose|i: int|
            0 <= i < items.len() && (#[trigger] all_skills(items)[i]).contains(t);
        assert(text::texts(items[i].skills@).contains(t));
    }
    if occurs_in(t, all_projects(items)) {
        let i = choose|i: int|
            0 <= i < items.len() && (#[trigger] all_projects(items)[i]).contains(t);
        assert(text::texts(items[i].projects@).contains(t));
    }
    if occurs_in(t, all_situations(items)) {
        let i = choose|i: int|
            0 <= i < items.len() && (#[trigger] all_situations(items)[i]).contains(t);
        assert(text::texts(items[i].situations@).contains(t));
    }
    if exists|i: int|
        0 <= i < items.len() && text::texts((#[trigger] items[i]).domains@).contains(t) {
        let i = choose|i: int|
            0 <= i < items.len() && text::texts((#[trigger] items[i]).domains@).contains(t);
        assert(all_domains(items)[i].contains(t));
    }
    if exists|i: int|
        0 <= i < items.len() && text::texts((#[trigger] items[i]).skills@).contains(t) {
        let i = choose|i: int|
            0 <= i < items.len() && text::texts((#[trigger] items[i]).skills@).contains(t);
        assert(all_skills(items)[i].contains(t));
    }
    if exists|i: int|
        0 <= i < items.len() && text::texts((#[trigger] items[i]).projects@).contains(t) {
        let i = choose|i: int|
            0 <= i < items.len() && text::texts((#[trigger] items[i]).projects@).contains(t);
        assert(all_projects(items)[i].contains(t));
    }
    if exists|i: int|
        0 <= i < items.len() && text::texts((#[trigger] items[i]).situations@).contains(t) {
        let i = choose|i: int|
            0 <= i < items.len() && text::texts((#[trigger] items[i]).situations@).contains(t);
        assert(all_situations(items)[i].contains(t));
    }
}

/// A restriction names in each list what it is given for that list, and nothing where
/// it is given none.
pub proof fn lemma_restriction_is_list_by_list(a: AppliesTo, r: Facets)
    requires
        r@ == a.facets(),
    ensures
        match a.domains {
            Some(v) => text::texts(r.domains@) == text::texts(v@),
            None => r.domains@.len() == 0,
        },
        match a.skills {
            Some(v) => text::texts(r.skills@) == text::texts(v@),
            None => r.skills@.len() == 0,
        },
        match a.projects {
            Some(v) => text::texts(r.projects@) == text::texts(v@),
            None => r.projects@.len() == 0,
        },
        match a.situations {
            Some(v) => text::texts(r.situations@) == text::texts(v@),
            None => r.situations@.len() == 0,
        },
{
    assert(text::texts(r.domains@).len() == r.domains@.len());
    assert(text::texts(r.skills@).len() == r.skills@.len());
    assert(text::texts(r.projects@).len() == r.projects@.len());
    assert(text::texts(r.situations@).len() == r.situations@.len());
}

} // verus!
