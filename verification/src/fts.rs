//! Full-text-search queries: tokenizing a user query into `+`/`-`-prefixed
//! terms and quoted phrases, and building the match and boolean queries that
//! the search engines run.

use vstd::prelude::*;
use crate::text::{chars_equal, chars_of, trim_bounds, trim_spec};

verus! {

/// How a clause of a boolean query takes part in the match.
#[derive(Debug, Clone, Copy, PartialEq, Eq)]
pub enum Occur {
    Should,
    Must,
    MustNot,
}

/// How the terms of one match query combine.
#[derive(Debug, Clone, Copy, PartialEq, Eq)]
pub enum Operator {
    And,
    Or,
}

/// A match query on the terms of `terms`, on `column` when it is set, with
/// `operator` when it is set (else the engine's default).
#[derive(Debug, Clone, PartialEq, Eq)]
pub struct MatchQuery {
    pub terms: String,
    pub column: Option<String>,
    pub operator: Option<Operator>,
}

/// A full-text-search query: one match query, or a boolean combination of
/// match queries.
#[derive(Debug, Clone, PartialEq, Eq)]
pub enum FtsQuery {
    Match(MatchQuery),
    Boolean(Vec<(Occur, MatchQuery)>),
}

/// The mathematical value of a `MatchQuery`.
pub struct MatchQueryView {
    pub terms: Seq<char>,
    pub column: Option<Seq<char>>,
    pub operator: Option<Operator>,
}

/// The mathematical value of an `FtsQuery`.
pub enum FtsQueryView {
    Match(MatchQueryView),
    Boolean(Seq<(Occur, MatchQueryView)>),
}

pub open spec fn opt_string_view(s: Option<String>) -> Option<Seq<char>> {
    match s {
        Some(t) => Some(t@),
        None => None,
    }
}

impl View for MatchQuery {
    type V = MatchQueryView;

    open spec fn view(&self) -> MatchQueryView {
        MatchQueryView {
            terms: self.terms@,
            column: opt_string_view(self.column),
            operator: self.operator,
        }
    }
}

pub open spec fn clause_view(c: (Occur, MatchQuery)) -> (Occur, MatchQueryView) {
    (c.0, c.1@)
}

impl View for FtsQuery {
    type V = FtsQueryView;

    open spec fn view(&self) -> FtsQueryView {
        match self {
            FtsQuery::Match(m) => FtsQueryView::Match(m@),
            FtsQuery::Boolean(cs) => FtsQueryView::Boolean(cs@.map_values(|c| clause_view(c))),
        }
    }
}

/// The token pattern: an optional `+` or `-` prefix, then either a phrase
/// in double quotes or a run of non-space characters.
pub open spec fn token_pattern() -> Seq<char> {
    "(?P<prefix>[+-]?)(?:\"(?P<phrase>[^\"]+)\"|(?P<term>\\S+))"@
}

/// The names of the pattern's groups, in the order captures hand them out.
pub open spec fn token_groups() -> Seq<Seq<char>> {
    seq!["prefix"@, "phrase"@, "term"@]
}

/// For each match of `pattern` in `text`, from left to right, the text of
/// each capture group named in `groups`, in that order (`None` for a group
/// that took no part in the match); `None` when `pattern` does not compile.
/// The result of `regex::Regex::captures_iter`.
pub uninterp spec fn regex_named_captures(
    pattern: Seq<char>,
    text: Seq<char>,
    groups: Seq<Seq<char>>,
) -> Option<Seq<Seq<Option<Seq<char>>>>>;

pub open spec fn strings_view(v: Seq<String>) -> Seq<Seq<char>> {
    v.map_values(|s: String| s@)
}

pub open spec fn groups_view(g: Vec<Option<String>>) -> Seq<Option<Seq<char>>> {
    g@.map_values(|s: Option<String>| opt_string_view(s))
}

pub open spec fn captures_view(c: Vec<Vec<Option<String>>>) -> Seq<Seq<Option<Seq<char>>>> {
    c@.map_values(|g: Vec<Option<String>>| groups_view(g))
}

/// Compiles `pattern` with `regex::Regex::new` and walks
/// `regex::Regex::captures_iter` over `text`, handing out for every match
/// the text of each group named in `groups`. The contract claims that the
/// result is `regex_named_captures` of the arguments, and that each match
/// hands out one entry per name in `groups` (the conversion below maps over
/// `groups`).
#[verifier::external_body]
fn regex_captures(pattern: &str, text: &str, groups: &Vec<String>) -> (r: Option<
    Vec<Vec<Option<String>>>,
>)
    ensures
        r is None <==> regex_named_captures(pattern@, text@, strings_view(groups@)) is None,
        r matches Some(c) ==> regex_named_captures(pattern@, text@, strings_view(groups@))
            == Some(captures_view(c)),
        r matches Some(c) ==> forall|i: int| 0 <= i < c@.len() ==> #[trigger] c@[i]@.len()
            == groups@.len(),
{
    let re = regex::Regex::new(pattern).ok()?;
    Some(
        re.captures_iter(text).map(
            |caps| groups.iter().map(|g| caps.name(g).map(|m| m.as_str().to_string())).collect(),
        ).collect(),
    )
}

/// The text of group `i` of one match, if it took part.
pub open spec fn group_at(groups: Seq<Option<Seq<char>>>, i: int) -> Option<Seq<char>> {
    if 0 <= i < groups.len() {
        groups[i]
    } else {
        None
    }
}

/// The clause that one token match gives, from its prefix, phrase and term
/// groups: a phrase is matched with all its terms, a bare term with any;
/// `+` makes the clause required, `-` excluded; a token with no text gives
/// no clause.
pub open spec fn clause_of(groups: Seq<Option<Seq<char>>>, column: Seq<char>) -> Option<
    (Occur, MatchQueryView),
> {
    let prefix = match group_at(groups, 0) {
        Some(p) => p,
        None => Seq::empty(),
    };
    let text = match group_at(groups, 1) {
        Some(p) => p,
        None => match group_at(groups, 2) {
            Some(t) => t,
            None => Seq::empty(),
        },
    };
    if text.len() == 0 {
        None
    } else {
        let operator = if group_at(groups, 1) is Some {
            Operator::And
        } else {
            Operator::Or
        };
        let occur = if prefix == "+"@ {
            Occur::Must
        } else if prefix == "-"@ {
            Occur::MustNot
        } else {
            Occur::Should
        };
        Some((occur, MatchQueryView { terms: text, column: Some(column), operator: Some(operator) }))
    }
}

/// The clauses of all token matches, in order.
pub open spec fn clauses_of(caps: Seq<Seq<Option<Seq<char>>>>, column: Seq<char>) -> Seq<
    (Occur, MatchQueryView),
>
    decreases caps.len(),
{
    if caps.len() == 0 {
        Seq::empty()
    } else {
        let rest = clauses_of(caps.drop_last(), column);
        match clause_of(caps.last(), column) {
            Some(c) => rest.push(c),
            None => rest,
        }
    }
}

/// The query that a list of clauses gives: with none, a match query on the
/// empty text; with exactly one optional clause, that clause's match query;
/// otherwise the boolean query of all clauses.
pub open spec fn query_of_clauses(clauses: Seq<(Occur, MatchQueryView)>, column: Seq<char>) -> FtsQueryView {
    if clauses.len() == 0 {
        FtsQueryView::Match(
            MatchQueryView { terms: Seq::empty(), column: Some(column), operator: None },
        )
    } else if clauses.len() == 1 && clauses[0].0 == Occur::Should {
        FtsQueryView::Match(clauses[0].1)
    } else {
        FtsQueryView::Boolean(clauses)
    }
}

fn clause_from_groups(groups: &Vec<Option<String>>, column: &str) -> (r: Option<
    (Occur, MatchQuery),
>)
    ensures
        match r {
            Some(c) => clause_of(groups_view(*groups), column@) == Some(clause_view(c)),
            None => clause_of(groups_view(*groups), column@) is None,
        },
{
    let ghost g = groups_view(*groups);
    let prefix: Vec<char> = if groups.len() > 0 {
        match &groups[0] {
            Some(p) => chars_of(p.as_str()),
            None => Vec::new(),
        }
    } else {
        Vec::new()
    };
    let phrase: Option<&String> = if groups.len() > 1 {
        match &groups[1] {
            Some(p) => Some(p),
            None => None,
        }
    } else {
        None
    };
    let term: Option<&String> = if groups.len() > 2 {
        match &groups[2] {
            Some(p) => Some(p),
            None => None,
        }
    } else {
        None
    };
    let is_phrase = phrase.is_some();
    let text: String = match phrase {
        Some(p) => p.clone(),
        None => match term {
            Some(t) => t.clone(),
            None => String::new(),
        },
    };
    assert(group_at(g, 1) is Some == is_phrase);
    if text.as_str().is_empty() {
        return None;
    }
    let operator = if is_phrase {
        Operator::And
    } else {
        Operator::Or
    };
    let occur = if chars_equal(&prefix, &chars_of("+")) {
        Occur::Must
    } else if chars_equal(&prefix, &chars_of("-")) {
        Occur::MustNot
    } else {
        Occur::Should
    };
    let column_name = column.to_string();
    Some((occur, MatchQuery { terms: text, column: Some(column_name), operator: Some(operator) }))
}

/// The clauses of the token matches `captures`, in order (each match given
/// as its prefix, phrase and term groups).
pub fn clauses_from_captures(captures: &Vec<Vec<Option<String>>>, column: &str) -> (r: Vec<
    (Occur, MatchQuery),
>)
    ensures
        r@.map_values(|c| clause_view(c)) == clauses_of(captures_view(*captures), column@),
{
    let mut r: Vec<(Occur, MatchQuery)> = Vec::new();
    let n = captures.len();
    let mut i: usize = 0;
    while i < n
        invariant
            i <= n == captures.len(),
            r@.map_values(|c| clause_view(c)) == clauses_of(
                captures_view(*captures).take(i as int),
                column@,
            ),
        decreases n - i,
    {
        let ghost caps = captures_view(*captures);
        assert(caps.take(i + 1).drop_last() == caps.take(i as int));
        assert(caps.take(i + 1).last() == groups_view(captures[i as int]));
        let ghost r0 = r@;
        match clause_from_groups(&captures[i], column) {
            Some(c) => {
                r.push(c);
                assert(r@.map_values(|c| clause_view(c)) == r0.map_values(|c| clause_view(c)).push(
                    clause_view(c),
                ));
            },
            None => {},
        }
        i = i + 1;
    }
    assert(captures_view(*captures).take(n as int) == captures_view(*captures));
    r
}

/// The query of a list of clauses (see `query_of_clauses`).
pub fn query_from_clauses(mut clauses: Vec<(Occur, MatchQuery)>, column: &str) -> (q: FtsQuery)
    ensures
        q@ == query_of_clauses(clauses@.map_values(|c| clause_view(c)), column@),
{
    if clauses.len() == 0 {
        let empty = String::new();
        let q = FtsQuery::Match(
            MatchQuery { terms: empty, column: Some(column.to_string()), operator: None },
        );
        assert(q@ == query_of_clauses(clauses@.map_values(|c| clause_view(c)), column@));
        return q;
    }
    let ghost all = clauses@;
    if clauses.len() == 1 && matches!(clauses[0].0, Occur::Should) {
        let (_occur, m) = clauses.remove(0);
        assert(all.map_values(|c| clause_view(c))[0] == clause_view(all[0]));
        return FtsQuery::Match(m);
    }
    FtsQuery::Boolean(clauses)
}


/// Every clause that token matches give searches `column` for nonempty
/// text with an operator set: `And` exactly for a phrase.
pub proof fn lemma_clauses_well_formed(caps: Seq<Seq<Option<Seq<char>>>>, column: Seq<char>)
    ensures
        forall|i: int|
            0 <= i < clauses_of(caps, column).len() ==> {
                let c = #[trigger] clauses_of(caps, column)[i];
                &&& c.1.terms.len() > 0
                &&& c.1.column == Some(column)
                &&& c.1.operator is Some
            },
    decreases caps.len(),
{
    if caps.len() > 0 {
        lemma_clauses_well_formed(caps.drop_last(), column);
        let rest = clauses_of(caps.drop_last(), column);
        match clause_of(caps.last(), column) {
            Some(c) => {
                assert forall|i: int| 0 <= i < rest.len() implies rest.push(c)[i] == rest[i] by {}
            },
            None => {},
        }
    }
}

/// The prefix of a token alone decides how its clause takes part, for a
/// quoted phrase as for a bare term: `+` makes it required, `-` excluded,
/// and no prefix optional. A phrase matches all its terms and a bare term
/// any of them. A query of one such token is a boolean query of its one
/// clause when the token has a prefix (so `-"p"` excludes the documents
/// that hold the phrase `p`), and the clause's own match query otherwise.
pub proof fn lemma_token_clause(prefix: Seq<char>, text: Seq<char>, column: Seq<char>)
    requires
        text.len() > 0,
    ensures
        ({
            let phrase = seq![Some(prefix), Some(text), None::<Seq<char>>];
            let term = seq![Some(prefix), None::<Seq<char>>, Some(text)];
            let occur = if prefix == "+"@ {
                Occur::Must
            } else if prefix == "-"@ {
                Occur::MustNot
            } else {
                Occur::Should
            };
            let pm = MatchQueryView {
                terms: text,
                column: Some(column),
                operator: Some(Operator::And),
            };
            let tm = MatchQueryView { terms: text, column: Some(column), operator: Some(Operator::Or) };
            &&& clause_of(phrase, column) == Some((occur, pm))
            &&& clause_of(term, column) == Some((occur, tm))
            &&& clause_of(phrase, column) matches Some(cp) && clause_of(term, column) matches Some(ct)
                && cp.0 == ct.0
            &&& query_of_clauses(clauses_of(seq![phrase], column), column) == if occur
                == Occur::Should {
                FtsQueryView::Match(pm)
            } else {
                FtsQueryView::Boolean(seq![(occur, pm)])
            }
            &&& query_of_clauses(clauses_of(seq![term], column), column) == if occur
                == Occur::Should {
                FtsQueryView::Match(tm)
            } else {
                FtsQueryView::Boolean(seq![(occur, tm)])
            }
        }),
{
    let phrase = seq![Some(prefix), Some(text), None::<Seq<char>>];
    let term = seq![Some(prefix), None::<Seq<char>>, Some(text)];
    assert(group_at(phrase, 0) == Some(prefix));
    assert(group_at(phrase, 1) == Some(text));
    assert(group_at(term, 0) == Some(prefix));
    assert(group_at(term, 1) is None);
    assert(group_at(term, 2) == Some(text));
    let one_p = seq![phrase];
    let one_t = seq![term];
    assert(one_p.drop_last() =~= Seq::<Seq<Option<Seq<char>>>>::empty());
    assert(one_t.drop_last() =~= Seq::<Seq<Option<Seq<char>>>>::empty());
    assert(clauses_of(one_p.drop_last(), column).len() == 0);
    assert(clauses_of(one_t.drop_last(), column).len() == 0);
    assert(one_p.last() == phrase);
    assert(one_t.last() == term);
    let cp = clause_of(phrase, column)->0;
    let ct = clause_of(term, column)->0;
    assert(clauses_of(one_p, column) =~= seq![cp]);
    assert(clauses_of(one_t, column) =~= seq![ct]);
}

/// The query of the token matches `captures` (each given as its prefix,
/// phrase and term groups) on `column`.
pub fn fts_query_from_captures(captures: &Vec<Vec<Option<String>>>, column: &str) -> (q: FtsQuery)
    ensures
        q@ == query_of_clauses(clauses_of(captures_view(*captures), column@), column@),
{
    let clauses = clauses_from_captures(captures, column);
    query_from_clauses(clauses, column)
}

/// The full-text-search query on `column` for a user query: the query is
/// split into tokens by the token pattern; a quoted phrase matches all its
/// terms, a bare token any of its terms; a `+` prefix makes a token
/// required and a `-` prefix excluded. `None` only when the token pattern
/// is refused by the regular-expression engine.
pub fn build_fts_query(query: &str, column: &str) -> (r: Option<FtsQuery>)
    ensures
        match regex_named_captures(token_pattern(), query@, token_groups()) {
            None => r is None,
            Some(caps) => r matches Some(q) && q@ == query_of_clauses(
                clauses_of(caps, column@),
                column@,
            ),
        },
{
    let groups: Vec<String> = vec!["prefix".to_string(), "phrase".to_string(), "term".to_string()];
    assert(strings_view(groups@) == token_groups());
    let pattern = "(?P<prefix>[+-]?)(?:\"(?P<phrase>[^\"]+)\"|(?P<term>\\S+))";
    match regex_captures(pattern, query, &groups) {
        None => None,
        Some(captures) => Some(fts_query_from_captures(&captures, column)),
    }
}

/// The text searched for a user query, which is the query as given.
pub fn sanitize_query(query: &str) -> (r: String)
    ensures
        r@ == query@,
{
    query.to_string()
}

/// The match query for a user query on the `text` column: the sanitized
/// query, any of whose terms may match; `None` when the query is blank
/// (only white space).
pub fn build_query(query: &str) -> (r: Option<FtsQuery>)
    ensures
        trim_spec(query@).len() == 0 <==> r is None,
        r matches Some(q) ==> q@ == FtsQueryView::Match(
            MatchQueryView { terms: query@, column: Some("text"@), operator: Some(Operator::Or) },
        ),
{
    let sanitized = sanitize_query(query);
    let chars = chars_of(sanitized.as_str());
    let (start, end) = trim_bounds(&chars);
    if start == end {
        return None;
    }
    let m = MatchQuery {
        terms: sanitized,
        column: Some("text".to_string()),
        operator: Some(Operator::Or),
    };
    Some(FtsQuery::Match(m))
}

} // verus!
