//! Search queries: which kinds of statement, on which tables.

use crate::split::{
    count_of, join, joined, lemma_count_parts, lemma_split_at_last_sep, lemma_split_len,
    lemma_split_without_sep, rows, split, split_on, texts,
};
use crate::statement_type::{display_name, kind_of_char, StatementType};
use crate::text::{chars_of, has_char, string_of};
use vstd::prelude::*;

verus! {

/// One search clause: a statement matches it when its kind is among
/// `statement_types` and its table among `tables`.
#[derive(Debug)]
pub struct SearchQuery {
    pub statement_types: Vec<StatementType>,
    pub tables: Vec<String>,
}

/// What a query says: kinds and table names as sequences.
pub struct QueryView {
    pub kinds: Seq<StatementType>,
    pub tables: Seq<Seq<char>>,
}

impl View for SearchQuery {
    type V = QueryView;

    open spec fn view(&self) -> QueryView {
        QueryView { kinds: self.statement_types@, tables: texts(self.tables@) }
    }
}

/// What each query of a list says.
pub open spec fn query_views(queries: Seq<SearchQuery>) -> Seq<QueryView> {
    queries.map_values(|q: SearchQuery| q@)
}

/// The kinds a wildcard stands for: every kind that changes data.
pub open spec fn wildcard_kinds() -> Seq<StatementType> {
    seq![
        StatementType::Insert,
        StatementType::Update,
        StatementType::Delete,
        StatementType::Merge,
    ]
}

/// The kinds that the characters of `s` select, each once, in the order of
/// their first selector. A character that selects nothing adds nothing.
pub open spec fn selected_kinds(s: Seq<char>) -> Seq<StatementType>
    decreases s.len(),
{
    if s.len() == 0 {
        Seq::empty()
    } else {
        let before = selected_kinds(s.drop_last());
        match kind_of_char(s.last()) {
            Some(k) => if before.contains(k) {
                before
            } else {
                before.push(k)
            },
            None => before,
        }
    }
}

/// The kinds that a kind specifier stands for: the wildcard kinds where it
/// holds `*`, else the kinds its characters select.
pub open spec fn kinds_of(s: Seq<char>) -> Seq<StatementType> {
    if s.contains('*') {
        wildcard_kinds()
    } else {
        selected_kinds(s)
    }
}

/// The query that a clause specifier stands for. Without a colon, the
/// specifier is a table list for the wildcard kinds; with one colon, a kind
/// specifier and a table list; with more, nothing.
pub open spec fn parse_query(spec: Seq<char>) -> Option<QueryView> {
    let parts = split_on(spec, ':');
    if parts.len() == 1 {
        Some(QueryView { kinds: wildcard_kinds(), tables: split_on(parts[0], ',') })
    } else if parts.len() == 2 {
        Some(QueryView { kinds: kinds_of(parts[0]), tables: split_on(parts[1], ',') })
    } else {
        None
    }
}

/// The queries that a list of clause specifiers stands for, in order, without
/// the specifiers that stand for nothing.
pub open spec fn parse_queries(specs: Seq<Seq<char>>) -> Seq<QueryView>
    decreases specs.len(),
{
    if specs.len() == 0 {
        Seq::empty()
    } else {
        let before = parse_queries(specs.drop_last());
        match parse_query(specs.last()) {
            Some(q) => before.push(q),
            None => before,
        }
    }
}

/// The upper-case names of the given kinds.
pub open spec fn kind_names(kinds: Seq<StatementType>) -> Seq<Seq<char>> {
    kinds.map_values(|k: StatementType| display_name(k))
}

/// The regular expression that matches the name of any of the kinds as a
/// whole word, in either case.
pub open spec fn statement_pattern_of(kinds: Seq<StatementType>) -> Seq<char> {
    "\\b((?i)"@ + join(kind_names(kinds), '|') + ")\\b"@
}

/// The regular expression that matches any of the table names where a word
/// ends behind it.
pub open spec fn table_pattern_of(tables: Seq<Seq<char>>) -> Seq<char> {
    "("@ + join(tables, '|') + ")\\b"@
}

/// The selected kinds hold no kind twice, and hold exactly the kinds that some
/// character of the specifier selects.
pub proof fn lemma_selected_kinds(s: Seq<char>)
    ensures
        selected_kinds(s).no_duplicates(),
        forall|k: StatementType| #[trigger]
            selected_kinds(s).contains(k) <==> exists|i: int|
                0 <= i < s.len() && kind_of_char(#[trigger] s[i]) == Some(k),
    decreases s.len(),
{
    if s.len() > 0 {
        let head = s.drop_last();
        let before = selected_kinds(head);
        lemma_selected_kinds(head);
        assert forall|k: StatementType| #[trigger]
            selected_kinds(s).contains(k) <==> exists|i: int|
                0 <= i < s.len() && kind_of_char(#[trigger] s[i]) == Some(k) by {
            if selected_kinds(s).contains(k) {
                if before.contains(k) {
                    let i = choose|i: int|
                        0 <= i < head.len() && kind_of_char(#[trigger] head[i]) == Some(k);
                    assert(s[i] == head[i]);
                } else {
                    let j = choose|j: int|
                        0 <= j < selected_kinds(s).len() && selected_kinds(s)[j] == k;
                    assert(kind_of_char(s[s.len() - 1]) == Some(k));
                }
            }
            if exists|i: int| 0 <= i < s.len() && kind_of_char(#[trigger] s[i]) == Some(k) {
                let i = choose|i: int| 0 <= i < s.len() && kind_of_char(#[trigger] s[i]) == Some(k);
                if i < s.len() - 1 {
                    assert(head[i] == s[i]);
                    assert(before.contains(k));
                    let j = choose|j: int| 0 <= j < before.len() && before[j] == k;
                    assert(selected_kinds(s)[j] == k);
                } else {
                    if before.contains(k) {
                    } else {
                        assert(selected_kinds(s)[before.len() as int] == k);
                    }
                }
            }
        }
    }
}

/// A kind specifier that holds the wildcard stands for insert, update, delete
/// and merge, and never for select, whatever else it holds.
pub proof fn lemma_wildcard_kinds(s: Seq<char>)
    requires
        s.contains('*'),
    ensures
        kinds_of(s) == wildcard_kinds(),
        kinds_of(s).to_set() =~= set![
            StatementType::Insert,
            StatementType::Update,
            StatementType::Delete,
            StatementType::Merge,
        ],
        !kinds_of(s).contains(StatementType::Select),
{
    let w = wildcard_kinds();
    assert(w[0] == StatementType::Insert);
    assert(w[1] == StatementType::Update);
    assert(w[2] == StatementType::Delete);
    assert(w[3] == StatementType::Merge);
}

/// A clause specifier with exactly one colon stands for a query whose tables
/// are the comma-separated pieces of what follows the colon, in order, and
/// whose kinds are those of what precedes it.
pub proof fn lemma_single_colon(spec: Seq<char>, at: int)
    requires
        0 <= at < spec.len(),
        spec[at] == ':',
        count_of(spec, ':') == 1,
    ensures
        parse_query(spec) is Some,
        parse_query(spec)->0.tables == split_on(spec.skip(at + 1), ','),
        parse_query(spec)->0.kinds == kinds_of(spec.take(at)),
{
    lemma_count_parts(spec, ':', at);
    lemma_count_parts(spec.skip(at), ':', 1);
    assert(spec.skip(at).skip(1) =~= spec.skip(at + 1));
    assert(spec.skip(at).take(1) =~= seq![':']);
    assert(seq![':'].drop_last() =~= Seq::<char>::empty());
    assert(count_of(seq![':'], ':') == 1) by {
        assert(count_of(seq![':'].drop_last(), ':') == 0);
    }
    lemma_split_at_last_sep(spec, ':', at);
    lemma_split_without_sep(spec.take(at), ':');
}

/// A clause specifier without a colon stands for a query on the wildcard
/// kinds whose tables are its comma-separated pieces.
pub proof fn lemma_no_colon(spec: Seq<char>)
    requires
        count_of(spec, ':') == 0,
    ensures
        parse_query(spec) is Some,
        parse_query(spec)->0.tables == split_on(spec, ','),
        parse_query(spec)->0.kinds == wildcard_kinds(),
{
    lemma_split_without_sep(spec, ':');
}

/// A clause specifier stands for a query exactly where it has at most one
/// colon.
pub proof fn lemma_parse_query_some(spec: Seq<char>)
    ensures
        parse_query(spec) is Some <==> count_of(spec, ':') <= 1,
{
    lemma_split_len(spec, ':');
}

/// Whether `kinds` holds `kind`.
pub fn has_kind(kinds: &Vec<StatementType>, kind: StatementType) -> (found: bool)
    ensures
        found == kinds@.contains(kind),
{
    let mut i: usize = 0;
    while i < kinds.len()
        invariant
            i <= kinds@.len(),
            forall|j: int| 0 <= j < i ==> kinds@[j] != kind,
        decreases kinds@.len() - i,
    {
        if kinds[i] == kind {
            return true;
        }
        i += 1;
    }
    false
}

/// The kinds that a kind specifier given as characters stands for.
pub fn kinds_from_chars(s: &[char]) -> (kinds: Vec<StatementType>)
    ensures
        kinds@ == kinds_of(s@),
{
    if has_char(s, '*') {
        let kinds = vec![
            StatementType::Insert,
            StatementType::Update,
            StatementType::Delete,
            StatementType::Merge,
        ];
        assert(kinds@ =~= wildcard_kinds());
        return kinds;
    }
    let mut kinds: Vec<StatementType> = Vec::new();
    let mut i: usize = 0;
    while i < s.len()
        invariant
            i <= s@.len(),
            kinds@ == selected_kinds(s@.take(i as int)),
        decreases s@.len() - i,
    {
        proof {
            assert(s@.take(i + 1).drop_last() =~= s@.take(i as int));
        }
        match StatementType::from_char(s[i]) {
            Some(k) => {
                if !has_kind(&kinds, k) {
                    kinds.push(k);
                }
            },
            None => {},
        }
        i += 1;
    }
    assert(s@.take(s@.len() as int) =~= s@);
    kinds
}

/// Resolves a kind specifier: `*` anywhere in it gives insert, update, delete
/// and merge; else each of `s`, `i`, `u`, `d`, `m` gives its kind once, and
/// other characters give nothing.
pub fn parse_statement_types(statement_types: &str) -> (kinds: Vec<StatementType>)
    ensures
        kinds@ == kinds_of(statement_types@),
        statement_types@.contains('*') ==> kinds@ == wildcard_kinds(),
        kinds@.no_duplicates(),
        !statement_types@.contains('*') ==> forall|k: StatementType| #[trigger]
            kinds@.contains(k) <==> exists|i: int|
                0 <= i < statement_types@.len() && kind_of_char(#[trigger] statement_types@[i])
                    == Some(k),
{
    let chars = chars_of(statement_types);
    proof {
        lemma_selected_kinds(statement_types@);
    }
    kinds_from_chars(chars.as_slice())
}

/// The strings made of the given character vectors.
pub fn strings_of(parts: &Vec<Vec<char>>) -> (out: Vec<String>)
    ensures
        texts(out@) == rows(parts@),
{
    let mut out: Vec<String> = Vec::new();
    let mut i: usize = 0;
    while i < parts.len()
        invariant
            i <= parts@.len(),
            texts(out@) == rows(parts@).take(i as int),
        decreases parts@.len() - i,
    {
        let ghost before = out@;
        let s = string_of(parts[i].as_slice());
        let ghost piece = s@;
        out.push(s);
        proof {
            assert(texts(out@) =~= texts(before).push(piece));
            assert(rows(parts@).take(i + 1) =~= rows(parts@).take(i as int).push(piece));
        }
        i += 1;
    }
    assert(rows(parts@).take(parts@.len() as int) =~= rows(parts@));
    out
}

impl SearchQuery {
    /// Reads one clause specifier: a table list, or a kind specifier, a
    /// colon and a table list. A specifier with more than one colon gives
    /// `None`.
    pub fn parse(spec: &str) -> (query: Option<SearchQuery>)
        ensures
            query is Some == parse_query(spec@) is Some,
            query is Some ==> query->0@ == parse_query(spec@)->0,
            query is Some <==> count_of(spec@, ':') <= 1,
    {
        let chars = chars_of(spec);
        let parts = split(chars.as_slice(), ':');
        proof {
            lemma_parse_query_some(spec@);
            assert(rows(parts@).len() == parts@.len());
        }
        if parts.len() == 1 {
            assert(rows(parts@)[0] == parts@[0]@);
            let tables = split(parts[0].as_slice(), ',');
            let star = ['*'];
            let kinds = kinds_from_chars(star.as_slice());
            proof {
                assert(star@[0] == '*');
                assert(star@.contains('*'));
            }
            Some(SearchQuery { statement_types: kinds, tables: strings_of(&tables) })
        } else if parts.len() == 2 {
            assert(rows(parts@)[0] == parts@[0]@);
            assert(rows(parts@)[1] == parts@[1]@);
            let kinds = kinds_from_chars(parts[0].as_slice());
            let tables = split(parts[1].as_slice(), ',');
            Some(SearchQuery { statement_types: kinds, tables: strings_of(&tables) })
        } else {
            None
        }
    }

    /// The pattern that finds a statement keyword of this query anywhere in
    /// a file: the upper-case names of its kinds as alternatives, matched as
    /// whole words in either case.
    pub fn statement_pattern(&self) -> (pattern: String)
        ensures
            pattern@ == statement_pattern_of(self@.kinds),
    {
        let mut names: Vec<String> = Vec::new();
        let mut i: usize = 0;
        while i < self.statement_types.len()
            invariant
                i <= self.statement_types@.len(),
                texts(names@) == kind_names(self.statement_types@).take(i as int),
            decreases self.statement_types@.len() - i,
        {
            let ghost before = names@;
            let name = self.statement_types[i].to_string();
            let ghost piece = name@;
            names.push(name);
            proof {
                assert(texts(names@) =~= texts(before).push(piece));
                assert(kind_names(self.statement_types@).take(i + 1) =~= kind_names(
                    self.statement_types@,
                ).take(i as int).push(piece));
            }
            i += 1;
        }
        assert(kind_names(self.statement_types@).take(self.statement_types@.len() as int)
            =~= kind_names(self.statement_types@));
        let mut pattern = String::from_str("\\b((?i)");
        pattern.append(joined(&names, '|').as_str());
        pattern.append(")\\b");
        pattern
    }

    /// The pattern that finds a table name of this query anywhere in a
    /// file: the names as alternatives, with a word end behind.
    pub fn table_pattern(&self) -> (pattern: String)
        ensures
            pattern@ == table_pattern_of(self@.tables),
    {
        let mut pattern = String::from_str("(");
        pattern.append(joined(&self.tables, '|').as_str());
        pattern.append(")\\b");
        pattern
    }
}

/// Reads a list of clause specifiers into queries, in order. A specifier
/// with more than one colon is left out.
pub fn parse_search_queries(strings: Vec<String>) -> (queries: Vec<SearchQuery>)
    ensures
        query_views(queries@) == parse_queries(texts(strings@)),
{
    let mut queries: Vec<SearchQuery> = Vec::new();
    let mut i: usize = 0;
    while i < strings.len()
        invariant
            i <= strings@.len(),
            query_views(queries@) == parse_queries(texts(strings@).take(i as int)),
        decreases strings@.len() - i,
    {
        proof {
            assert(texts(strings@).take(i + 1).drop_last() =~= texts(strings@).take(i as int));
            assert(texts(strings@).take(i + 1).last() == strings@[i as int]@);
        }
        let ghost before = queries@;
        match SearchQuery::parse(strings[i].as_str()) {
            Some(q) => {
                let ghost qv = q@;
                queries.push(q);
                assert(query_views(queries@) =~= query_views(before).push(qv));
            },
            None => {},
        }
        i += 1;
    }
    assert(texts(strings@).take(strings@.len() as int) =~= texts(strings@));
    queries
}

} // verus!
