//! The ranked searches: by text, by vector distance, and by both fused.
#[allow(unused_imports)]
use vstd::prelude::*;
#[allow(unused_imports)]
use vstd::string::*;
#[allow(unused_imports)]
use vstd::utf8::*;

use crate::dsl;
use crate::dsl::{
    BindV, CtxV, EqBind, FilterExpr, FilterV, HybridSearchQuery, HybridSearchV, Paginate, PaginateV,
    PrincipalCtx, SearchMode, SearchQuery, SearchV, VectorSearchQuery, VectorSearchV,
};
use crate::error;
use crate::error::{ErrorV, RtDbError};
use crate::json;
use crate::json::{JsonNumber, NumberV};
use crate::number;
use crate::pagination;
use crate::pagination::decode_cursor;
use crate::query::compiled;
use crate::query::compiled::{
    page_row_count, table_ref_text, CompiledQuery, CompiledV, MAX_TAKE,
};
use crate::query::filter;
use crate::query::filter::{compile_filter, placeholder_text, push_row_conditions, quote};
use crate::query::keyset;
use crate::query::keyset::{build_cursor_conditions, SortCol, SortColV, SortKey, SortKeyV};
use crate::schema;
use crate::schema::{pg_col, pg_search_col, pg_vector_col, IndexDef, IndexV, TableDef, TableV};
use crate::text;
use crate::text::{cat2, cat3, cat5, cat6, cat7, dec_usize, join};

verus! {

/// The longest text of a search, in bytes.
pub const MAX_SEARCH_QUERY_BYTES: usize = 4096;

/// The most rows of a vector search.
pub const VECTOR_SEARCH_MAX_LIMIT: u32 = 256;

/// What a search compiler knows besides the search: where it runs, and for whom.
pub struct CompileSearchCtx<'a> {
    pub db: &'a str,
    pub table_name: &'a str,
    pub table_def: &'a TableDef,
    pub ctx: &'a PrincipalCtx,
    pub include_deleted: bool,
}

/// The mathematical form of a search context.
pub struct SearchCtxV {
    pub db: Seq<char>,
    pub table_name: Seq<char>,
    pub table: TableV,
    pub ctx: CtxV,
    pub include_deleted: bool,
}

impl<'a> View for CompileSearchCtx<'a> {
    type V = SearchCtxV;

    open spec fn view(&self) -> SearchCtxV {
        SearchCtxV {
            db: self.db@,
            table_name: self.table_name@,
            table: self.table_def@,
            ctx: self.ctx@,
            include_deleted: self.include_deleted,
        }
    }
}

/// The parsed text query, in the language of the index where it names one.
pub open spec fn tsquery(language: Option<Seq<char>>, ph: nat) -> Seq<char> {
    match language {
        Some(lang) => "websearch_to_tsquery('"@ + lang + "'::regconfig, "@ + filter::placeholder(ph)
            + ")"@,
        None => "websearch_to_tsquery("@ + filter::placeholder(ph) + ")"@,
    }
}

fn websearch_tsquery_sql(language: &Option<String>, ph: u128) -> (s: String)
    ensures
        s@ == tsquery(text::opt_str(*language), ph as nat),
{
    match language {
        Some(lang) => cat5(
            "websearch_to_tsquery('",
            lang.as_str(),
            "'::regconfig, ",
            placeholder_text(ph).as_str(),
            ")",
        ),
        None => cat3("websearch_to_tsquery(", placeholder_text(ph).as_str(), ")"),
    }
}

/// An index that a search can use: a vector index or a text-search index, with
/// the given name where one is given.
pub open spec fn usable(ix: IndexV, name: Option<Seq<char>>, vector: bool) -> bool {
    (name matches Some(n) ==> ix.name == n) && if vector {
        ix.vector is Some
    } else {
        ix.search
    }
}

/// The first index that a search can use.
pub open spec fn first_usable(
    indexes: Seq<IndexV>,
    name: Option<Seq<char>>,
    vector: bool,
) -> Option<IndexV>
    decreases indexes.len(),
{
    if indexes.len() == 0 {
        None
    } else if usable(indexes[0], name, vector) {
        Some(indexes[0])
    } else {
        first_usable(indexes.drop_first(), name, vector)
    }
}

fn find_usable<'a>(t: &'a TableDef, name: Option<&str>, vector: bool) -> (r: Option<&'a IndexDef>)
    ensures
        match first_usable(t@.indexes, text::opt_slice(name), vector) {
            Some(ix) => r matches Some(x) && x@ == ix,
            None => r is None,
        },
{
    let ghost all = t@.indexes;
    let mut i: usize = 0;
    assert(all.skip(0) =~= all);
    while i < t.indexes.len()
        invariant
            i <= t.indexes@.len(),
            all == t@.indexes,
            first_usable(all, text::opt_slice(name), vector) == first_usable(
                all.skip(i as int),
                text::opt_slice(name),
                vector,
            ),
        decreases t.indexes@.len() - i,
    {
        assert(all.skip(i as int)[0] == t.indexes@[i as int]@);
        assert(all.skip(i as int).drop_first() =~= all.skip(i as int + 1));
        let named = match name {
            Some(n) => text::same(t.indexes[i].name.as_str(), n),
            None => true,
        };
        let fit = if vector {
            t.indexes[i].vector.is_some()
        } else {
            t.indexes[i].search
        };
        if named && fit {
            return Some(&t.indexes[i]);
        }
        i = i + 1;
    }
    None
}

/// The conditions, each led by a conjunction.
pub open spec fn and_all(conditions: Seq<Seq<char>>) -> Seq<char>
    decreases conditions.len(),
{
    if conditions.len() == 0 {
        Seq::empty()
    } else {
        and_all(conditions.drop_last()) + " AND "@ + conditions.last()
    }
}

fn and_all_text(conditions: &Vec<String>) -> (s: String)
    ensures
        s@ == and_all(text::strs(conditions@)),
{
    let ghost cs = text::strs(conditions@);
    let mut s = String::new();
    let mut i: usize = 0;
    assert(cs.take(0) =~= Seq::<Seq<char>>::empty());
    while i < conditions.len()
        invariant
            i <= conditions@.len(),
            cs == text::strs(conditions@),
            s@ == and_all(cs.take(i as int)),
        decreases conditions@.len() - i,
    {
        assert(cs.take(i as int + 1).drop_last() =~= cs.take(i as int));
        s.append(" AND ");
        s.append(conditions[i].as_str());
        i = i + 1;
    }
    assert(cs.take(conditions@.len() as int) =~= cs);
    s
}

/// The extra conditions of a search and their binds, numbered from `start`: the
/// client filter, then the per-row predicates.
pub open spec fn extra_conditions(c: SearchCtxV, f: Option<FilterV>, start: nat) -> Result<
    (Seq<char>, Seq<BindV>),
    ErrorV,
> {
    let client = match f {
        Some(g) => match filter::client_filter_sql(g, c.table, start, None) {
            Ok((sql, binds)) => Ok((" AND ("@ + sql + ")"@, binds)),
            Err(e) => Err(e),
        },
        None => Ok((Seq::empty(), Seq::empty())),
    };
    match client {
        Ok((lead, binds)) => match filter::with_row_conditions(
            Seq::empty(),
            binds,
            c.table,
            c.ctx,
            c.ctx.user,
            start,
            c.table.soft_delete && !c.include_deleted,
        ) {
            Ok((conditions, all)) => Ok((lead + and_all(conditions), all)),
            Err(e) => Err(e),
        },
        Err(e) => Err(e),
    }
}

fn compile_extra(sctx: &CompileSearchCtx, f: &Option<FilterExpr>, start: u128) -> (r: Result<
    (String, Vec<EqBind>),
    RtDbError,
>)
    requires
        start <= filter::MAX_POSITION,
    ensures
        match extra_conditions(sctx@, schema::opt_view(*f), start as nat) {
            Ok(p) => r matches Ok(x) && x.0@ == p.0 && dsl::bind_views(x.1@) == p.1,
            Err(e) => r matches Err(x) && x@ == e,
        },
{
    let mut lead = String::new();
    let mut binds: Vec<EqBind> = Vec::new();
    let mut conditions: Vec<String> = Vec::new();
    assert(text::strs(conditions@) =~= Seq::<Seq<char>>::empty());
    assert(dsl::bind_views(binds@) =~= Seq::<BindV>::empty());
    if let Some(g) = f {
        match compile_filter(g, sctx.table_def, start) {
            Ok((fragment, more)) => {
                lead = cat3(" AND (", fragment.as_str(), ")");
                binds = more;
            },
            Err(e) => {
                return Err(e);
            },
        }
    }
    let owner: Option<&str> = match &sctx.ctx.user_id {
        Some(s) => Some(s.as_str()),
        None => None,
    };
    assert(text::opt_slice(owner) == sctx@.ctx.user);
    match push_row_conditions(
        &mut conditions,
        &mut binds,
        sctx.table_def,
        sctx.ctx,
        owner,
        start,
        sctx.table_def.soft_delete && !sctx.include_deleted,
    ) {
        Ok(_) => {},
        Err(e) => {
            return Err(e);
        },
    }
    Ok((cat2(lead.as_str(), and_all_text(&conditions).as_str()), binds))
}

/// The sort order of a ranked search: the ranking key, then the newest first.
pub open spec fn ranked_keys(rank: Seq<char>, descending: bool) -> Seq<SortKeyV> {
    seq![
        SortKeyV { column: rank, kind: SortColV::Rank, descending },
        SortKeyV { column: "\"created_at\""@, kind: SortColV::CreatedAt, descending: true },
        SortKeyV { column: "\"id\""@, kind: SortColV::Id, descending: true },
    ]
}

/// The error for a cursor that does not fit the sort order.
pub open spec fn cursor_size_error(has: nat, wants: nat) -> ErrorV {
    error::bad(
        "cursor has "@ + text::dec(has) + " value(s) but this query sorts over "@ + text::dec(wants)
            + " column(s)"@,
    )
}

/// The error for a cursor that does not fit the sort order.
pub fn cursor_size_refused(has: usize, wants: usize) -> (e: RtDbError)
    ensures
        e@ == cursor_size_error(has as nat, wants as nat),
{
    RtDbError::bad_request(
        cat5(
            "cursor has ",
            dec_usize(has).as_str(),
            " value(s) but this query sorts over ",
            dec_usize(wants).as_str(),
            " column(s)",
        ),
    )
}

/// The resume predicate of a ranked search behind `lead`, and its binds; nothing
/// for the first page.
pub open spec fn ranked_resume(
    p: PaginateV,
    rank: Seq<char>,
    descending: bool,
    pos: nat,
    lead: Seq<char>,
) -> Result<(Seq<char>, Seq<BindV>), ErrorV> {
    match p.cursor {
        None => Ok((Seq::empty(), Seq::empty())),
        Some(cursor) => match pagination::cursor_values(cursor) {
            Ok(values) => if values.len() != 3 {
                Err(cursor_size_error(values.len(), 3))
            } else {
                match keyset::resume_sql(values, ranked_keys(rank, descending), pos) {
                    Ok((sql, binds)) => Ok((lead + sql, binds)),
                    Err(e) => Err(e),
                }
            },
            Err(e) => Err(e),
        },
    }
}

fn ranked_cursor_clause(
    paginate: &Paginate,
    rank_sql: &str,
    descending: bool,
    next_bind_idx: u128,
    lead: &str,
) -> (r: Result<(String, Vec<EqBind>), RtDbError>)
    requires
        next_bind_idx <= 0xffff_ffff_ffff_ffff_ffff,
    ensures
        match ranked_resume(paginate@, rank_sql@, descending, next_bind_idx as nat, lead@) {
            Ok(p) => r matches Ok(x) && x.0@ == p.0 && dsl::bind_views(x.1@) == p.1,
            Err(e) => r matches Err(x) && x@ == e,
        },
{
    let cursor = match &paginate.cursor {
        Some(c) => c,
        None => {
            let none: Vec<EqBind> = Vec::new();
            assert(dsl::bind_views(none@) =~= Seq::<BindV>::empty());
            return Ok((String::new(), none));
        },
    };
    let values = match decode_cursor(cursor.as_str()) {
        Ok(v) => v,
        Err(e) => {
            return Err(e);
        },
    };
    assert(json::json_views(values@).len() == values@.len());
    if values.len() != 3 {
        return Err(cursor_size_refused(values.len(), 3));
    }
    let mut keys: Vec<SortKey> = Vec::new();
    keys.push(SortKey { column: rank_sql.to_owned(), kind: SortCol::Rank, descending });
    keys.push(
        SortKey {
            column: "\"created_at\"".to_owned(),
            kind: SortCol::CreatedAt,
            descending: true,
        },
    );
    keys.push(SortKey { column: "\"id\"".to_owned(), kind: SortCol::Id, descending: true });
    assert(keyset::key_views(keys@) =~= ranked_keys(rank_sql@, descending));
    proof {
        keyset::lemma_triangle_closed(3);
    }
    match build_cursor_conditions(&values, &keys, next_bind_idx) {
        Ok((sql, binds)) => Ok((cat2(lead, sql.as_str()), binds)),
        Err(e) => Err(e),
    }
}

/// The columns of the fields, each between `pre` and `post`.
pub open spec fn column_list(fields: Seq<Seq<char>>, pre: Seq<char>, post: Seq<char>) -> Seq<
    Seq<char>,
> {
    Seq::new(fields.len(), |i: int| pre + filter::quoted(schema::column(fields[i])) + post)
}

fn column_texts(fields: &Vec<String>, pre: &str, post: &str) -> (r: Vec<String>)
    ensures
        text::strs(r@) == column_list(text::strs(fields@), pre@, post@),
{
    let mut out: Vec<String> = Vec::new();
    let mut i: usize = 0;
    while i < fields.len()
        invariant
            i <= fields@.len(),
            out@.len() == i,
            forall|k: int|
                0 <= k < i ==> (#[trigger] out@[k])@ == pre@ + filter::quoted(
                    schema::column(fields@[k]@),
                ) + post@,
        decreases fields@.len() - i,
    {
        out.push(cat3(pre, quote(pg_col(fields[i].as_str()).as_str()).as_str(), post));
        i = i + 1;
    }
    assert(text::strs(out@) =~= column_list(text::strs(fields@), pre@, post@));
    out
}

/// The highlighted-excerpt column of a text search.
pub open spec fn snippet_column(ix: IndexV) -> Seq<char> {
    let config = match ix.language {
        Some(lang) => "'"@ + lang + "'::regconfig, "@,
        None => Seq::empty(),
    };
    ", ts_headline("@ + config + "concat_ws(' ', "@ + text::joined(
        column_list(ix.fields, ""@, ""@),
        ", "@,
    ) + "), "@ + tsquery(ix.language, 1)
        + ", 'StartSel=<mark>, StopSel=</mark>, MaxWords=35, MinWords=15')"@
}

fn snippet_column_text(ix: &IndexDef) -> (s: String)
    ensures
        s@ == snippet_column(ix@),
{
    let config = match &ix.language {
        Some(lang) => cat3("'", lang.as_str(), "'::regconfig, "),
        None => String::new(),
    };
    cat7(
        ", ts_headline(",
        config.as_str(),
        "concat_ws(' ', ",
        join(&column_texts(&ix.fields, "", ""), ", ").as_str(),
        "), ",
        websearch_tsquery_sql(&ix.language, 1).as_str(),
        ", 'StartSel=<mark>, StopSel=</mark>, MaxWords=35, MinWords=15')",
    )
}

/// The match condition of a text search.
pub open spec fn match_condition(ix: IndexV, mode: SearchMode) -> Seq<char> {
    match mode {
        SearchMode::Tsquery => filter::quoted(schema::search_column(ix.name)) + " @@ "@ + tsquery(
            ix.language,
            1,
        ),
        SearchMode::Trgm => "("@ + text::joined(column_list(ix.fields, ""@, " ILIKE $2"@), " OR "@)
            + ")"@,
    }
}

/// The ranking key of a text search.
pub open spec fn text_rank(ix: IndexV, mode: SearchMode) -> Seq<char> {
    match mode {
        SearchMode::Tsquery => "ts_rank("@ + filter::quoted(schema::search_column(ix.name)) + ", "@
            + tsquery(ix.language, 1) + ")"@,
        SearchMode::Trgm => "GREATEST("@ + text::joined(
            column_list(ix.fields, "similarity("@, ", $1)"@),
            ", "@,
        ) + ")"@,
    }
}

fn match_condition_text(ix: &IndexDef, mode: SearchMode) -> (s: String)
    ensures
        s@ == match_condition(ix@, mode),
{
    match mode {
        SearchMode::Tsquery => cat3(
            quote(pg_search_col(ix.name.as_str()).as_str()).as_str(),
            " @@ ",
            websearch_tsquery_sql(&ix.language, 1).as_str(),
        ),
        SearchMode::Trgm => cat3(
            "(",
            join(&column_texts(&ix.fields, "", " ILIKE $2"), " OR ").as_str(),
            ")",
        ),
    }
}

fn text_rank_text(ix: &IndexDef, mode: SearchMode) -> (s: String)
    ensures
        s@ == text_rank(ix@, mode),
{
    match mode {
        SearchMode::Tsquery => cat5(
            "ts_rank(",
            quote(pg_search_col(ix.name.as_str()).as_str()).as_str(),
            ", ",
            websearch_tsquery_sql(&ix.language, 1).as_str(),
            ")",
        ),
        SearchMode::Trgm => cat3(
            "GREATEST(",
            join(&column_texts(&ix.fields, "similarity(", ", $1)"), ", ").as_str(),
            ")",
        ),
    }
}

/// The statement of a text search.
pub open spec fn search_statement(
    c: SearchCtxV,
    ix: IndexV,
    mode: SearchMode,
    snippet: bool,
    paged: bool,
    extra: Seq<char>,
    resume: Seq<char>,
    limit: nat,
) -> Seq<char> {
    let rank = text_rank(ix, mode);
    let columns = "SELECT \"id\", \"doc\", \"created_at\", \"version\""@ + (if snippet {
        snippet_column(ix)
    } else {
        Seq::empty()
    }) + (if paged {
        ", "@ + rank + "::float8"@
    } else {
        Seq::empty()
    });
    let source = columns + " FROM "@ + compiled::table_ref(c.db, c.table_name) + " WHERE "@
        + match_condition(ix, mode) + extra + resume;
    source + " ORDER BY "@ + rank + " DESC, \"created_at\" DESC, \"id\" DESC"@
        + compiled::limit_part(limit)
}

fn search_statement_text(
    sctx: &CompileSearchCtx,
    ix: &IndexDef,
    mode: SearchMode,
    snippet: bool,
    paged: bool,
    extra: &str,
    resume: &str,
    limit: u128,
) -> (s: String)
    ensures
        s@ == search_statement(sctx@, ix@, mode, snippet, paged, extra@, resume@, limit as nat),
{
    let rank = text_rank_text(ix, mode);
    let snippet_col = if snippet {
        snippet_column_text(ix)
    } else {
        String::new()
    };
    let rank_col = if paged {
        cat3(", ", rank.as_str(), "::float8")
    } else {
        String::new()
    };
    let columns = cat3(
        "SELECT \"id\", \"doc\", \"created_at\", \"version\"",
        snippet_col.as_str(),
        rank_col.as_str(),
    );
    let source = cat7(
        columns.as_str(),
        " FROM ",
        table_ref_text(sctx.db, sctx.table_name).as_str(),
        " WHERE ",
        match_condition_text(ix, mode).as_str(),
        extra,
        resume,
    );
    cat5(
        source.as_str(),
        " ORDER BY ",
        rank.as_str(),
        " DESC, \"created_at\" DESC, \"id\" DESC",
        compiled::limit_text(limit).as_str(),
    )
}

/// The mode of a text search: by words where none is given.
pub open spec fn mode_of(s: SearchV) -> SearchMode {
    match s.mode {
        Some(m) => m,
        None => SearchMode::Tsquery,
    }
}

/// The binds that a text search starts with: the text, and the pattern of a
/// substring search.
pub open spec fn text_binds(s: SearchV) -> Seq<BindV> {
    match mode_of(s) {
        SearchMode::Tsquery => seq![BindV::Text(s.query)],
        SearchMode::Trgm => seq![BindV::Text(s.query), BindV::Text("%"@ + s.query + "%"@)],
    }
}

/// A text search on an index that was found, compiled.
pub open spec fn search_on(
    c: SearchCtxV,
    s: SearchV,
    ix: IndexV,
    take: Option<u32>,
    p: Option<PaginateV>,
) -> Result<CompiledV, ErrorV> {
    let start = text_binds(s).len() + 1;
    let rank = text_rank(ix, mode_of(s));
    match extra_conditions(c, s.filter, start) {
        Err(e) => Err(e),
        Ok((extra, binds)) => {
            let page = match p {
                Some(p) => ranked_resume(p, rank, true, start + binds.len(), " AND "@),
                None => Ok((Seq::empty(), Seq::empty())),
            };
            match page {
                Err(e) => Err(e),
                Ok((resume, more)) => Ok(
                    CompiledV {
                        sql: search_statement(
                            c,
                            ix,
                            mode_of(s),
                            s.snippet == Some(true),
                            p is Some,
                            extra,
                            resume,
                            start + binds.len() + more.len(),
                        ),
                        binds: (text_binds(s) + binds + more).push(
                            BindV::I64(
                                match p {
                                    Some(p) => compiled::page_rows(p.num_items),
                                    None => match take {
                                        Some(n) => n as i64,
                                        None => MAX_TAKE as i64,
                                    },
                                },
                            ),
                        ),
                        terminal: "search"@,
                    },
                ),
            }
        },
    }
}

/// A text search, compiled.
pub open spec fn search_sql(
    c: SearchCtxV,
    s: SearchV,
    take: Option<u32>,
    p: Option<PaginateV>,
) -> Result<CompiledV, ErrorV> {
    if text::blank(s.query) {
        Err(error::bad("search query text must not be empty"@))
    } else if encode_utf8(s.query).len() > MAX_SEARCH_QUERY_BYTES {
        Err(error::bad("search query text must be at most 4096 bytes"@))
    } else {
        match first_usable(c.table.indexes, Some(s.index), false) {
            None => Err(error::bad("search index '"@ + s.index + "' not found"@)),
            Some(ix) => if s.snippet == Some(true) && mode_of(s) == SearchMode::Trgm {
                Err(error::bad("snippet is only supported in tsquery mode"@))
            } else {
                search_on(c, s, ix, take, p)
            },
        }
    }
}

/// The view of an optional page request.
pub open spec fn opt_page(p: Option<&Paginate>) -> Option<PaginateV> {
    match p {
        Some(x) => Some(x@),
        None => None,
    }
}

/// Compiles a text search: rows that match the text, best ranked first.
#[verifier::rlimit(40)]
pub fn compile_search(
    sctx: &CompileSearchCtx,
    search: &SearchQuery,
    take: Option<u32>,
    paginate: Option<&Paginate>,
) -> (r: Result<CompiledQuery, RtDbError>)
    ensures
        match search_sql(sctx@, search@, take, opt_page(paginate)) {
            Ok(c) => r matches Ok(x) && x@ == c,
            Err(e) => r matches Err(x) && x@ == e,
        },
{
    if text::is_blank(search.query.as_str()) {
        return Err(RtDbError::bad_request("search query text must not be empty".to_owned()));
    }
    if search.query.as_str().as_bytes().len() > MAX_SEARCH_QUERY_BYTES {
        return Err(
            RtDbError::bad_request("search query text must be at most 4096 bytes".to_owned()),
        );
    }
    let ix = match find_usable(sctx.table_def, Some(search.index.as_str()), false) {
        Some(ix) => ix,
        None => {
            return Err(
                RtDbError::bad_request(cat3("search index '", search.index.as_str(), "' not found")),
            );
        },
    };
    let mode = match search.mode {
        Some(m) => m,
        None => SearchMode::Tsquery,
    };
    let snippet = match search.snippet {
        Some(b) => b,
        None => false,
    };
    let trgm = match mode {
        SearchMode::Trgm => true,
        SearchMode::Tsquery => false,
    };
    if snippet && trgm {
        return Err(
            RtDbError::bad_request("snippet is only supported in tsquery mode".to_owned()),
        );
    }
    let mut all: Vec<EqBind> = Vec::new();
    all.push(EqBind::Text(search.query.clone()));
    if trgm {
        all.push(EqBind::Text(cat3("%", search.query.as_str(), "%")));
    }
    assert(dsl::bind_views(all@) =~= text_binds(search@));
    let start: u128 = all.len() as u128 + 1;
    let (extra, mut binds) = match compile_extra(sctx, &search.filter, start) {
        Ok(p) => p,
        Err(e) => {
            return Err(e);
        },
    };
    assert(dsl::bind_views(binds@).len() == binds@.len());
    let cursor_start: u128 = start + binds.len() as u128;
    let rank = text_rank_text(ix, mode);
    let (resume, mut more) = match paginate {
        Some(p) => match ranked_cursor_clause(p, rank.as_str(), true, cursor_start, " AND ") {
            Ok(p) => p,
            Err(e) => {
                return Err(e);
            },
        },
        None => {
            let none: Vec<EqBind> = Vec::new();
            assert(dsl::bind_views(none@) =~= Seq::<BindV>::empty());
            (String::new(), none)
        },
    };
    assert(dsl::bind_views(more@).len() == more@.len());
    let limit_ph: u128 = cursor_start + more.len() as u128;
    let limit_value: i64 = match paginate {
        Some(p) => page_row_count(p.num_items),
        None => match take {
            Some(n) => n as i64,
            None => MAX_TAKE as i64,
        },
    };
    let sql = search_statement_text(
        sctx,
        ix,
        mode,
        snippet,
        paginate.is_some(),
        extra.as_str(),
        resume.as_str(),
        limit_ph,
    );
    proof {
        compiled::lemma_bind_append(all@, binds@);
        compiled::lemma_bind_append(all@ + binds@, more@);
        compiled::lemma_bind_add(all@ + binds@ + more@, EqBind::I64(limit_value));
    }
    all.append(&mut binds);
    all.append(&mut more);
    all.push(EqBind::I64(limit_value));
    Ok(CompiledQuery { sql, binds: all, terminal: "search" })
}

/// The decimal forms of the components of a vector; none where one of them is
/// not a finite number.
pub open spec fn component_forms(v: Seq<NumberV>) -> Option<Seq<Seq<char>>>
    decreases v.len(),
{
    if v.len() == 0 {
        Some(Seq::empty())
    } else {
        match (component_forms(v.drop_last()), number::double_form(number::number_text(v.last()))) {
            (Some(forms), Some(form)) => Some(forms.push(form)),
            _ => None,
        }
    }
}

/// The text of a vector; none where a component is not a finite number.
pub open spec fn vector_text(v: Seq<NumberV>) -> Option<Seq<char>> {
    match component_forms(v) {
        Some(forms) => Some("["@ + text::joined(forms, ","@) + "]"@),
        None => None,
    }
}

proof fn lemma_forms_fail(v: Seq<NumberV>, n: int)
    requires
        0 <= n <= v.len(),
        component_forms(v.take(n)) is None,
    ensures
        component_forms(v) is None,
    decreases v.len(),
{
    if n == v.len() {
        assert(v.take(n) =~= v);
    } else {
        assert(v.drop_last().take(n) =~= v.take(n));
        lemma_forms_fail(v.drop_last(), n);
    }
}

/// The text of a vector; none where a component is not a finite number.
fn render_vector(v: &Vec<JsonNumber>) -> (r: Option<String>)
    ensures
        text::opt_str(r) == vector_text(dsl::number_views(v@)),
{
    let ghost ns = dsl::number_views(v@);
    let mut forms: Vec<String> = Vec::new();
    let mut i: usize = 0;
    assert(ns.take(0) =~= Seq::<NumberV>::empty());
    assert(text::strs(forms@) =~= Seq::<Seq<char>>::empty());
    while i < v.len()
        invariant
            i <= v@.len(),
            ns == dsl::number_views(v@),
            component_forms(ns.take(i as int)) == Some(text::strs(forms@)),
        decreases v@.len() - i,
    {
        assert(ns.take(i as int + 1).drop_last() =~= ns.take(i as int));
        assert(ns.take(i as int + 1).last() == v@[i as int]@);
        match number::double_text(v[i].to_text().as_str()) {
            Some(form) => {
                let ghost before = text::strs(forms@);
                forms.push(form);
                assert(text::strs(forms@) =~= before.push(form@));
            },
            None => {
                proof {
                    lemma_forms_fail(ns, i as int + 1);
                }
                return None;
            },
        }
        i = i + 1;
    }
    assert(ns.take(v@.len() as int) =~= ns);
    Some(cat3("[", join(&forms, ",").as_str(), "]"))
}

/// The distance of a row's vector to the query vector.
pub open spec fn distance(column: Seq<char>, op: Seq<char>, vector_ph: nat) -> Seq<char> {
    filter::quoted(column) + " "@ + op + " "@ + filter::placeholder(vector_ph) + "::vector"@
}

fn distance_text(column: &str, op: &str, vector_ph: u128) -> (s: String)
    ensures
        s@ == distance(column@, op@, vector_ph as nat),
{
    cat6(
        quote(column).as_str(),
        " ",
        op,
        " ",
        placeholder_text(vector_ph).as_str(),
        "::vector",
    )
}

/// The statement of an unpaged vector search.
pub open spec fn vector_statement(
    c: SearchCtxV,
    column: Seq<char>,
    op: Seq<char>,
    extra: Seq<char>,
    vector_ph: nat,
) -> Seq<char> {
    "SELECT \"id\", \"doc\", \"created_at\", \"version\" FROM "@ + compiled::table_ref(
        c.db,
        c.table_name,
    ) + " WHERE "@ + filter::quoted(column) + " IS NOT NULL"@ + extra + " ORDER BY "@ + distance(
        column,
        op,
        vector_ph,
    ) + compiled::limit_part(vector_ph + 1)
}

fn vector_statement_text(
    sctx: &CompileSearchCtx,
    column: &str,
    op: &str,
    extra: &str,
    vector_ph: u128,
) -> (s: String)
    requires
        vector_ph <= filter::MAX_POSITION,
    ensures
        s@ == vector_statement(sctx@, column@, op@, extra@, vector_ph as nat),
{
    text::cat9(
        "SELECT \"id\", \"doc\", \"created_at\", \"version\" FROM ",
        table_ref_text(sctx.db, sctx.table_name).as_str(),
        " WHERE ",
        quote(column).as_str(),
        " IS NOT NULL",
        extra,
        " ORDER BY ",
        distance_text(column, op, vector_ph).as_str(),
        compiled::limit_text(vector_ph + 1).as_str(),
    )
}

/// The candidates of a paged vector search, nearest first.
pub open spec fn vector_candidates(
    c: SearchCtxV,
    column: Seq<char>,
    op: Seq<char>,
    extra: Seq<char>,
    vector_ph: nat,
) -> Seq<char> {
    let d = distance(column, op, vector_ph);
    "WITH cand AS ( SELECT \"id\", \"doc\", \"created_at\", \"version\", ("@ + d
        + ") AS dist FROM "@ + compiled::table_ref(c.db, c.table_name) + " WHERE "@
        + filter::quoted(column) + " IS NOT NULL"@ + extra + " ORDER BY "@ + d
        + compiled::limit_part(vector_ph + 1) + " )"@
}

fn vector_candidates_text(
    sctx: &CompileSearchCtx,
    column: &str,
    op: &str,
    extra: &str,
    vector_ph: u128,
) -> (s: String)
    requires
        vector_ph <= filter::MAX_POSITION,
    ensures
        s@ == vector_candidates(sctx@, column@, op@, extra@, vector_ph as nat),
{
    let d = distance_text(column, op, vector_ph);
    text::cat12(
        "WITH cand AS ( SELECT \"id\", \"doc\", \"created_at\", \"version\", (",
        d.as_str(),
        ") AS dist FROM ",
        table_ref_text(sctx.db, sctx.table_name).as_str(),
        " WHERE ",
        quote(column).as_str(),
        " IS NOT NULL",
        extra,
        " ORDER BY ",
        d.as_str(),
        compiled::limit_text(vector_ph + 1).as_str(),
        " )",
    )
}

/// The statement of a paged vector search: one page of the candidates.
pub open spec fn vector_page_statement(
    candidates: Seq<char>,
    resume: Seq<char>,
    limit: nat,
) -> Seq<char> {
    candidates + " SELECT \"id\", \"doc\", \"created_at\", \"version\", dist FROM cand"@ + resume
        + " ORDER BY dist ASC, \"created_at\" DESC, \"id\" DESC"@ + compiled::limit_part(limit)
}

/// A vector search on an index with its vector text, compiled.
pub open spec fn vector_search_on(
    c: SearchCtxV,
    s: VectorSearchV,
    ix: IndexV,
    vector: Seq<char>,
    p: Option<PaginateV>,
) -> Result<CompiledV, ErrorV> {
    let column = schema::vector_column(ix.name);
    let op = schema::distance_operator(ix.vector->0.metric);
    match extra_conditions(c, s.filter, 1) {
        Err(e) => Err(e),
        Ok((extra, binds)) => {
            let vector_ph = 1 + binds.len();
            let all = binds.push(BindV::Text(vector)).push(BindV::I64(s.limit as i64));
            match p {
                None => Ok(
                    CompiledV {
                        sql: vector_statement(c, column, op, extra, vector_ph),
                        binds: all,
                        terminal: "vectorSearch"@,
                    },
                ),
                Some(p) => match ranked_resume(p, "dist"@, false, vector_ph + 2, " WHERE "@) {
                    Err(e) => Err(e),
                    Ok((resume, more)) => Ok(
                        CompiledV {
                            sql: vector_page_statement(
                                vector_candidates(c, column, op, extra, vector_ph),
                                resume,
                                vector_ph + 2 + more.len(),
                            ),
                            binds: (all + more).push(BindV::I64(compiled::page_rows(p.num_items))),
                            terminal: "vectorSearch"@,
                        },
                    ),
                },
            }
        },
    }
}

/// A vector search, compiled.
pub open spec fn vector_search_sql(c: SearchCtxV, s: VectorSearchV, p: Option<PaginateV>) -> Result<
    CompiledV,
    ErrorV,
> {
    match first_usable(c.table.indexes, Some(s.index), true) {
        None => Err(error::bad("vector index '"@ + s.index + "' not found"@)),
        Some(ix) => {
            let dimensions = ix.vector->0.dimensions;
            if s.vector.len() != dimensions {
                Err(
                    error::bad(
                        "vectorSearch vector length "@ + text::dec(s.vector.len()) + " != index '"@
                            + s.index + "' dimensions "@ + text::dec(dimensions as nat),
                    ),
                )
            } else {
                match vector_text(s.vector) {
                    None => Err(
                        error::bad("vectorSearch query vector must contain only finite numbers"@),
                    ),
                    Some(vector) => if s.limit < 1 || s.limit > VECTOR_SEARCH_MAX_LIMIT {
                        Err(error::bad("vectorSearch limit must be 1..=256"@))
                    } else {
                        vector_search_on(c, s, ix, vector, p)
                    },
                }
            }
        },
    }
}

/// A usable vector index has a vector specification.
proof fn lemma_usable_vector(indexes: Seq<IndexV>, name: Option<Seq<char>>)
    ensures
        first_usable(indexes, name, true) matches Some(ix) ==> ix.vector is Some,
    decreases indexes.len(),
{
    if indexes.len() > 0 {
        lemma_usable_vector(indexes.drop_first(), name);
    }
}

/// Compiles a vector search: rows with a vector, nearest first.
pub fn compile_vector_search(
    sctx: &CompileSearchCtx,
    vs: &VectorSearchQuery,
    paginate: Option<&Paginate>,
) -> (r: Result<CompiledQuery, RtDbError>)
    ensures
        match vector_search_sql(sctx@, vs@, opt_page(paginate)) {
            Ok(c) => r matches Ok(x) && x@ == c,
            Err(e) => r matches Err(x) && x@ == e,
        },
{
    proof {
        lemma_usable_vector(sctx@.table.indexes, Some(vs@.index));
    }
    let ix = match find_usable(sctx.table_def, Some(vs.index.as_str()), true) {
        Some(ix) => ix,
        None => {
            return Err(
                RtDbError::bad_request(cat3("vector index '", vs.index.as_str(), "' not found")),
            );
        },
    };
    let vec_spec = match &ix.vector {
        Some(v) => v,
        None => {
            assert(false);
            return Err(RtDbError::internal("matched vector index has no vector spec".to_owned()));
        },
    };
    assert(dsl::number_views(vs.vector@).len() == vs.vector@.len());
    if vs.vector.len() as u128 != vec_spec.dimensions as u128 {
        return Err(
            RtDbError::bad_request(
                cat6(
                    "vectorSearch vector length ",
                    dec_usize(vs.vector.len()).as_str(),
                    " != index '",
                    vs.index.as_str(),
                    "' dimensions ",
                    text::dec_u64(vec_spec.dimensions as u64).as_str(),
                ),
            ),
        );
    }
    let vector = match render_vector(&vs.vector) {
        Some(v) => v,
        None => {
            return Err(
                RtDbError::bad_request(
                    "vectorSearch query vector must contain only finite numbers".to_owned(),
                ),
            );
        },
    };
    if vs.limit < 1 || vs.limit > VECTOR_SEARCH_MAX_LIMIT {
        return Err(RtDbError::bad_request("vectorSearch limit must be 1..=256".to_owned()));
    }
    let column = pg_vector_col(ix.name.as_str());
    let op = vec_spec.metric.distance_op();
    let (extra, mut all) = match compile_extra(sctx, &vs.filter, 1) {
        Ok(p) => p,
        Err(e) => {
            return Err(e);
        },
    };
    assert(dsl::bind_views(all@).len() == all@.len());
    let vector_ph: u128 = 1 + all.len() as u128;
    let vector_bind = EqBind::Text(vector);
    let limit_bind = EqBind::I64(vs.limit as i64);
    proof {
        compiled::lemma_bind_add(all@, vector_bind);
        compiled::lemma_bind_add(all@.push(vector_bind), limit_bind);
    }
    all.push(vector_bind);
    all.push(limit_bind);
    match paginate {
        None => {
            let sql = vector_statement_text(sctx, column.as_str(), op, extra.as_str(), vector_ph);
            Ok(CompiledQuery { sql, binds: all, terminal: "vectorSearch" })
        },
        Some(p) => {
            let cursor_start: u128 = vector_ph + 2;
            let (resume, mut more) = match ranked_cursor_clause(
                p,
                "dist",
                false,
                cursor_start,
                " WHERE ",
            ) {
                Ok(x) => x,
                Err(e) => {
                    return Err(e);
                },
            };
            assert(dsl::bind_views(more@).len() == more@.len());
            let candidates = vector_candidates_text(
                sctx,
                column.as_str(),
                op,
                extra.as_str(),
                vector_ph,
            );
            let limit_ph: u128 = cursor_start + more.len() as u128;
            let sql = cat5(
                candidates.as_str(),
                " SELECT \"id\", \"doc\", \"created_at\", \"version\", dist FROM cand",
                resume.as_str(),
                " ORDER BY dist ASC, \"created_at\" DESC, \"id\" DESC",
                compiled::limit_text(limit_ph).as_str(),
            );
            let rows = EqBind::I64(page_row_count(p.num_items));
            proof {
                compiled::lemma_bind_append(all@, more@);
                compiled::lemma_bind_add(all@ + more@, rows);
            }
            all.append(&mut more);
            all.push(rows);
            Ok(CompiledQuery { sql, binds: all, terminal: "vectorSearch" })
        },
    }
}

/// The two rankings of a hybrid search: rows that match the text or have a
/// vector, numbered by text rank and by distance.
pub open spec fn hybrid_rankings(
    c: SearchCtxV,
    six: IndexV,
    vix: IndexV,
    extra: Seq<char>,
    vector_ph: nat,
) -> Seq<char> {
    let scol = filter::quoted(schema::search_column(six.name));
    let vcol = schema::vector_column(vix.name);
    let q = tsquery(six.language, 1);
    let d = distance(vcol, schema::distance_operator(vix.vector->0.metric), vector_ph);
    let matched =
        "WITH matched AS ( SELECT \"id\", \"doc\", \"created_at\", \"version\", ts_rank("@ + scol
        + ", "@ + q + ") AS trank, ("@ + d + ") AS dist FROM "@ + compiled::table_ref(
        c.db,
        c.table_name,
    );
    let wanted = matched + " WHERE ("@ + scol + " @@ "@ + q + " OR "@ + filter::quoted(vcol)
        + " IS NOT NULL)"@ + extra;
    wanted
        + " ), ranked AS ( SELECT \"id\", \"doc\", \"created_at\", \"version\", ROW_NUMBER() OVER (ORDER BY trank DESC, \"created_at\" DESC, \"id\" DESC) AS r_text, ROW_NUMBER() OVER (ORDER BY dist ASC NULLS LAST, \"created_at\" DESC, \"id\" DESC) AS r_vec FROM matched )"@
}

fn hybrid_rankings_text(
    sctx: &CompileSearchCtx,
    six: &IndexDef,
    vix: &IndexDef,
    op: &str,
    extra: &str,
    vector_ph: u128,
) -> (s: String)
    requires
        vix@.vector is Some,
        op@ == schema::distance_operator(vix@.vector->0.metric),
    ensures
        s@ == hybrid_rankings(sctx@, six@, vix@, extra@, vector_ph as nat),
{
    let scol = quote(pg_search_col(six.name.as_str()).as_str());
    let vcol = pg_vector_col(vix.name.as_str());
    let q = websearch_tsquery_sql(&six.language, 1);
    let d = distance_text(vcol.as_str(), op, vector_ph);
    let matched = text::cat8(
        "WITH matched AS ( SELECT \"id\", \"doc\", \"created_at\", \"version\", ts_rank(",
        scol.as_str(),
        ", ",
        q.as_str(),
        ") AS trank, (",
        d.as_str(),
        ") AS dist FROM ",
        table_ref_text(sctx.db, sctx.table_name).as_str(),
    );
    let wanted = text::cat9(
        matched.as_str(),
        " WHERE (",
        scol.as_str(),
        " @@ ",
        q.as_str(),
        " OR ",
        quote(vcol.as_str()).as_str(),
        " IS NOT NULL)",
        extra,
    );
    cat2(
        wanted.as_str(),
        " ), ranked AS ( SELECT \"id\", \"doc\", \"created_at\", \"version\", ROW_NUMBER() OVER (ORDER BY trank DESC, \"created_at\" DESC, \"id\" DESC) AS r_text, ROW_NUMBER() OVER (ORDER BY dist ASC NULLS LAST, \"created_at\" DESC, \"id\" DESC) AS r_vec FROM matched )",
    )
}

/// The fused score of a row: the reciprocal ranks added up.
pub open spec fn fused_score(k_ph: nat) -> Seq<char> {
    "(1.0/("@ + filter::placeholder(k_ph) + " + r_text) + 1.0/("@ + filter::placeholder(k_ph)
        + " + r_vec))"@
}

fn fused_score_text(k_ph: u128) -> (s: String)
    ensures
        s@ == fused_score(k_ph as nat),
{
    let ph = placeholder_text(k_ph);
    cat5("(1.0/(", ph.as_str(), " + r_text) + 1.0/(", ph.as_str(), " + r_vec))")
}

/// The statement of an unpaged hybrid search.
pub open spec fn hybrid_statement(rankings: Seq<char>, k_ph: nat) -> Seq<char> {
    rankings + " SELECT \"id\", \"doc\", \"created_at\", \"version\" FROM ranked ORDER BY "@
        + fused_score(k_ph) + " DESC, \"created_at\" DESC, \"id\" DESC"@ + compiled::limit_part(
        k_ph + 1,
    )
}

/// The statement of a paged hybrid search: one page of the best ranked rows.
pub open spec fn hybrid_page_statement(
    rankings: Seq<char>,
    k_ph: nat,
    resume: Seq<char>,
    limit: nat,
) -> Seq<char> {
    rankings + ", scored AS ( SELECT \"id\", \"doc\", \"created_at\", \"version\", "@ + fused_score(
        k_ph,
    )
        + "::float8 AS score FROM ranked ), topk AS ( SELECT \"id\", \"doc\", \"created_at\", \"version\", score FROM scored ORDER BY score DESC, \"created_at\" DESC, \"id\" DESC"@
        + compiled::limit_part(k_ph + 1)
        + " ) SELECT \"id\", \"doc\", \"created_at\", \"version\", score FROM topk"@ + resume
        + " ORDER BY score DESC, \"created_at\" DESC, \"id\" DESC"@ + compiled::limit_part(limit)
}

/// The smoothing constant of a hybrid search: sixty where none is given.
pub open spec fn fusion_k(s: HybridSearchV) -> i64 {
    match s.k {
        Some(k) => k as i64,
        None => 60,
    }
}

/// A hybrid search on its two indexes with its vector text, compiled.
pub open spec fn hybrid_search_on(
    c: SearchCtxV,
    s: HybridSearchV,
    six: IndexV,
    vix: IndexV,
    vector: Seq<char>,
    p: Option<PaginateV>,
) -> Result<CompiledV, ErrorV> {
    match extra_conditions(c, None, 2) {
        Err(e) => Err(e),
        Ok((extra, binds)) => {
            let vector_ph = 2 + binds.len();
            let rankings = hybrid_rankings(c, six, vix, extra, vector_ph);
            let all = (seq![BindV::Text(s.query)] + binds).push(BindV::Text(vector)).push(
                BindV::I64(fusion_k(s)),
            ).push(BindV::I64(s.limit as i64));
            match p {
                None => Ok(
                    CompiledV {
                        sql: hybrid_statement(rankings, vector_ph + 1),
                        binds: all,
                        terminal: "hybridSearch"@,
                    },
                ),
                Some(p) => match ranked_resume(p, "score"@, true, vector_ph + 3, " WHERE "@) {
                    Err(e) => Err(e),
                    Ok((resume, more)) => Ok(
                        CompiledV {
                            sql: hybrid_page_statement(
                                rankings,
                                vector_ph + 1,
                                resume,
                                vector_ph + 3 + more.len(),
                            ),
                            binds: (all + more).push(BindV::I64(compiled::page_rows(p.num_items))),
                            terminal: "hybridSearch"@,
                        },
                    ),
                },
            }
        },
    }
}

/// The error where a hybrid search finds no index: the named one is missing, or
/// the table has none.
pub open spec fn hybrid_index_error(name: Option<Seq<char>>, vector: bool) -> ErrorV {
    match name {
        Some(n) => error::bad(
            (if vector {
                "vector index '"@
            } else {
                "search index '"@
            }) + n + "' not found"@,
        ),
        None => error::bad(
            "hybrid search requires both a search index and a vector index on the table"@,
        ),
    }
}

/// A hybrid search, compiled.
pub open spec fn hybrid_search_sql(c: SearchCtxV, s: HybridSearchV, p: Option<PaginateV>) -> Result<
    CompiledV,
    ErrorV,
> {
    if text::blank(s.query) {
        Err(error::bad("hybrid search query text must not be empty"@))
    } else {
        match first_usable(c.table.indexes, s.search_index, false) {
            None => Err(hybrid_index_error(s.search_index, false)),
            Some(six) => match first_usable(c.table.indexes, s.vector_index, true) {
                None => Err(hybrid_index_error(s.vector_index, true)),
                Some(vix) => {
                    let dimensions = vix.vector->0.dimensions;
                    if s.vector.len() != dimensions {
                        Err(
                            error::bad(
                                "hybridSearch vector length "@ + text::dec(s.vector.len())
                                    + " != vector index '"@ + vix.name + "' dimensions "@
                                    + text::dec(dimensions as nat),
                            ),
                        )
                    } else {
                        match vector_text(s.vector) {
                            None => Err(
                                error::bad(
                                    "hybridSearch query vector must contain only finite numbers"@,
                                ),
                            ),
                            Some(vector) => if s.limit > MAX_TAKE {
                                Err(error::bad("hybridSearch limit exceeds maximum of 4096"@))
                            } else {
                                hybrid_search_on(c, s, six, vix, vector, p)
                            },
                        }
                    }
                },
            },
        }
    }
}

fn hybrid_index<'a>(t: &'a TableDef, name: &Option<String>, vector: bool) -> (r: Result<
    &'a IndexDef,
    RtDbError,
>)
    ensures
        match first_usable(t@.indexes, text::opt_str(*name), vector) {
            Some(ix) => r matches Ok(x) && x@ == ix,
            None => r matches Err(e) && e@ == hybrid_index_error(text::opt_str(*name), vector),
        },
{
    let wanted: Option<&str> = match name {
        Some(n) => Some(n.as_str()),
        None => None,
    };
    assert(text::opt_slice(wanted) == text::opt_str(*name));
    match find_usable(t, wanted, vector) {
        Some(ix) => Ok(ix),
        None => match wanted {
            Some(n) => {
                let lead = if vector {
                    "vector index '"
                } else {
                    "search index '"
                };
                Err(RtDbError::bad_request(cat3(lead, n, "' not found")))
            },
            None => Err(
                RtDbError::bad_request(
                    "hybrid search requires both a search index and a vector index on the table".to_owned(),
                ),
            ),
        },
    }
}

/// Compiles a hybrid search: rows ranked by text and by vector distance, the
/// two rankings fused.
pub fn compile_hybrid_search(
    sctx: &CompileSearchCtx,
    hs: &HybridSearchQuery,
    paginate: Option<&Paginate>,
) -> (r: Result<CompiledQuery, RtDbError>)
    ensures
        match hybrid_search_sql(sctx@, hs@, opt_page(paginate)) {
            Ok(c) => r matches Ok(x) && x@ == c,
            Err(e) => r matches Err(x) && x@ == e,
        },
{
    if text::is_blank(hs.query.as_str()) {
        return Err(
            RtDbError::bad_request("hybrid search query text must not be empty".to_owned()),
        );
    }
    let six = match hybrid_index(sctx.table_def, &hs.search_index, false) {
        Ok(ix) => ix,
        Err(e) => {
            return Err(e);
        },
    };
    proof {
        lemma_usable_vector(sctx@.table.indexes, hs@.vector_index);
    }
    let vix = match hybrid_index(sctx.table_def, &hs.vector_index, true) {
        Ok(ix) => ix,
        Err(e) => {
            return Err(e);
        },
    };
    let vec_spec = match &vix.vector {
        Some(v) => v,
        None => {
            assert(false);
            return Err(RtDbError::internal("matched vector index has no vector spec".to_owned()));
        },
    };
    assert(dsl::number_views(hs.vector@).len() == hs.vector@.len());
    if hs.vector.len() as u128 != vec_spec.dimensions as u128 {
        return Err(
            RtDbError::bad_request(
                cat6(
                    "hybridSearch vector length ",
                    dec_usize(hs.vector.len()).as_str(),
                    " != vector index '",
                    vix.name.as_str(),
                    "' dimensions ",
                    text::dec_u64(vec_spec.dimensions as u64).as_str(),
                ),
            ),
        );
    }
    let vector = match render_vector(&hs.vector) {
        Some(v) => v,
        None => {
            return Err(
                RtDbError::bad_request(
                    "hybridSearch query vector must contain only finite numbers".to_owned(),
                ),
            );
        },
    };
    if hs.limit > MAX_TAKE {
        return Err(RtDbError::bad_request("hybridSearch limit exceeds maximum of 4096".to_owned()));
    }
    let (extra, mut binds) = match compile_extra(sctx, &None, 2) {
        Ok(p) => p,
        Err(e) => {
            return Err(e);
        },
    };
    assert(dsl::bind_views(binds@).len() == binds@.len());
    let vector_ph: u128 = 2 + binds.len() as u128;
    let k_ph: u128 = vector_ph + 1;
    let rankings = hybrid_rankings_text(
        sctx,
        six,
        vix,
        vec_spec.metric.distance_op(),
        extra.as_str(),
        vector_ph,
    );
    let k: i64 = match hs.k {
        Some(k) => k as i64,
        None => 60,
    };
    let mut all: Vec<EqBind> = Vec::new();
    all.push(EqBind::Text(hs.query.clone()));
    assert(dsl::bind_views(all@) =~= seq![BindV::Text(hs.query@)]);
    let vector_bind = EqBind::Text(vector);
    let k_bind = EqBind::I64(k);
    let limit_bind = EqBind::I64(hs.limit as i64);
    proof {
        compiled::lemma_bind_append(all@, binds@);
        let b0 = all@ + binds@;
        compiled::lemma_bind_add(b0, vector_bind);
        compiled::lemma_bind_add(b0.push(vector_bind), k_bind);
        compiled::lemma_bind_add(b0.push(vector_bind).push(k_bind), limit_bind);
    }
    all.append(&mut binds);
    all.push(vector_bind);
    all.push(k_bind);
    all.push(limit_bind);
    match paginate {
        None => {
            let sql = cat5(
                rankings.as_str(),
                " SELECT \"id\", \"doc\", \"created_at\", \"version\" FROM ranked ORDER BY ",
                fused_score_text(k_ph).as_str(),
                " DESC, \"created_at\" DESC, \"id\" DESC",
                compiled::limit_text(k_ph + 1).as_str(),
            );
            Ok(CompiledQuery { sql, binds: all, terminal: "hybridSearch" })
        },
        Some(p) => {
            let cursor_start: u128 = vector_ph + 3;
            let (resume, mut more) = match ranked_cursor_clause(
                p,
                "score",
                true,
                cursor_start,
                " WHERE ",
            ) {
                Ok(x) => x,
                Err(e) => {
                    return Err(e);
                },
            };
            assert(dsl::bind_views(more@).len() == more@.len());
            let limit_ph: u128 = cursor_start + more.len() as u128;
            let sql = text::cat9(
                rankings.as_str(),
                ", scored AS ( SELECT \"id\", \"doc\", \"created_at\", \"version\", ",
                fused_score_text(k_ph).as_str(),
                "::float8 AS score FROM ranked ), topk AS ( SELECT \"id\", \"doc\", \"created_at\", \"version\", score FROM scored ORDER BY score DESC, \"created_at\" DESC, \"id\" DESC",
                compiled::limit_text(k_ph + 1).as_str(),
                " ) SELECT \"id\", \"doc\", \"created_at\", \"version\", score FROM topk",
                resume.as_str(),
                " ORDER BY score DESC, \"created_at\" DESC, \"id\" DESC",
                compiled::limit_text(limit_ph).as_str(),
            );
            let rows = EqBind::I64(page_row_count(p.num_items));
            proof {
                compiled::lemma_bind_append(all@, more@);
                compiled::lemma_bind_add(all@ + more@, rows);
            }
            all.append(&mut more);
            all.push(rows);
            Ok(CompiledQuery { sql, binds: all, terminal: "hybridSearch" })
        },
    }
}

} // verus!
