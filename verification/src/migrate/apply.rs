//! The statements that apply a directive to a database. The caller runs them,
//! in order, within one transaction.
#[allow(unused_imports)]
use vstd::prelude::*;
#[allow(unused_imports)]
use vstd::string::*;

use crate::dsl;
use crate::dsl::{Cast, FilterExpr};
use crate::error;
use crate::error::{ErrorV, RtDbError};
use crate::json::{Json, JsonV};
use crate::migrate::coerce;
use crate::migrate::coerce::{check_default, recast_value};
use crate::migrate::effects;
use crate::migrate::effects::{append_binds, MigrateBind, MigrateBindV};
use crate::migrate::plan;
use crate::migrate::plan::{
    CondSource, CondV, Directive, DirectiveV, ExprSource, ExprV, field_path_text,
};
use crate::migrate::refs::value_expr_references_field;
use crate::pagination;
use crate::pagination::{json_to_value, render_value};
use crate::query::filter;
use crate::query::filter::compile_filter;
use crate::schema;
use crate::schema::{
    has_string, pg_col, pg_search_col, pg_sequence, pg_table, pg_vector_col, IndexDef, IndexV,
    SchemaDef, TableDef, TableV, MAX_FIELD_NAME_LEN, MAX_INDEX_NAME_LEN, MAX_TABLE_NAME_LEN,
};
use crate::strmap;
use crate::text;
use crate::text::{cat2, cat3, cat4, cat5, cat7, is_valid_identifier, join, lower};

verus! {

/// A statement and what is bound to its placeholders. One that needs ids takes
/// the ids of the affected documents as its first bind, and is not run where
/// there are none.
#[derive(Debug)]
pub struct Statement {
    pub sql: String,
    pub needs_ids: bool,
    pub binds: Vec<MigrateBind>,
}

/// The mathematical form of a statement.
pub struct StatementV {
    pub sql: Seq<char>,
    pub needs_ids: bool,
    pub binds: Seq<MigrateBindV>,
}

impl View for Statement {
    type V = StatementV;

    open spec fn view(&self) -> StatementV {
        StatementV {
            sql: self.sql@,
            needs_ids: self.needs_ids,
            binds: effects::bind_views(self.binds@),
        }
    }
}

/// The views of statements.
pub open spec fn statement_views(v: Seq<Statement>) -> Seq<StatementV> {
    Seq::new(v.len(), |i: int| v[i]@)
}

/// A statement without binds.
pub open spec fn plain(sql: Seq<char>) -> StatementV {
    StatementV { sql, needs_ids: false, binds: Seq::empty() }
}

/// A statement on the affected documents.
pub open spec fn on_ids(sql: Seq<char>, binds: Seq<MigrateBindV>) -> StatementV {
    StatementV { sql, needs_ids: true, binds }
}

fn plain_statement(sql: String) -> (s: Statement)
    ensures
        s@ == plain(sql@),
{
    let s = Statement { sql, needs_ids: false, binds: Vec::new() };
    assert(s@.binds =~= Seq::<MigrateBindV>::empty());
    s
}

fn push(out: &mut Vec<Statement>, s: Statement)
    ensures
        statement_views(final(out)@) == statement_views(old(out)@).push(s@),
{
    let ghost before = statement_views(out@);
    let ghost sv = s@;
    out.push(s);
    assert(statement_views(out@) =~= before.push(sv));
}

fn none() -> (out: Vec<Statement>)
    ensures
        statement_views(out@) == Seq::<StatementV>::empty(),
{
    let out: Vec<Statement> = Vec::new();
    assert(statement_views(out@) =~= Seq::<StatementV>::empty());
    out
}

/// The statements of a directive: those that come first, the one that finds the
/// affected documents, and those that follow.
#[derive(Debug)]
pub struct Program {
    pub first: Vec<Statement>,
    pub ids: Option<Statement>,
    pub rest: Vec<Statement>,
}

/// The mathematical form of the statements of a directive.
pub struct ProgramV {
    pub first: Seq<StatementV>,
    pub ids: Option<StatementV>,
    pub rest: Seq<StatementV>,
}

impl View for Program {
    type V = ProgramV;

    open spec fn view(&self) -> ProgramV {
        ProgramV {
            first: statement_views(self.first@),
            ids: schema::opt_view(self.ids),
            rest: statement_views(self.rest@),
        }
    }
}

/// The outcome is the one given.
pub open spec fn gives(r: Result<Program, RtDbError>, want: Result<ProgramV, ErrorV>) -> bool {
    match want {
        Ok(p) => r matches Ok(x) && x@ == p,
        Err(e) => r matches Err(x) && x@ == e,
    }
}

/// What is wrong with a name that goes into a statement, if anything.
pub open spec fn ident_fault(what: Seq<char>, name: Seq<char>, max: int) -> Option<ErrorV> {
    if text::identifier(name, max) {
        None
    } else {
        Some(error::bad("invalid "@ + what + " identifier '"@ + name + "'"@))
    }
}

fn require_ident(what: &str, name: &str, max: usize) -> (r: Result<(), RtDbError>)
    ensures
        match ident_fault(what@, name@, max as int) {
            Some(e) => r matches Err(x) && x@ == e,
            None => r is Ok,
        },
{
    if is_valid_identifier(name, max) {
        Ok(())
    } else {
        Err(RtDbError::bad_request(cat5("invalid ", what, " identifier '", name, "'")))
    }
}

/// What is wrong with a field name, if anything.
pub open spec fn field_ident_fault(name: Seq<char>) -> Option<ErrorV> {
    ident_fault("field"@, name, MAX_FIELD_NAME_LEN as int)
}

/// What is wrong with a table name, if anything.
pub open spec fn table_ident_fault(name: Seq<char>) -> Option<ErrorV> {
    ident_fault("table"@, name, MAX_TABLE_NAME_LEN as int)
}

/// What is wrong with an index name, if anything.
pub open spec fn index_ident_fault(name: Seq<char>) -> Option<ErrorV> {
    ident_fault("index"@, name, MAX_INDEX_NAME_LEN as int)
}

/// Rejects a name that is no field name.
pub fn require_field_ident(name: &str) -> (r: Result<(), RtDbError>)
    ensures
        match field_ident_fault(name@) {
            Some(e) => r matches Err(x) && x@ == e,
            None => r is Ok,
        },
{
    require_ident("field", name, MAX_FIELD_NAME_LEN)
}

/// Rejects a name that is no table name.
pub fn require_table_ident(name: &str) -> (r: Result<(), RtDbError>)
    ensures
        match table_ident_fault(name@) {
            Some(e) => r matches Err(x) && x@ == e,
            None => r is Ok,
        },
{
    require_ident("table", name, MAX_TABLE_NAME_LEN)
}

/// Rejects a name that is no index name.
pub fn require_index_ident(name: &str) -> (r: Result<(), RtDbError>)
    ensures
        match index_ident_fault(name@) {
            Some(e) => r matches Err(x) && x@ == e,
            None => r is Ok,
        },
{
    require_ident("index", name, MAX_INDEX_NAME_LEN)
}

/// A table of the schema that is applied to, or the error of one that is not
/// there.
pub open spec fn table_in(s: Map<Seq<char>, TableV>, table: Seq<char>) -> Result<TableV, ErrorV> {
    if s.contains_key(table) {
        Ok(s[table])
    } else {
        Err(error::internal("table '"@ + table + "' missing from schema"@))
    }
}

/// A table of the schema that is applied to.
pub fn table_def<'a>(s: &'a SchemaDef, table: &str) -> (r: Result<&'a TableDef, RtDbError>)
    ensures
        match table_in(s@, table@) {
            Ok(t) => r matches Ok(x) && x@ == t,
            Err(e) => r matches Err(x) && x@ == e,
        },
{
    match s.tables.get(table) {
        Some(t) => Ok(t),
        None => Err(RtDbError::internal(cat3("table '", table, "' missing from schema"))),
    }
}

/// A name within a schema, quoted.
pub open spec fn qualified(schema_name: Seq<char>, name: Seq<char>) -> Seq<char> {
    "\""@ + schema_name + "\".\""@ + name + "\""@
}

fn qualify(schema_name: &str, name: &str) -> (s: String)
    ensures
        s@ == qualified(schema_name@, name@),
{
    cat5("\"", schema_name, "\".\"", name, "\"")
}

/// The condition that a document has a field.
pub open spec fn has_field(field: Seq<char>) -> Seq<char> {
    "doc ? '"@ + field + "'"@
}

fn has_field_text(field: &str) -> (s: String)
    ensures
        s@ == has_field(field@),
{
    cat3("doc ? '", field, "'")
}

/// The path of a field of a document.
pub open spec fn doc_path(field: Seq<char>) -> Seq<char> {
    "'{\""@ + field + "\"}'"@
}

fn doc_path_text(field: &str) -> (s: String)
    ensures
        s@ == doc_path(field@),
{
    cat3("'{\"", field, "\"}'")
}

/// The statement that finds documents.
pub open spec fn select_ids(target: Seq<char>, cond: Seq<char>) -> Seq<char> {
    "SELECT id FROM "@ + target + " WHERE "@ + cond
}

fn select_ids_text(target: &str, cond: &str) -> (s: String)
    ensures
        s@ == select_ids(target@, cond@),
{
    cat4("SELECT id FROM ", target, " WHERE ", cond)
}

/// The statement that drops a column.
pub open spec fn drop_column(target: Seq<char>, col: Seq<char>) -> Seq<char> {
    "ALTER TABLE "@ + target + " DROP COLUMN IF EXISTS \""@ + col + "\""@
}

fn drop_column_text(target: &str, col: &str) -> (s: String)
    ensures
        s@ == drop_column(target@, col@),
{
    cat5("ALTER TABLE ", target, " DROP COLUMN IF EXISTS \"", col, "\"")
}

/// The statements that rename a field: its column, where it has one, and its
/// key in the documents that have it.
pub open spec fn rename_field_program(
    schema_name: Seq<char>,
    old: Map<Seq<char>, TableV>,
    table: Seq<char>,
    from: Seq<char>,
    to: Seq<char>,
    indexed: bool,
) -> Result<ProgramV, ErrorV> {
    if field_ident_fault(from) is Some {
        Err(field_ident_fault(from)->0)
    } else if field_ident_fault(to) is Some {
        Err(field_ident_fault(to)->0)
    } else {
        match table_in(old, table) {
            Err(e) => Err(e),
            Ok(_) => {
                let target = qualified(schema_name, schema::table_name(table));
                Ok(
                    ProgramV {
                        first: if indexed {
                            seq![
                                plain(
                                    "ALTER TABLE "@ + target + " RENAME COLUMN \""@
                                        + schema::column(from) + "\" TO \""@ + schema::column(to)
                                        + "\""@,
                                ),
                            ]
                        } else {
                            Seq::empty()
                        },
                        ids: Some(plain(select_ids(target, has_field(from)))),
                        rest: seq![
                            plain(
                                "UPDATE "@ + target + " SET doc = jsonb_set(doc - '"@ + from
                                    + "', "@ + doc_path(to) + ", doc->'"@ + from
                                    + "', true) WHERE "@ + has_field(from),
                            ),
                        ],
                    },
                )
            },
        }
    }
}

/// The statements that rename a field. `indexed` says whether the field has a
/// column before the directive.
pub fn apply_rename_field(
    schema_name: &str,
    old: &SchemaDef,
    table: &str,
    from: &str,
    to: &str,
    indexed: bool,
) -> (r: Result<Program, RtDbError>)
    ensures
        gives(r, rename_field_program(schema_name@, old@, table@, from@, to@, indexed)),
{
    match require_field_ident(from) {
        Ok(_) => {},
        Err(e) => {
            return Err(e);
        },
    }
    match require_field_ident(to) {
        Ok(_) => {},
        Err(e) => {
            return Err(e);
        },
    }
    match table_def(old, table) {
        Ok(_) => {},
        Err(e) => {
            return Err(e);
        },
    }
    let target = qualify(schema_name, pg_table(table).as_str());
    let mut first = none();
    if indexed {
        push(
            &mut first,
            plain_statement(
                cat7(
                    "ALTER TABLE ",
                    target.as_str(),
                    " RENAME COLUMN \"",
                    pg_col(from).as_str(),
                    "\" TO \"",
                    pg_col(to).as_str(),
                    "\"",
                ),
            ),
        );
    }
    let ids = plain_statement(select_ids_text(target.as_str(), has_field_text(from).as_str()));
    let mut rest = none();
    push(
        &mut rest,
        plain_statement(
            text::cat9(
                "UPDATE ",
                target.as_str(),
                " SET doc = jsonb_set(doc - '",
                from,
                "', ",
                doc_path_text(to).as_str(),
                ", doc->'",
                from,
                cat2("', true) WHERE ", has_field_text(from).as_str()).as_str(),
            ),
        ),
    );
    let p = Program { first, ids: Some(ids), rest };
    proof {
        let want = rename_field_program(schema_name@, old@, table@, from@, to@, indexed)->Ok_0;
        assert(p@.first =~= want.first);
        assert(p@.rest[0].sql =~= want.rest[0].sql);
        assert(p@.rest =~= want.rest);
    }
    Ok(p)
}

/// The statements that rename a table and its sequence.
pub open spec fn rename_table_program(
    schema_name: Seq<char>,
    from: Seq<char>,
    to: Seq<char>,
) -> Result<ProgramV, ErrorV> {
    if table_ident_fault(from) is Some {
        Err(table_ident_fault(from)->0)
    } else if table_ident_fault(to) is Some {
        Err(table_ident_fault(to)->0)
    } else {
        Ok(
            ProgramV {
                first: seq![
                    plain(
                        "ALTER TABLE "@ + qualified(schema_name, schema::table_name(from))
                            + " RENAME TO \""@ + schema::table_name(to) + "\""@,
                    ),
                    plain(
                        "ALTER SEQUENCE IF EXISTS "@ + qualified(
                            schema_name,
                            schema::sequence_name(from),
                        ) + " RENAME TO \""@ + schema::sequence_name(to) + "\""@,
                    ),
                ],
                ids: None,
                rest: Seq::empty(),
            },
        )
    }
}

/// The statements that rename a table.
pub fn apply_rename_table(schema_name: &str, from: &str, to: &str) -> (r: Result<
    Program,
    RtDbError,
>)
    ensures
        gives(r, rename_table_program(schema_name@, from@, to@)),
{
    match require_table_ident(from) {
        Ok(_) => {},
        Err(e) => {
            return Err(e);
        },
    }
    match require_table_ident(to) {
        Ok(_) => {},
        Err(e) => {
            return Err(e);
        },
    }
    let mut first = none();
    push(
        &mut first,
        plain_statement(
            cat5(
                "ALTER TABLE ",
                qualify(schema_name, pg_table(from).as_str()).as_str(),
                " RENAME TO \"",
                pg_table(to).as_str(),
                "\"",
            ),
        ),
    );
    push(
        &mut first,
        plain_statement(
            cat5(
                "ALTER SEQUENCE IF EXISTS ",
                qualify(schema_name, pg_sequence(from).as_str()).as_str(),
                " RENAME TO \"",
                pg_sequence(to).as_str(),
                "\"",
            ),
        ),
    );
    let p = Program { first, ids: None, rest: none() };
    proof {
        let want = rename_table_program(schema_name@, from@, to@)->Ok_0;
        assert(p@.first =~= want.first);
        assert(p@.rest =~= want.rest);
    }
    Ok(p)
}

/// The index needs the field: as a key, or to filter a vector search.
pub open spec fn needs(ix: IndexV, field: Seq<char>) -> bool {
    ix.fields.contains(field) || (ix.vector matches Some(v) && v.filter_fields.contains(field))
}

/// The names of the indexes that need a field.
pub open spec fn blocking(indexes: Seq<IndexV>, field: Seq<char>) -> Seq<Seq<char>>
    decreases indexes.len(),
{
    if indexes.len() == 0 {
        Seq::empty()
    } else if needs(indexes.last(), field) {
        blocking(indexes.drop_last(), field).push(indexes.last().name)
    } else {
        blocking(indexes.drop_last(), field)
    }
}

fn blocking_names(indexes: &Vec<IndexDef>, field: &str) -> (r: Vec<String>)
    ensures
        text::strs(r@) == blocking(schema::index_views(indexes@), field@),
{
    let ghost iv = schema::index_views(indexes@);
    let mut out: Vec<String> = Vec::new();
    let mut i: usize = 0;
    assert(iv.take(0) =~= Seq::<IndexV>::empty());
    assert(text::strs(out@) =~= Seq::<Seq<char>>::empty());
    while i < indexes.len()
        invariant
            i <= indexes@.len(),
            iv == schema::index_views(indexes@),
            text::strs(out@) == blocking(iv.take(i as int), field@),
        decreases indexes@.len() - i,
    {
        assert(iv.take(i as int + 1).drop_last() =~= iv.take(i as int));
        assert(iv.take(i as int + 1).last() == indexes@[i as int]@);
        let ix = &indexes[i];
        let filters = match &ix.vector {
            Some(v) => has_string(&v.filter_fields, field),
            None => false,
        };
        if has_string(&ix.fields, field) || filters {
            let ghost so_far = text::strs(out@);
            out.push(ix.name.clone());
            assert(text::strs(out@) =~= so_far.push(ix.name@));
        }
        i = i + 1;
    }
    assert(iv.take(indexes@.len() as int) =~= iv);
    out
}

/// The statements that drop a field: its key in the documents that have it, and
/// its column. A field that an index needs is not dropped.
pub open spec fn drop_field_program(
    schema_name: Seq<char>,
    old: Map<Seq<char>, TableV>,
    table: Seq<char>,
    field: Seq<char>,
) -> Result<ProgramV, ErrorV> {
    if field_ident_fault(field) is Some {
        Err(field_ident_fault(field)->0)
    } else {
        match table_in(old, table) {
            Err(e) => Err(e),
            Ok(t) => {
                let names = blocking(t.indexes, field);
                if names.len() > 0 {
                    Err(
                        error::bad(
                            "drop index '"@ + text::joined(names, "', '"@)
                                + "' before dropping field '"@ + plan::field_path(table, field)
                                + "'"@,
                        ),
                    )
                } else {
                    let target = qualified(schema_name, schema::table_name(table));
                    Ok(
                        ProgramV {
                            first: Seq::empty(),
                            ids: Some(plain(select_ids(target, has_field(field)))),
                            rest: seq![
                                plain(
                                    "UPDATE "@ + target + " SET doc = doc - '"@ + field
                                        + "' WHERE "@ + has_field(field),
                                ),
                                plain(drop_column(target, schema::column(field))),
                            ],
                        },
                    )
                }
            },
        }
    }
}

/// The statements that drop a field.
pub fn apply_drop_field(schema_name: &str, old: &SchemaDef, table: &str, field: &str) -> (r: Result<
    Program,
    RtDbError,
>)
    ensures
        gives(r, drop_field_program(schema_name@, old@, table@, field@)),
{
    match require_field_ident(field) {
        Ok(_) => {},
        Err(e) => {
            return Err(e);
        },
    }
    let t = match table_def(old, table) {
        Ok(t) => t,
        Err(e) => {
            return Err(e);
        },
    };
    let names = blocking_names(&t.indexes, field);
    if names.len() > 0 {
        return Err(
            RtDbError::bad_request(
                cat5(
                    "drop index '",
                    join(&names, "', '").as_str(),
                    "' before dropping field '",
                    field_path_text(table, field).as_str(),
                    "'",
                ),
            ),
        );
    }
    let target = qualify(schema_name, pg_table(table).as_str());
    let ids = plain_statement(select_ids_text(target.as_str(), has_field_text(field).as_str()));
    let mut rest = none();
    push(
        &mut rest,
        plain_statement(
            text::cat6(
                "UPDATE ",
                target.as_str(),
                " SET doc = doc - '",
                field,
                "' WHERE ",
                has_field_text(field).as_str(),
            ),
        ),
    );
    push(
        &mut rest,
        plain_statement(drop_column_text(target.as_str(), pg_col(field).as_str())),
    );
    let p = Program { first: none(), ids: Some(ids), rest };
    proof {
        let want = drop_field_program(schema_name@, old@, table@, field@)->Ok_0;
        assert(p@.first =~= want.first);
        assert(p@.rest =~= want.rest);
    }
    Ok(p)
}

/// The statements that drop a table and its sequence.
pub open spec fn drop_table_program(schema_name: Seq<char>, name: Seq<char>) -> ProgramV {
    let target = qualified(schema_name, schema::table_name(name));
    ProgramV {
        first: Seq::empty(),
        ids: Some(plain(select_ids(target, "true"@))),
        rest: seq![
            plain("DROP TABLE "@ + target),
            plain(
                "DROP SEQUENCE IF EXISTS "@ + qualified(schema_name, schema::sequence_name(name)),
            ),
        ],
    }
}

/// The statements that drop a table.
pub fn apply_drop_table(schema_name: &str, name: &str) -> (p: Program)
    ensures
        p@ == drop_table_program(schema_name@, name@),
{
    let target = qualify(schema_name, pg_table(name).as_str());
    let ids = plain_statement(select_ids_text(target.as_str(), "true"));
    let mut rest = none();
    push(&mut rest, plain_statement(cat2("DROP TABLE ", target.as_str())));
    push(
        &mut rest,
        plain_statement(
            cat2(
                "DROP SEQUENCE IF EXISTS ",
                qualify(schema_name, pg_sequence(name).as_str()).as_str(),
            ),
        ),
    );
    let p = Program { first: none(), ids: Some(ids), rest };
    proof {
        let want = drop_table_program(schema_name@, name@);
        assert(p@.first =~= want.first);
        assert(p@.rest =~= want.rest);
    }
    p
}

/// The name of an index in the database.
pub open spec fn index_name(prefix: Seq<char>, table: Seq<char>, name: Seq<char>) -> Seq<char> {
    prefix + text::lowered(table) + "_"@ + text::lowered(name)
}

fn index_name_text(prefix: &str, table: &str, name: &str) -> (s: String)
    ensures
        s@ == index_name(prefix@, table@, name@),
{
    cat4(prefix, lower(table).as_str(), "_", lower(name).as_str())
}

/// The statements that drop the columns of fields that nothing indexes any
/// longer.
pub open spec fn drop_columns(
    target: Seq<char>,
    fields: Seq<Seq<char>>,
    still: Seq<Seq<char>>,
) -> Seq<StatementV>
    decreases fields.len(),
{
    if fields.len() == 0 {
        Seq::empty()
    } else if still.contains(fields.last()) {
        drop_columns(target, fields.drop_last(), still)
    } else {
        drop_columns(target, fields.drop_last(), still).push(
            plain(drop_column(target, schema::column(fields.last()))),
        )
    }
}

/// The statements that drop an index and what it alone needed. `still` are the
/// fields of the table that have columns afterwards.
pub open spec fn drop_index_program(
    schema_name: Seq<char>,
    old: Map<Seq<char>, TableV>,
    table: Seq<char>,
    name: Seq<char>,
    still: Seq<Seq<char>>,
) -> Result<ProgramV, ErrorV> {
    if table_ident_fault(table) is Some {
        Err(table_ident_fault(table)->0)
    } else if index_ident_fault(name) is Some {
        Err(index_ident_fault(name)->0)
    } else {
        let target = qualified(schema_name, schema::table_name(table));
        let found = if old.contains_key(table) {
            schema::find_index(old[table].indexes, name)
        } else {
            None
        };
        let dropped = seq![
            plain(
                "DROP INDEX IF EXISTS "@ + qualified(schema_name, index_name("i_"@, table, name)),
            ),
        ];
        let searched = match found {
            Some(ix) if ix.search => dropped.push(
                plain(
                    "DROP INDEX IF EXISTS "@ + qualified(
                        schema_name,
                        index_name("tg_"@, table, name),
                    ),
                ),
            ).push(plain(drop_column(target, schema::search_column(name)))),
            _ => dropped,
        };
        let ranked = match found {
            Some(ix) if ix.vector is Some => searched.push(
                plain(drop_column(target, schema::vector_column(name))),
            ),
            _ => searched,
        };
        Ok(
            ProgramV {
                first: match found {
                    Some(ix) => ranked + drop_columns(target, ix.fields, still),
                    None => ranked,
                },
                ids: None,
                rest: Seq::empty(),
            },
        )
    }
}

/// The statements that drop an index.
pub fn apply_drop_index(
    schema_name: &str,
    old: &SchemaDef,
    table: &str,
    name: &str,
    still: &Vec<String>,
) -> (r: Result<Program, RtDbError>)
    ensures
        gives(
            r,
            drop_index_program(schema_name@, old@, table@, name@, text::strs(still@)),
        ),
{
    match require_table_ident(table) {
        Ok(_) => {},
        Err(e) => {
            return Err(e);
        },
    }
    match require_index_ident(name) {
        Ok(_) => {},
        Err(e) => {
            return Err(e);
        },
    }
    let target = qualify(schema_name, pg_table(table).as_str());
    let found: Option<&IndexDef> = match old.tables.get(table) {
        Some(t) => match t.index(name) {
            Ok(ix) => Some(ix),
            Err(_) => None,
        },
        None => None,
    };
    let mut first = none();
    push(
        &mut first,
        plain_statement(
            cat2(
                "DROP INDEX IF EXISTS ",
                qualify(schema_name, index_name_text("i_", table, name).as_str()).as_str(),
            ),
        ),
    );
    assert(statement_views(first@) =~= seq![
        plain(
            "DROP INDEX IF EXISTS "@ + qualified(schema_name@, index_name("i_"@, table@, name@)),
        ),
    ]);
    if let Some(ix) = found {
        if ix.search {
            push(
                &mut first,
                plain_statement(
                    cat2(
                        "DROP INDEX IF EXISTS ",
                        qualify(schema_name, index_name_text("tg_", table, name).as_str()).as_str(),
                    ),
                ),
            );
            push(
                &mut first,
                plain_statement(drop_column_text(target.as_str(), pg_search_col(name).as_str())),
            );
        }
        if ix.vector.is_some() {
            push(
                &mut first,
                plain_statement(drop_column_text(target.as_str(), pg_vector_col(name).as_str())),
            );
        }
        let ghost base = statement_views(first@);
        let ghost fields = text::strs(ix.fields@);
        let ghost kept = text::strs(still@);
        let mut i: usize = 0;
        assert(fields.take(0) =~= Seq::<Seq<char>>::empty());
        assert(base + drop_columns(target@, fields.take(0), kept) =~= base);
        while i < ix.fields.len()
            invariant
                i <= ix.fields@.len(),
                fields == text::strs(ix.fields@),
                kept == text::strs(still@),
                statement_views(first@) == base + drop_columns(
                    target@,
                    fields.take(i as int),
                    kept,
                ),
            decreases ix.fields@.len() - i,
        {
            proof {
                assert(fields.take(i as int + 1).drop_last() =~= fields.take(i as int));
                assert(fields.take(i as int + 1).last() == fields[i as int]);
            }
            if !has_string(still, ix.fields[i].as_str()) {
                let ghost so_far = drop_columns(target@, fields.take(i as int), kept);
                push(
                    &mut first,
                    plain_statement(
                        drop_column_text(
                            target.as_str(),
                            pg_col(ix.fields[i].as_str()).as_str(),
                        ),
                    ),
                );
                proof {
                    let s = plain(drop_column(target@, schema::column(fields[i as int])));
                    assert((base + so_far).push(s) =~= base + so_far.push(s));
                }
            }
            i = i + 1;
        }
        assert(fields.take(ix.fields@.len() as int) =~= fields);
    }
    let p = Program { first, ids: None, rest: none() };
    proof {
        let want = drop_index_program(
            schema_name@,
            old@,
            table@,
            name@,
            text::strs(still@),
        )->Ok_0;
        assert(p@.rest =~= want.rest);
    }
    Ok(p)
}

/// The column of an indexed field: its type, and the expression that reads its
/// value off the document.
#[derive(Debug, Clone)]
pub struct TypedColumn {
    pub field: String,
    pub pg_type: String,
    pub expr: String,
}

/// The mathematical form of a column: field, type and expression.
pub open spec fn column_views(v: Seq<TypedColumn>) -> Seq<(Seq<char>, Seq<char>, Seq<char>)> {
    Seq::new(v.len(), |i: int| (v[i].field@, v[i].pg_type@, v[i].expr@))
}

/// The JSON text of a value, or the error of one that has none.
pub open spec fn json_text(v: JsonV) -> Result<Seq<char>, ErrorV> {
    match pagination::value_text(pagination::rebuilt(v)) {
        Ok(s) => Ok(s),
        Err(e) => Err(error::internal(e)),
    }
}

/// The JSON text of a value.
pub fn json_text_of(v: &Json) -> (r: Result<String, RtDbError>)
    ensures
        match json_text(v@) {
            Ok(s) => r matches Ok(x) && x@ == s,
            Err(e) => r matches Err(x) && x@ == e,
        },
{
    match render_value(&json_to_value(v)) {
        Ok(s) => Ok(s),
        Err(e) => Err(RtDbError::internal(e)),
    }
}

/// The statement that sets a field to the first bind where a condition holds.
pub open spec fn set_field(target: Seq<char>, field: Seq<char>, cond: Seq<char>) -> Seq<char> {
    "UPDATE "@ + target + " SET doc = jsonb_set(doc, "@ + doc_path(field)
        + ", $1::jsonb, true) WHERE "@ + cond
}

fn set_field_text(target: &str, field: &str, cond: &str) -> (s: String)
    ensures
        s@ == set_field(target@, field@, cond@),
{
    text::cat6(
        "UPDATE ",
        target,
        " SET doc = jsonb_set(doc, ",
        doc_path_text(field).as_str(),
        ", $1::jsonb, true) WHERE ",
        cond,
    )
}

/// The statement that reads a column anew off the affected documents.
pub open spec fn recompute_one(target: Seq<char>, col: (Seq<char>, Seq<char>, Seq<char>)) -> Seq<
    char,
> {
    "UPDATE "@ + target + " SET \""@ + schema::column(col.0) + "\" = "@ + col.2
        + " WHERE id = ANY($1)"@
}

/// The statements that give a field a default where documents lack it. The text
/// of the default is the bind. `column` is the column of the field, where it
/// has one.
pub open spec fn set_default_program(
    schema_name: Seq<char>,
    table: Seq<char>,
    field: Seq<char>,
    value: JsonV,
    column: Option<(Seq<char>, Seq<char>, Seq<char>)>,
) -> Result<ProgramV, ErrorV> {
    if field_ident_fault(field) is Some {
        Err(field_ident_fault(field)->0)
    } else {
        match json_text(value) {
            Err(e) => Err(e),
            Ok(v) => {
                let target = qualified(schema_name, schema::table_name(table));
                let lacks = "NOT "@ + has_field(field);
                let set = StatementV {
                    sql: set_field(target, field, lacks),
                    needs_ids: false,
                    binds: seq![MigrateBindV::Text(v)],
                };
                Ok(
                    ProgramV {
                        first: Seq::empty(),
                        ids: Some(plain(select_ids(target, lacks))),
                        rest: match column {
                            Some(c) => seq![
                                set,
                                on_ids(recompute_one(target, c), Seq::empty()),
                            ],
                            None => seq![set],
                        },
                    },
                )
            },
        }
    }
}

/// The view of an optional column.
pub open spec fn opt_column(c: Option<&TypedColumn>) -> Option<(Seq<char>, Seq<char>, Seq<char>)> {
    match c {
        Some(c) => Some((c.field@, c.pg_type@, c.expr@)),
        None => None,
    }
}

/// The statements that give a field a default.
pub fn apply_set_default(
    schema_name: &str,
    table: &str,
    field: &str,
    value: &Json,
    column: Option<&TypedColumn>,
) -> (r: Result<Program, RtDbError>)
    ensures
        gives(
            r,
            set_default_program(schema_name@, table@, field@, value@, opt_column(column)),
        ),
{
    match require_field_ident(field) {
        Ok(_) => {},
        Err(e) => {
            return Err(e);
        },
    }
    let value_json = match json_text_of(value) {
        Ok(s) => s,
        Err(e) => {
            return Err(e);
        },
    };
    let target = qualify(schema_name, pg_table(table).as_str());
    let lacks = cat2("NOT ", has_field_text(field).as_str());
    let ids = plain_statement(select_ids_text(target.as_str(), lacks.as_str()));
    let mut binds: Vec<MigrateBind> = Vec::new();
    let ghost text_bind = value_json@;
    binds.push(MigrateBind::Text(value_json));
    assert(effects::bind_views(binds@) =~= seq![MigrateBindV::Text(text_bind)]);
    let mut rest = none();
    push(
        &mut rest,
        Statement {
            sql: set_field_text(target.as_str(), field, lacks.as_str()),
            needs_ids: false,
            binds,
        },
    );
    if let Some(c) = column {
        let no_binds: Vec<MigrateBind> = Vec::new();
        assert(effects::bind_views(no_binds@) =~= Seq::<MigrateBindV>::empty());
        push(
            &mut rest,
            Statement {
                sql: cat7(
                    "UPDATE ",
                    target.as_str(),
                    " SET \"",
                    pg_col(c.field.as_str()).as_str(),
                    "\" = ",
                    c.expr.as_str(),
                    " WHERE id = ANY($1)",
                ),
                needs_ids: true,
                binds: no_binds,
            },
        );
    }
    let p = Program { first: none(), ids: Some(ids), rest };
    proof {
        let want = set_default_program(
            schema_name@,
            table@,
            field@,
            value@,
            opt_column(column),
        )->Ok_0;
        assert(p@.first =~= want.first);
        assert(p@.rest =~= want.rest);
    }
    Ok(p)
}

/// The statements that change the type of a field. `pg_type` is the column type
/// of the new type, where it has one; `column` is the column of the field with
/// its new type, where the field has one before the directive. Between finding
/// the documents and the statements that follow, each document is converted.
pub open spec fn change_type_program(
    schema_name: Seq<char>,
    old: Map<Seq<char>, TableV>,
    table: Seq<char>,
    field: Seq<char>,
    cast: Cast,
    default: Option<JsonV>,
    indexable: bool,
    column: Option<(Seq<char>, Seq<char>, Seq<char>)>,
) -> Result<ProgramV, ErrorV> {
    if field_ident_fault(field) is Some {
        Err(field_ident_fault(field)->0)
    } else if !indexable {
        Err(
            error::bad(
                "changeType target for "@ + plan::field_path(table, field) + " is not indexable"@,
            ),
        )
    } else if coerce::default_fault(table, field, cast, default) is Some {
        Err(coerce::default_fault(table, field, cast, default)->0)
    } else {
        match table_in(old, table) {
            Err(e) => Err(e),
            Ok(_) => {
                let target = qualified(schema_name, schema::table_name(table));
                Ok(
                    ProgramV {
                        first: Seq::empty(),
                        ids: Some(plain(select_ids(target, has_field(field)))),
                        rest: match column {
                            Some(c) => seq![
                                plain(
                                    "ALTER TABLE "@ + target + " ALTER COLUMN \""@
                                        + schema::column(field) + "\" TYPE "@ + c.1 + " USING ("@
                                        + c.2 + ")"@,
                                ),
                            ],
                            None => Seq::empty(),
                        },
                    },
                )
            },
        }
    }
}

/// The statements that change the type of a field.
pub fn apply_change_type(
    schema_name: &str,
    old: &SchemaDef,
    table: &str,
    field: &str,
    cast: Cast,
    default: &Option<Json>,
    indexable: bool,
    column: Option<&TypedColumn>,
) -> (r: Result<Program, RtDbError>)
    ensures
        gives(
            r,
            change_type_program(
                schema_name@,
                old@,
                table@,
                field@,
                cast,
                schema::opt_view(*default),
                indexable,
                opt_column(column),
            ),
        ),
{
    match require_field_ident(field) {
        Ok(_) => {},
        Err(e) => {
            return Err(e);
        },
    }
    if !indexable {
        return Err(
            RtDbError::bad_request(
                cat3(
                    "changeType target for ",
                    field_path_text(table, field).as_str(),
                    " is not indexable",
                ),
            ),
        );
    }
    match check_default(table, field, cast, default) {
        Ok(_) => {},
        Err(e) => {
            return Err(e);
        },
    }
    match table_def(old, table) {
        Ok(_) => {},
        Err(e) => {
            return Err(e);
        },
    }
    let target = qualify(schema_name, pg_table(table).as_str());
    let ids = plain_statement(select_ids_text(target.as_str(), has_field_text(field).as_str()));
    let mut rest = none();
    if let Some(c) = column {
        push(
            &mut rest,
            plain_statement(
                text::cat9(
                    "ALTER TABLE ",
                    target.as_str(),
                    " ALTER COLUMN \"",
                    pg_col(field).as_str(),
                    "\" TYPE ",
                    c.pg_type.as_str(),
                    " USING (",
                    c.expr.as_str(),
                    ")",
                ),
            ),
        );
    }
    let p = Program { first: none(), ids: Some(ids), rest };
    proof {
        let want = change_type_program(
            schema_name@,
            old@,
            table@,
            field@,
            cast,
            schema::opt_view(*default),
            indexable,
            opt_column(column),
        )->Ok_0;
        assert(p@.first =~= want.first);
        assert(p@.rest =~= want.rest);
    }
    Ok(p)
}

/// The text that messages show a value by.
pub open spec fn shown(v: JsonV) -> Seq<char> {
    match json_text(v) {
        Ok(s) => s,
        Err(_) => Seq::empty(),
    }
}

/// The JSON text that a row's field is set to when the field changes type.
pub open spec fn recast_row(
    table: Seq<char>,
    id: Seq<char>,
    cast: Cast,
    value: JsonV,
    default: Option<JsonV>,
) -> Result<Seq<char>, ErrorV> {
    match coerce::recast(table, id, cast, value, shown(value), default) {
        Ok(v) => json_text(v),
        Err(e) => Err(e),
    }
}

/// Converts the value of one row to the JSON text that is written back.
pub fn recast_row_text(
    table: &str,
    id: &str,
    cast: Cast,
    value: &Json,
    default: &Option<Json>,
) -> (r: Result<String, RtDbError>)
    ensures
        match recast_row(table@, id@, cast, value@, schema::opt_view(*default)) {
            Ok(s) => r matches Ok(x) && x@ == s,
            Err(e) => r matches Err(x) && x@ == e,
        },
{
    let words = match json_text_of(value) {
        Ok(s) => s,
        Err(_) => {
            let none = String::new();
            assert(none@ =~= Seq::<char>::empty());
            none
        },
    };
    match recast_value(table, id, cast, value, words.as_str(), default) {
        Ok(v) => json_text_of(&v),
        Err(e) => Err(e),
    }
}

/// The statement that reads a field of the document whose id is bound.
pub fn read_field_sql(schema_name: &str, table: &str, field: &str) -> (s: String)
    ensures
        s@ == "SELECT doc->'"@ + field@ + "' FROM "@ + qualified(
            schema_name@,
            schema::table_name(table@),
        ) + " WHERE id = $1"@,
{
    cat5(
        "SELECT doc->'",
        field,
        "' FROM ",
        qualify(schema_name, pg_table(table).as_str()).as_str(),
        " WHERE id = $1",
    )
}

/// The statement that sets a field of a document; its text and the id are bound.
pub fn write_field_sql(schema_name: &str, table: &str, field: &str) -> (s: String)
    ensures
        s@ == set_field(
            qualified(schema_name@, schema::table_name(table@)),
            field@,
            "id = $2"@,
        ),
{
    set_field_text(
        qualify(schema_name, pg_table(table).as_str()).as_str(),
        field,
        "id = $2",
    )
}

/// An expression as statement text, and what is bound to its placeholders.
#[derive(Debug)]
pub struct CompiledExpr {
    pub sql: String,
    pub binds: Vec<MigrateBind>,
}

/// The mathematical form of a compiled expression.
pub struct CompiledExprV {
    pub sql: Seq<char>,
    pub binds: Seq<MigrateBindV>,
}

impl View for CompiledExpr {
    type V = CompiledExprV;

    open spec fn view(&self) -> CompiledExprV {
        CompiledExprV { sql: self.sql@, binds: effects::bind_views(self.binds@) }
    }
}

/// The statement that sets a field to an expression where a condition holds.
pub open spec fn eval_field(
    target: Seq<char>,
    set: Seq<char>,
    expr: Seq<char>,
    cond: Seq<char>,
) -> Seq<char> {
    "UPDATE "@ + target + " SET doc = jsonb_set(doc, "@ + doc_path(set) + ", to_jsonb(("@ + expr
        + ")), true) WHERE "@ + cond
}

fn eval_field_text(target: &str, set: &str, expr: &str, cond: &str) -> (s: String)
    ensures
        s@ == eval_field(target@, set@, expr@, cond@),
{
    text::cat8(
        "UPDATE ",
        target,
        " SET doc = jsonb_set(doc, ",
        doc_path_text(set).as_str(),
        ", to_jsonb((",
        expr,
        ")), true) WHERE ",
        cond,
    )
}

/// The condition of an evaluation of an expression, with placeholders from
/// `start`.
pub open spec fn typed_condition(cond: Option<CondV>, t: TableV, start: nat) -> Result<
    (Seq<char>, Seq<MigrateBindV>),
    ErrorV,
> {
    match cond {
        None => Ok(("true"@, Seq::empty())),
        Some(CondV::Typed(f)) => match filter::client_filter_sql(f, t, start, None) {
            Ok(p) => Ok((p.0, effects::migrate_binds(p.1))),
            Err(e) => Err(e),
        },
        Some(CondV::Legacy(_)) => Err(
            error::bad(
                "evalExpr typed 'expr' requires a typed 'where' (FilterExpr); a legacy raw-SQL 'where' is not allowed on the typed path"@,
            ),
        ),
    }
}

fn compile_condition(cond: &Option<CondSource>, t: &TableDef, start: u128) -> (r: Result<
    (String, Vec<MigrateBind>),
    RtDbError,
>)
    requires
        start <= filter::MAX_POSITION,
    ensures
        match typed_condition(schema::opt_view(*cond), t@, start as nat) {
            Ok(p) => r matches Ok(x) && x.0@ == p.0 && effects::bind_views(x.1@) == p.1,
            Err(e) => r matches Err(x) && x@ == e,
        },
{
    let mut binds: Vec<MigrateBind> = Vec::new();
    assert(effects::bind_views(binds@) =~= Seq::<MigrateBindV>::empty());
    match cond {
        None => Ok(("true".to_owned(), binds)),
        Some(CondSource::Typed(f)) => match compile_filter(f, t, start) {
            Ok((sql, more)) => {
                append_binds(&mut binds, &more);
                assert(effects::bind_views(binds@) =~= effects::migrate_binds(
                    dsl::bind_views(more@),
                ));
                Ok((sql, binds))
            },
            Err(e) => Err(e),
        },
        Some(CondSource::Legacy(_)) => Err(
            RtDbError::bad_request(
                "evalExpr typed 'expr' requires a typed 'where' (FilterExpr); a legacy raw-SQL 'where' is not allowed on the typed path".to_owned(),
            ),
        ),
    }
}

/// The condition of an evaluation of statement text.
pub open spec fn raw_condition(cond: Option<CondV>) -> Result<Seq<char>, ErrorV> {
    match cond {
        None => Ok("true"@),
        Some(CondV::Legacy(s)) => Ok(s),
        Some(CondV::Typed(_)) => Err(
            error::bad(
                "evalExpr legacy raw-SQL 'expr' requires a legacy raw-SQL 'where'; a typed 'where' is not allowed on the legacy path"@,
            ),
        ),
    }
}

/// The statements of an evaluation of an expression: the documents are found by
/// its condition, and set by the expression under the same condition. The
/// expression was compiled with placeholders from one.
pub open spec fn eval_typed_program(
    schema_name: Seq<char>,
    derived: Map<Seq<char>, TableV>,
    table: Seq<char>,
    set: Seq<char>,
    expr: CompiledExprV,
    cond: Option<CondV>,
) -> Result<ProgramV, ErrorV> {
    match table_in(derived, table) {
        Err(e) => Err(e),
        Ok(t) => match typed_condition(cond, t, 1) {
            Err(e) => Err(e),
            Ok(find) => match typed_condition(cond, t, 1 + expr.binds.len()) {
                Err(e) => Err(e),
                Ok(change) => {
                    let target = qualified(schema_name, schema::table_name(table));
                    Ok(
                        ProgramV {
                            first: Seq::empty(),
                            ids: Some(
                                StatementV {
                                    sql: select_ids(target, find.0),
                                    needs_ids: false,
                                    binds: find.1,
                                },
                            ),
                            rest: seq![
                                StatementV {
                                    sql: eval_field(target, set, expr.sql, change.0),
                                    needs_ids: false,
                                    binds: expr.binds + change.1,
                                },
                            ],
                        },
                    )
                },
            },
        },
    }
}

/// The statements of an evaluation of an expression.
pub fn apply_eval_typed(
    schema_name: &str,
    derived: &SchemaDef,
    table: &str,
    set: &str,
    expr: CompiledExpr,
    cond: &Option<CondSource>,
) -> (r: Result<Program, RtDbError>)
    ensures
        gives(
            r,
            eval_typed_program(
                schema_name@,
                derived@,
                table@,
                set@,
                expr@,
                schema::opt_view(*cond),
            ),
        ),
{
    let t = match table_def(derived, table) {
        Ok(t) => t,
        Err(e) => {
            return Err(e);
        },
    };
    let ghost ev = expr@;
    let (find_sql, find_binds) = match compile_condition(cond, t, 1) {
        Ok(p) => p,
        Err(e) => {
            return Err(e);
        },
    };
    let start: u128 = 1 + expr.binds.len() as u128;
    let (change_sql, mut change_binds) = match compile_condition(cond, t, start) {
        Ok(p) => p,
        Err(e) => {
            return Err(e);
        },
    };
    let target = qualify(schema_name, pg_table(table).as_str());
    let ids = Statement {
        sql: select_ids_text(target.as_str(), find_sql.as_str()),
        needs_ids: false,
        binds: find_binds,
    };
    let sql = eval_field_text(target.as_str(), set, expr.sql.as_str(), change_sql.as_str());
    let mut binds = expr.binds;
    let ghost own = effects::bind_views(binds@);
    let ghost more = effects::bind_views(change_binds@);
    binds.append(&mut change_binds);
    assert(effects::bind_views(binds@) =~= own + more);
    let mut rest = none();
    push(&mut rest, Statement { sql, needs_ids: false, binds });
    let p = Program { first: none(), ids: Some(ids), rest };
    proof {
        let want = eval_typed_program(
            schema_name@,
            derived@,
            table@,
            set@,
            ev,
            schema::opt_view(*cond),
        )->Ok_0;
        assert(p@.first =~= want.first);
        assert(p@.rest =~= want.rest);
    }
    Ok(p)
}

/// The statements of an evaluation of statement text, which stands in them as it
/// is.
pub open spec fn eval_raw_program(
    schema_name: Seq<char>,
    derived: Map<Seq<char>, TableV>,
    table: Seq<char>,
    set: Seq<char>,
    raw: Seq<char>,
    cond: Option<CondV>,
) -> Result<ProgramV, ErrorV> {
    match table_in(derived, table) {
        Err(e) => Err(e),
        Ok(_) => match raw_condition(cond) {
            Err(e) => Err(e),
            Ok(c) => {
                let target = qualified(schema_name, schema::table_name(table));
                Ok(
                    ProgramV {
                        first: Seq::empty(),
                        ids: Some(plain(select_ids(target, c))),
                        rest: seq![plain(eval_field(target, set, raw, c))],
                    },
                )
            },
        },
    }
}

/// The statements of an evaluation of statement text.
pub fn apply_eval_raw(
    schema_name: &str,
    derived: &SchemaDef,
    table: &str,
    set: &str,
    raw: &str,
    cond: &Option<CondSource>,
) -> (r: Result<Program, RtDbError>)
    ensures
        gives(
            r,
            eval_raw_program(
                schema_name@,
                derived@,
                table@,
                set@,
                raw@,
                schema::opt_view(*cond),
            ),
        ),
{
    match table_def(derived, table) {
        Ok(_) => {},
        Err(e) => {
            return Err(e);
        },
    }
    let c: String = match cond {
        None => "true".to_owned(),
        Some(CondSource::Legacy(s)) => s.clone(),
        Some(CondSource::Typed(_)) => {
            return Err(
                RtDbError::bad_request(
                    "evalExpr legacy raw-SQL 'expr' requires a legacy raw-SQL 'where'; a typed 'where' is not allowed on the legacy path".to_owned(),
                ),
            );
        },
    };
    let target = qualify(schema_name, pg_table(table).as_str());
    let ids = plain_statement(select_ids_text(target.as_str(), c.as_str()));
    let mut rest = none();
    push(
        &mut rest,
        plain_statement(eval_field_text(target.as_str(), set, raw, c.as_str())),
    );
    let p = Program { first: none(), ids: Some(ids), rest };
    proof {
        let want = eval_raw_program(
            schema_name@,
            derived@,
            table@,
            set@,
            raw@,
            schema::opt_view(*cond),
        )->Ok_0;
        assert(p@.first =~= want.first);
        assert(p@.rest =~= want.rest);
    }
    Ok(p)
}

/// The names of the computed fields of a table.
pub fn computed_field_names(t: &TableDef) -> (r: Vec<String>)
    ensures
        strmap::ascending(text::strs(r@)),
        forall|k: Seq<char>| #[trigger]
            text::strs(r@).contains(k) <==> t@.computed.contains_key(k),
{
    let r = t.computed.key_list();
    proof {
        t.computed.lemma_keys();
    }
    r
}

/// The names of the computed fields of a table that read a field.
pub fn computed_fields_referencing(t: &TableDef, field: &str) -> (r: Vec<String>)
    ensures
        strmap::ascending(text::strs(r@)),
        forall|k: Seq<char>| #[trigger]
            text::strs(r@).contains(k) <==> plan::reads(t@.computed, field@, k),
{
    let n: usize = t.computed.len();
    proof {
        t.computed.lemma_keys();
    }
    let ghost keys = t.computed.keys();
    let mut out: Vec<String> = Vec::new();
    let mut i: usize = 0;
    assert(text::strs(out@) =~= Seq::<Seq<char>>::empty());
    while i < n
        invariant
            i <= n,
            n == keys.len(),
            keys == t.computed.keys(),
            strmap::ascending(keys),
            forall|k: Seq<char>| #[trigger] t@.computed.contains_key(k) <==> keys.contains(k),
            strmap::ascending(text::strs(out@)),
            forall|k: int|
                0 <= k < out@.len() ==> exists|p: int|
                    0 <= p < i && (#[trigger] text::strs(out@)[k]) == #[trigger] keys[p],
            forall|k: Seq<char>| #[trigger]
                text::strs(out@).contains(k) <==> exists|p: int|
                    0 <= p < i && #[trigger] keys[p] == k && plan::reads(
                        t@.computed,
                        field@,
                        k,
                    ),
        decreases n - i,
    {
        let ghost so_far = text::strs(out@);
        let name = t.computed.key_at(i);
        let hit = value_expr_references_field(t.computed.value_at(i), field);
        if hit {
            out.push(name.clone());
        }
        proof {
            let now = text::strs(out@);
            assert(hit == plan::reads(t@.computed, field@, keys[i as int]));
            if hit {
                assert(now =~= so_far.push(keys[i as int]));
            }
            assert forall|k: int| 0 <= k < now.len() implies exists|p: int|
                0 <= p < i + 1 && (#[trigger] now[k]) == #[trigger] keys[p] by {
                if k < so_far.len() {
                    let p = choose|p: int| 0 <= p < i && so_far[k] == #[trigger] keys[p];
                    assert(now[k] == keys[p]);
                } else {
                    assert(now[k] == keys[i as int]);
                }
            }
            assert forall|a: int, b: int| 0 <= a < b < now.len() implies #[trigger] text::chars_lt(
                now[a],
                now[b],
            ) by {
                if b < so_far.len() {
                    assert(text::chars_lt(so_far[a], so_far[b]));
                } else {
                    let p = choose|p: int| 0 <= p < i && so_far[a] == #[trigger] keys[p];
                    assert(text::chars_lt(keys[p], keys[i as int]));
                }
            }
            assert forall|k: Seq<char>| #[trigger] now.contains(k) <==> exists|p: int|
                0 <= p < i + 1 && #[trigger] keys[p] == k && plan::reads(
                    t@.computed,
                    field@,
                    k,
                ) by {
                if now.contains(k) {
                    let q = now.index_of(k);
                    if q < so_far.len() {
                        assert(so_far[q] == k);
                        assert(so_far.contains(k));
                    } else {
                        assert(keys[i as int] == k);
                    }
                }
                if exists|p: int|
                    0 <= p < i + 1 && #[trigger] keys[p] == k && plan::reads(
                        t@.computed,
                        field@,
                        k,
                    ) {
                    let p = choose|p: int|
                        0 <= p < i + 1 && #[trigger] keys[p] == k && plan::reads(
                            t@.computed,
                            field@,
                            k,
                        );
                    if p < i {
                        assert(so_far.contains(k));
                        let q = so_far.index_of(k);
                        assert(now[q] == k);
                    } else {
                        assert(now[now.len() - 1] == k);
                    }
                }
            }
        }
        i = i + 1;
    }
    proof {
        assert forall|k: Seq<char>| #[trigger] text::strs(out@).contains(k) <==> plan::reads(
            t@.computed,
            field@,
            k,
        ) by {
            if plan::reads(t@.computed, field@, k) {
                assert(keys.contains(k));
                let p = keys.index_of(k);
                assert(keys[p] == k);
            }
        }
    }
    out
}

/// The statement that stamps a computed field anew on the affected documents. A
/// field without a value is removed. The expression was compiled with
/// placeholders from two.
pub open spec fn restamp(
    target: Seq<char>,
    field: Seq<char>,
    expr: CompiledExprV,
) -> Result<StatementV, ErrorV> {
    match field_ident_fault(field) {
        Some(e) => Err(e),
        None => Ok(
            on_ids(
                "UPDATE "@ + target + " SET doc = CASE WHEN to_jsonb(("@ + expr.sql
                    + ")) IS NULL THEN doc - '"@ + field + "' ELSE jsonb_set(doc, "@ + doc_path(
                    field,
                ) + ", to_jsonb(("@ + expr.sql + ")), true) END WHERE id = ANY($1)"@,
                expr.binds,
            ),
        ),
    }
}

/// The statement that stamps a computed field anew.
pub fn restamp_computed_field(
    schema_name: &str,
    table: &str,
    field: &str,
    expr: CompiledExpr,
) -> (r: Result<Statement, RtDbError>)
    ensures
        match restamp(qualified(schema_name@, schema::table_name(table@)), field@, expr@) {
            Ok(s) => r matches Ok(x) && x@ == s,
            Err(e) => r matches Err(x) && x@ == e,
        },
{
    match require_field_ident(field) {
        Ok(_) => {},
        Err(e) => {
            return Err(e);
        },
    }
    let target = qualify(schema_name, pg_table(table).as_str());
    Ok(
        Statement {
            sql: text::cat11(
                "UPDATE ",
                target.as_str(),
                " SET doc = CASE WHEN to_jsonb((",
                expr.sql.as_str(),
                ")) IS NULL THEN doc - '",
                field,
                "' ELSE jsonb_set(doc, ",
                doc_path_text(field).as_str(),
                ", to_jsonb((",
                expr.sql.as_str(),
                ")), true) END WHERE id = ANY($1)",
            ),
            needs_ids: true,
            binds: expr.binds,
        },
    )
}

/// The assignments that read columns anew off the document.
pub open spec fn assignments(cols: Seq<(Seq<char>, Seq<char>, Seq<char>)>) -> Seq<Seq<char>> {
    Seq::new(
        cols.len(),
        |i: int| "\""@ + schema::column(cols[i].0) + "\" = "@ + cols[i].2,
    )
}

/// The statement that reads all columns anew off the affected documents; none
/// where there are no columns.
pub open spec fn recompute_all(
    target: Seq<char>,
    cols: Seq<(Seq<char>, Seq<char>, Seq<char>)>,
) -> Option<StatementV> {
    if cols.len() == 0 {
        None
    } else {
        Some(
            on_ids(
                "UPDATE "@ + target + " SET "@ + text::joined(assignments(cols), ", "@)
                    + " WHERE id = ANY($1)"@,
                Seq::empty(),
            ),
        )
    }
}

/// The statement that reads all columns of a table anew.
pub fn recompute_all_indexed(schema_name: &str, table: &str, columns: &Vec<TypedColumn>) -> (r:
    Option<Statement>)
    ensures
        schema::opt_view(r) == recompute_all(
            qualified(schema_name@, schema::table_name(table@)),
            column_views(columns@),
        ),
{
    if columns.len() == 0 {
        return None;
    }
    let ghost cv = column_views(columns@);
    let mut sets: Vec<String> = Vec::new();
    let mut i: usize = 0;
    while i < columns.len()
        invariant
            i <= columns@.len(),
            cv == column_views(columns@),
            sets@.len() == i,
            forall|k: int| 0 <= k < i ==> (#[trigger] sets@[k])@ == assignments(cv)[k],
        decreases columns@.len() - i,
    {
        sets.push(
            cat4(
                "\"",
                pg_col(columns[i].field.as_str()).as_str(),
                "\" = ",
                columns[i].expr.as_str(),
            ),
        );
        i = i + 1;
    }
    assert(text::strs(sets@) =~= assignments(cv));
    let target = qualify(schema_name, pg_table(table).as_str());
    let binds: Vec<MigrateBind> = Vec::new();
    assert(effects::bind_views(binds@) =~= Seq::<MigrateBindV>::empty());
    Some(
        Statement {
            sql: cat5(
                "UPDATE ",
                target.as_str(),
                " SET ",
                join(&sets, ", ").as_str(),
                " WHERE id = ANY($1)",
            ),
            needs_ids: true,
            binds,
        },
    )
}

/// What the database and its layout say about a directive.
#[derive(Debug)]
pub struct Facts {
    /// The field of the directive has a column before it.
    pub indexed: bool,
    /// The fields of the table that have columns after all directives.
    pub still_indexed: Vec<String>,
    /// The type that a field is changed to can have a column.
    pub indexable: bool,
    /// The column of the field of the directive, where it has one.
    pub column: Option<TypedColumn>,
    /// The expression of an evaluation, with placeholders from one.
    pub expr: Option<CompiledExpr>,
}

/// The mathematical form of what is known about a directive.
pub struct FactsV {
    pub indexed: bool,
    pub still_indexed: Seq<Seq<char>>,
    pub indexable: bool,
    pub column: Option<(Seq<char>, Seq<char>, Seq<char>)>,
    pub expr: Option<CompiledExprV>,
}

impl View for Facts {
    type V = FactsV;

    open spec fn view(&self) -> FactsV {
        FactsV {
            indexed: self.indexed,
            still_indexed: text::strs(self.still_indexed@),
            indexable: self.indexable,
            column: match self.column {
                Some(c) => Some((c.field@, c.pg_type@, c.expr@)),
                None => None,
            },
            expr: schema::opt_view(self.expr),
        }
    }
}

/// A directive works on the column of its field: a rename or a change of type
/// where the field has one before it, a default where it has one after all
/// directives.
pub open spec fn on_column(d: DirectiveV, before: Seq<Seq<char>>, after: Seq<Seq<char>>) -> bool {
    match d {
        DirectiveV::RenameField(_, field, _) => before.contains(field),
        DirectiveV::SetDefault(_, field, _) => after.contains(field),
        DirectiveV::ChangeType(_, field, _, _, _) => before.contains(field),
        _ => false,
    }
}

/// Whether a directive works on the column of its field, given the fields that
/// have columns before it and after all directives.
pub fn column_wanted(d: &Directive, before: &Vec<String>, after: &Vec<String>) -> (r: bool)
    ensures
        r == on_column(d@, text::strs(before@), text::strs(after@)),
{
    match d {
        Directive::RenameField { from, .. } => has_string(before, from.as_str()),
        Directive::SetDefault { field, .. } => has_string(after, field.as_str()),
        Directive::ChangeType { field, .. } => has_string(before, field.as_str()),
        _ => false,
    }
}

/// The statements of a directive. `old` is the schema before it, `derived` the
/// one after all directives.
pub open spec fn program_of(
    schema_name: Seq<char>,
    old: Map<Seq<char>, TableV>,
    derived: Map<Seq<char>, TableV>,
    d: DirectiveV,
    f: FactsV,
) -> Result<ProgramV, ErrorV> {
    match d {
        DirectiveV::RenameField(table, from, to) => rename_field_program(
            schema_name,
            old,
            table,
            from,
            to,
            f.indexed,
        ),
        DirectiveV::RenameTable(from, to) => rename_table_program(schema_name, from, to),
        DirectiveV::DropField(table, field) => drop_field_program(schema_name, old, table, field),
        DirectiveV::DropTable(name) => Ok(drop_table_program(schema_name, name)),
        DirectiveV::DropIndex(table, name) => drop_index_program(
            schema_name,
            old,
            table,
            name,
            f.still_indexed,
        ),
        DirectiveV::SetDefault(table, field, value) => set_default_program(
            schema_name,
            table,
            field,
            value,
            f.column,
        ),
        DirectiveV::ChangeType(table, field, _, cast, default) => change_type_program(
            schema_name,
            old,
            table,
            field,
            cast,
            default,
            f.indexable,
            f.column,
        ),
        DirectiveV::EvalExpr(table, set, expr, cond) => match expr {
            ExprV::Legacy(raw) => eval_raw_program(schema_name, derived, table, set, raw, cond),
            ExprV::Typed(_) => match f.expr {
                Some(e) => eval_typed_program(schema_name, derived, table, set, e, cond),
                None => Err(error::internal("evalExpr 'expr' was not compiled"@)),
            },
        },
    }
}

/// The statements of a directive.
pub fn apply_one(
    schema_name: &str,
    old: &SchemaDef,
    derived: &SchemaDef,
    d: &Directive,
    facts: Facts,
) -> (r: Result<Program, RtDbError>)
    ensures
        gives(r, program_of(schema_name@, old@, derived@, d@, facts@)),
{
    let column: Option<&TypedColumn> = match &facts.column {
        Some(c) => Some(c),
        None => None,
    };
    match d {
        Directive::RenameField { table, from, to } => apply_rename_field(
            schema_name,
            old,
            table.as_str(),
            from.as_str(),
            to.as_str(),
            facts.indexed,
        ),
        Directive::RenameTable { from, to } => apply_rename_table(
            schema_name,
            from.as_str(),
            to.as_str(),
        ),
        Directive::DropField { table, field } => apply_drop_field(
            schema_name,
            old,
            table.as_str(),
            field.as_str(),
        ),
        Directive::DropTable { name } => Ok(apply_drop_table(schema_name, name.as_str())),
        Directive::DropIndex { table, name } => apply_drop_index(
            schema_name,
            old,
            table.as_str(),
            name.as_str(),
            &facts.still_indexed,
        ),
        Directive::SetDefault { table, field, value } => apply_set_default(
            schema_name,
            table.as_str(),
            field.as_str(),
            value,
            column,
        ),
        Directive::ChangeType { table, field, cast, default, .. } => apply_change_type(
            schema_name,
            old,
            table.as_str(),
            field.as_str(),
            *cast,
            default,
            facts.indexable,
            column,
        ),
        Directive::EvalExpr { table, set, expr, where_clause } => match expr {
            ExprSource::Legacy(raw) => apply_eval_raw(
                schema_name,
                derived,
                table.as_str(),
                set.as_str(),
                raw.as_str(),
                where_clause,
            ),
            ExprSource::Typed(_) => match facts.expr {
                Some(e) => apply_eval_typed(
                    schema_name,
                    derived,
                    table.as_str(),
                    set.as_str(),
                    e,
                    where_clause,
                ),
                None => Err(RtDbError::internal("evalExpr 'expr' was not compiled".to_owned())),
            },
        },
    }
}

/// The table and field whose stored values a directive rewrites.
pub open spec fn rewritten(d: DirectiveV) -> Option<(Seq<char>, Seq<char>)> {
    match d {
        DirectiveV::SetDefault(table, field, _) => Some((table, field)),
        DirectiveV::ChangeType(table, field, _, _, _) => Some((table, field)),
        DirectiveV::EvalExpr(table, set, _, _) => Some((table, set)),
        _ => None,
    }
}

/// A computed field is derived anew after a directive: one that reads the
/// rewritten field; after an evaluation, every one.
pub open spec fn restamped(
    derived: Map<Seq<char>, TableV>,
    d: DirectiveV,
    k: Seq<char>,
) -> bool {
    match rewritten(d) {
        None => false,
        Some((table, field)) => if d is EvalExpr {
            derived[table].computed.contains_key(k)
        } else {
            plan::reads(derived[table].computed, field, k)
        },
    }
}

/// What is done for the rewritten rows after the statements of a directive: the
/// computed fields to derive anew, and whether all columns are read anew.
#[derive(Debug)]
pub struct FollowUp {
    pub fields: Vec<String>,
    pub columns: bool,
}

/// What is done after the statements of a directive.
pub fn follow_up(derived: &SchemaDef, d: &Directive) -> (r: Result<FollowUp, RtDbError>)
    ensures
        match rewritten(d@) {
            Some((table, _)) => match table_in(derived@, table) {
                Ok(_) => r is Ok,
                Err(e) => r matches Err(x) && x@ == e,
            },
            None => r is Ok,
        },
        r matches Ok(f) ==> strmap::ascending(text::strs(f.fields@)) && (forall|k: Seq<char>|
         #[trigger]
            text::strs(f.fields@).contains(k) <==> restamped(derived@, d@, k)) && f.columns == (
        d@ is EvalExpr || f.fields@.len() > 0),
{
    let (table, field, all) = match d {
        Directive::SetDefault { table, field, .. } => (table, field, false),
        Directive::ChangeType { table, field, .. } => (table, field, false),
        Directive::EvalExpr { table, set, .. } => (table, set, true),
        _ => {
            let fields: Vec<String> = Vec::new();
            assert(text::strs(fields@).len() == 0);
            return Ok(FollowUp { fields, columns: false });
        },
    };
    let t = match table_def(derived, table.as_str()) {
        Ok(t) => t,
        Err(e) => {
            return Err(e);
        },
    };
    let fields = if all {
        computed_field_names(t)
    } else {
        computed_fields_referencing(t, field.as_str())
    };
    let columns = all || fields.len() > 0;
    Ok(FollowUp { fields, columns })
}

/// What a computed field is derived from does not change behind its back: where
/// a directive rewrites a field that the computed field reads, the computed
/// field is derived anew.
pub proof fn law_readers_are_derived_anew(
    derived: Map<Seq<char>, TableV>,
    d: DirectiveV,
    k: Seq<char>,
)
    requires
        rewritten(d) matches Some((table, field)) && plan::reads(derived[table].computed, field, k),
    ensures
        restamped(derived, d, k),
{
}

/// A name that goes into a statement holds no quote, so it ends no quoted name
/// and no quoted text there.
pub proof fn law_identifiers_hold_no_quotes(what: Seq<char>, name: Seq<char>, max: int)
    requires
        ident_fault(what, name, max) is None,
    ensures
        !name.contains('\''),
        !name.contains('"'),
        !name.contains('\\'),
{
    if name.contains('\'') {
        let i = name.index_of('\'');
        assert(text::ident_part(name[i]));
    }
    if name.contains('"') {
        let i = name.index_of('"');
        assert(text::ident_part(name[i]));
    }
    if name.contains('\\') {
        let i = name.index_of('\\');
        assert(text::ident_part(name[i]));
    }
}

/// A directive whose statements are built has only identifiers in them: a name
/// that is none is refused.
pub proof fn law_programs_hold_identifiers(
    schema_name: Seq<char>,
    old: Map<Seq<char>, TableV>,
    table: Seq<char>,
    from: Seq<char>,
    to: Seq<char>,
    value: JsonV,
    cast: Cast,
    default: Option<JsonV>,
    indexed: bool,
    still: Seq<Seq<char>>,
    column: Option<(Seq<char>, Seq<char>, Seq<char>)>,
)
    ensures
        rename_field_program(schema_name, old, table, from, to, indexed) is Ok ==> field_ident_fault(
            from,
        ) is None && field_ident_fault(to) is None,
        rename_table_program(schema_name, from, to) is Ok ==> table_ident_fault(from) is None
            && table_ident_fault(to) is None,
        drop_field_program(schema_name, old, table, from) is Ok ==> field_ident_fault(from) is None,
        drop_index_program(schema_name, old, table, from, still) is Ok ==> table_ident_fault(
            table,
        ) is None && index_ident_fault(from) is None,
        set_default_program(schema_name, table, from, value, column) is Ok ==> field_ident_fault(
            from,
        ) is None,
        change_type_program(schema_name, old, table, from, cast, default, indexed, column) is Ok
            ==> field_ident_fault(from) is None,
{
}

/// A field that an index needs is not dropped.
pub proof fn law_needed_field_is_not_dropped(
    schema_name: Seq<char>,
    old: Map<Seq<char>, TableV>,
    table: Seq<char>,
    field: Seq<char>,
    i: int,
)
    requires
        old.contains_key(table),
        0 <= i < old[table].indexes.len(),
        needs(old[table].indexes[i], field),
    ensures
        drop_field_program(schema_name, old, table, field) is Err,
{
    lemma_blocking(old[table].indexes, field, i);
}

proof fn lemma_blocking(indexes: Seq<IndexV>, field: Seq<char>, i: int)
    requires
        0 <= i < indexes.len(),
        needs(indexes[i], field),
    ensures
        blocking(indexes, field).len() > 0,
    decreases indexes.len(),
{
    if i < indexes.len() - 1 {
        lemma_blocking(indexes.drop_last(), field, i);
    }
}

} // verus!
