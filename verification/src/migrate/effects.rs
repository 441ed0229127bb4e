//! What applying a migration did: reports, touched tables, written documents.
#[allow(unused_imports)]
use vstd::prelude::*;
#[allow(unused_imports)]
use vstd::string::*;

use crate::dsl::{BindV, EqBind};
use crate::json::{Json, JsonNumber, JsonV, NumberV};
use crate::migrate::plan::{Directive, DirectiveV};
use crate::schema::SchemaDef;
use crate::strmap::StrMap;
use crate::txn;
use crate::txn::{DocOp, OpKind, OpV};

verus! {

/// A value bound to a placeholder of a migration statement.
#[derive(Debug)]
pub enum MigrateBind {
    Text(String),
    /// A double-precision number, given by the number it is read from.
    Num(JsonNumber),
    Bool(bool),
    I64(i64),
    Json(Json),
}

/// The mathematical form of a bind.
pub enum MigrateBindV {
    Text(Seq<char>),
    Num(NumberV),
    Bool(bool),
    I64(i64),
    Json(JsonV),
}

impl View for MigrateBind {
    type V = MigrateBindV;

    open spec fn view(&self) -> MigrateBindV {
        match self {
            MigrateBind::Text(s) => MigrateBindV::Text(s@),
            MigrateBind::Num(n) => MigrateBindV::Num(n@),
            MigrateBind::Bool(b) => MigrateBindV::Bool(*b),
            MigrateBind::I64(i) => MigrateBindV::I64(*i),
            MigrateBind::Json(v) => MigrateBindV::Json(v@),
        }
    }
}

/// The views of binds.
pub open spec fn bind_views(v: Seq<MigrateBind>) -> Seq<MigrateBindV> {
    Seq::new(v.len(), |i: int| v[i]@)
}

/// A bind of a filter in a migration statement.
pub open spec fn migrate_bind(b: BindV) -> MigrateBindV {
    match b {
        BindV::Text(s) => MigrateBindV::Text(s),
        BindV::Num(n) => MigrateBindV::Num(n),
        BindV::Bool(b) => MigrateBindV::Bool(b),
        BindV::I64(i) => MigrateBindV::I64(i),
    }
}

/// Binds of a filter in a migration statement.
pub open spec fn migrate_binds(bs: Seq<BindV>) -> Seq<MigrateBindV> {
    Seq::new(bs.len(), |i: int| migrate_bind(bs[i]))
}

impl MigrateBind {
    /// A bind of a filter in a migration statement.
    pub fn of(b: &EqBind) -> (r: MigrateBind)
        ensures
            r@ == migrate_bind(b@),
    {
        match b {
            EqBind::Text(s) => MigrateBind::Text(s.clone()),
            EqBind::Num(n) => MigrateBind::Num(n.copy()),
            EqBind::Bool(b) => MigrateBind::Bool(*b),
            EqBind::I64(i) => MigrateBind::I64(*i),
        }
    }
}

/// Appends binds of a filter.
pub fn append_binds(out: &mut Vec<MigrateBind>, more: &Vec<EqBind>)
    ensures
        bind_views(final(out)@) == bind_views(old(out)@) + migrate_binds(
            crate::dsl::bind_views(more@),
        ),
{
    let ghost start = bind_views(out@);
    let ghost mv = crate::dsl::bind_views(more@);
    let mut i: usize = 0;
    assert(start + migrate_binds(mv.take(0)) =~= start);
    while i < more.len()
        invariant
            i <= more@.len(),
            mv == crate::dsl::bind_views(more@),
            bind_views(out@) == start + migrate_binds(mv.take(i as int)),
        decreases more@.len() - i,
    {
        let ghost so_far = bind_views(out@);
        let b = MigrateBind::of(&more[i]);
        let ghost bv = b@;
        out.push(b);
        proof {
            assert(bind_views(out@) =~= so_far.push(bv));
            assert(migrate_binds(mv.take(i as int + 1)) =~= migrate_binds(mv.take(i as int)).push(
                bv,
            ));
            assert(so_far.push(bv) =~= start + migrate_binds(mv.take(i as int)).push(bv));
        }
        i = i + 1;
    }
    assert(mv.take(more@.len() as int) =~= mv);
}

/// A request to migrate.
#[derive(Debug)]
pub struct MigrateRequest {
    pub directives: Vec<Directive>,
    pub dry_run: bool,
}

/// The answer to a request to migrate.
#[derive(Debug)]
pub struct MigrateResult {
    pub applied: bool,
    pub schema: SchemaDef,
    pub directives: Vec<DirectiveReport>,
}

/// What one directive did.
#[derive(Debug)]
pub struct DirectiveReport {
    pub op: String,
    pub affected_rows: i64,
    pub cast_failures: Vec<CastFailure>,
    pub sample_changes: Vec<SampleChange>,
}

/// A value that could not be converted.
#[derive(Debug)]
pub struct CastFailure {
    pub id: String,
    pub value: Json,
}

/// A document before and after.
#[derive(Debug)]
pub struct SampleChange {
    pub id: String,
    pub before: Json,
    pub after: Json,
}

impl Default for DirectiveReport {
    fn default() -> (r: DirectiveReport)
        ensures
            r.op@ == Seq::<char>::empty(),
            r.affected_rows == 0,
            r.cast_failures@ == Seq::<CastFailure>::empty(),
            r.sample_changes@ == Seq::<SampleChange>::empty(),
    {
        let r = DirectiveReport {
            op: String::new(),
            affected_rows: 0,
            cast_failures: Vec::new(),
            sample_changes: Vec::new(),
        };
        assert(r.op@ =~= Seq::<char>::empty());
        r
    }
}

/// The mathematical form of a report: the directive and the rows it affected.
impl View for DirectiveReport {
    type V = (Seq<char>, i64);

    open spec fn view(&self) -> (Seq<char>, i64) {
        (self.op@, self.affected_rows)
    }
}

/// The views of reports.
pub open spec fn report_views(v: Seq<DirectiveReport>) -> Seq<(Seq<char>, i64)> {
    Seq::new(v.len(), |i: int| v[i]@)
}

/// The member of a set of names.
#[derive(Debug, Clone, Copy)]
pub struct Mark {}

impl View for Mark {
    type V = Mark;

    open spec fn view(&self) -> Mark {
        *self
    }
}

/// What applying the directives did so far.
#[derive(Debug)]
pub struct MigrationEffects {
    pub reports: Vec<DirectiveReport>,
    pub touched: StrMap<Mark>,
    pub ops: Vec<DocOp>,
}

/// The mathematical form of the effects.
pub struct EffectsV {
    pub reports: Seq<(Seq<char>, i64)>,
    pub touched: Set<Seq<char>>,
    pub ops: Seq<OpV>,
}

impl View for MigrationEffects {
    type V = EffectsV;

    open spec fn view(&self) -> EffectsV {
        EffectsV {
            reports: report_views(self.reports@),
            touched: self.touched@.dom(),
            ops: txn::op_views(self.ops@),
        }
    }
}

impl Default for MigrationEffects {
    fn default() -> (r: MigrationEffects)
        ensures
            r@ == (EffectsV {
                reports: Seq::empty(),
                touched: Set::empty(),
                ops: Seq::empty(),
            }),
    {
        let r = MigrationEffects {
            reports: Vec::new(),
            touched: StrMap::new(),
            ops: Vec::new(),
        };
        assert(r@.reports =~= Seq::<(Seq<char>, i64)>::empty());
        assert(r@.touched =~= Set::<Seq<char>>::empty());
        assert(r@.ops =~= Seq::<OpV>::empty());
        r
    }
}

/// The writes of one kind to documents of a table.
pub open spec fn written(table: Seq<char>, ids: Seq<Seq<char>>, kind: OpKind) -> Seq<OpV> {
    Seq::new(ids.len(), |i: int| OpV { table, id: ids[i], kind })
}

/// Appends the writes of one kind to documents of a table.
pub fn push_ops(ops: &mut Vec<DocOp>, table: &str, ids: &Vec<String>, kind: OpKind)
    ensures
        txn::op_views(final(ops)@) == txn::op_views(old(ops)@) + written(
            table@,
            crate::text::strs(ids@),
            kind,
        ),
{
    let ghost start = txn::op_views(ops@);
    let ghost iv = crate::text::strs(ids@);
    let mut i: usize = 0;
    assert(start + written(table@, iv.take(0), kind) =~= start);
    while i < ids.len()
        invariant
            i <= ids@.len(),
            iv == crate::text::strs(ids@),
            txn::op_views(ops@) == start + written(table@, iv.take(i as int), kind),
        decreases ids@.len() - i,
    {
        let ghost so_far = txn::op_views(ops@);
        ops.push(DocOp { table: table.to_owned(), id: ids[i].clone(), kind });
        proof {
            let ov = OpV { table: table@, id: iv[i as int], kind };
            assert(txn::op_views(ops@) =~= so_far.push(ov));
            assert(so_far.push(ov) =~= start + written(table@, iv.take(i as int + 1), kind));
        }
        i = i + 1;
    }
    assert(iv.take(ids@.len() as int) =~= iv);
}

/// The name of a directive in reports.
pub open spec fn op_name(d: DirectiveV) -> Seq<char> {
    match d {
        DirectiveV::RenameField(_, _, _) => "renameField"@,
        DirectiveV::RenameTable(_, _) => "renameTable"@,
        DirectiveV::ChangeType(_, _, _, _, _) => "changeType"@,
        DirectiveV::DropField(_, _) => "dropField"@,
        DirectiveV::DropTable(_) => "dropTable"@,
        DirectiveV::DropIndex(_, _) => "dropIndex"@,
        DirectiveV::SetDefault(_, _, _) => "setDefault"@,
        DirectiveV::EvalExpr(_, _, _, _) => "evalExpr"@,
    }
}

/// The table a directive touches, by the name it has afterwards.
pub open spec fn touched_table(d: DirectiveV) -> Seq<char> {
    match d {
        DirectiveV::RenameField(t, _, _) => t,
        DirectiveV::RenameTable(_, to) => to,
        DirectiveV::ChangeType(t, _, _, _, _) => t,
        DirectiveV::DropField(t, _) => t,
        DirectiveV::DropTable(name) => name,
        DirectiveV::DropIndex(t, _) => t,
        DirectiveV::SetDefault(t, _, _) => t,
        DirectiveV::EvalExpr(t, _, _, _) => t,
    }
}

/// How a directive writes the documents it affects; not at all where none.
pub open spec fn op_kind(d: DirectiveV) -> Option<OpKind> {
    match d {
        DirectiveV::RenameTable(_, _) => None,
        DirectiveV::DropIndex(_, _) => None,
        DirectiveV::DropTable(_) => Some(OpKind::Delete),
        _ => Some(OpKind::Patch),
    }
}

/// A number of rows in a report.
pub open spec fn row_count(n: int) -> i64 {
    if n > i64::MAX {
        i64::MAX
    } else {
        n as i64
    }
}

/// The rows that a directive affected: of a rename of a field those that it
/// rewrote, otherwise those that it was found to affect.
pub open spec fn affected(d: DirectiveV, ids: int, rewritten: i64) -> i64 {
    match d {
        DirectiveV::RenameField(_, _, _) => rewritten,
        DirectiveV::RenameTable(_, _) => 0,
        DirectiveV::DropIndex(_, _) => 0,
        _ => row_count(ids),
    }
}

/// The effects after a directive was applied to the documents with the ids.
pub open spec fn recorded(
    e: EffectsV,
    d: DirectiveV,
    ids: Seq<Seq<char>>,
    rewritten: i64,
) -> EffectsV {
    EffectsV {
        reports: e.reports.push((op_name(d), affected(d, ids.len() as int, rewritten))),
        touched: e.touched.insert(touched_table(d)),
        ops: match op_kind(d) {
            Some(kind) => e.ops + written(touched_table(d), ids, kind),
            None => e.ops,
        },
    }
}

impl MigrationEffects {
    /// Records a directive that was applied to the documents with the ids.
    /// `rewritten` is how many rows its last statement changed. The reports so far
    /// stay; the new one tells of no cast failures and no sample changes.
    pub fn record(&mut self, d: &Directive, ids: &Vec<String>, rewritten: i64)
        ensures
            final(self)@ == recorded(old(self)@, d@, crate::text::strs(ids@), rewritten),
            final(self).reports@.drop_last() == old(self).reports@,
            final(self).reports@.last().cast_failures@.len() == 0,
            final(self).reports@.last().sample_changes@.len() == 0,
    {
        let ghost before = self@;
        let found: i64 = if ids.len() as u64 > i64::MAX as u64 {
            i64::MAX
        } else {
            ids.len() as i64
        };
        let (op, rows, table, kind): (&str, i64, &str, Option<OpKind>) = match d {
            Directive::RenameField { table, .. } => (
                "renameField",
                rewritten,
                table.as_str(),
                Some(OpKind::Patch),
            ),
            Directive::RenameTable { to, .. } => ("renameTable", 0, to.as_str(), None),
            Directive::ChangeType { table, .. } => (
                "changeType",
                found,
                table.as_str(),
                Some(OpKind::Patch),
            ),
            Directive::DropField { table, .. } => (
                "dropField",
                found,
                table.as_str(),
                Some(OpKind::Patch),
            ),
            Directive::DropTable { name } => (
                "dropTable",
                found,
                name.as_str(),
                Some(OpKind::Delete),
            ),
            Directive::DropIndex { table, .. } => ("dropIndex", 0, table.as_str(), None),
            Directive::SetDefault { table, .. } => (
                "setDefault",
                found,
                table.as_str(),
                Some(OpKind::Patch),
            ),
            Directive::EvalExpr { table, .. } => (
                "evalExpr",
                found,
                table.as_str(),
                Some(OpKind::Patch),
            ),
        };
        let report = DirectiveReport {
            op: op.to_owned(),
            affected_rows: rows,
            cast_failures: Vec::new(),
            sample_changes: Vec::new(),
        };
        let ghost rv = report@;
        self.reports.push(report);
        assert(report_views(self.reports@) =~= before.reports.push(rv));
        assert(self.reports@.drop_last() =~= old(self).reports@);
        self.touched.insert(table.to_owned(), Mark {  });
        assert(self@.touched =~= before.touched.insert(table@));
        if let Some(kind) = kind {
            push_ops(&mut self.ops, table, ids, kind);
        }
    }
}

/// Every applied directive gives one report, and the table it worked on counts
/// as touched.
pub proof fn law_every_directive_is_recorded(
    e: EffectsV,
    d: DirectiveV,
    ids: Seq<Seq<char>>,
    rewritten: i64,
)
    ensures
        recorded(e, d, ids, rewritten).reports.len() == e.reports.len() + 1,
        recorded(e, d, ids, rewritten).touched.contains(touched_table(d)),
        e.touched.subset_of(recorded(e, d, ids, rewritten).touched),
        recorded(e, d, ids, rewritten).ops.len() == e.ops.len() + (if op_kind(d) is Some {
            ids.len()
        } else {
            0
        }),
{
}

} // verus!
