//! The command line's decisions and text: which jobs a `run` covers, the
//! checks before a job runs, and the aligned tables of `list-jobs` and
//! `list-snapshots`.

use vstd::prelude::*;
use crate::config::{Config, Job, Repository, Retention};
use crate::text::{views, push_owned, owned, concat3, decimal, decimal_string, chars_of, slice_chars};

verus! {

broadcast use vstd::string::group_string_axioms;

/// The target of `kovre run`: one job by name, or every job.
#[derive(Debug)]
pub struct RunArgs {
    pub job: Option<String>,
    pub all: bool,
}

/// Why a job cannot be run.
#[derive(Debug)]
pub enum RunError {
    /// Neither a job name nor `--all` was given.
    NoTarget,
    /// The job is not in the configuration.
    UnknownJob { job: String },
    /// The job's repository is not in the configuration.
    UnknownRepository { job: String, repository: String },
}

impl RunError {
    /// The human-readable description.
    pub fn message(&self) -> (m: String)
        ensures
            m@ == (match self {
                RunError::NoTarget => "either a job name or --all must be specified"@,
                RunError::UnknownJob { job } => "unknown job `"@ + job@ + "`"@,
                RunError::UnknownRepository { job, repository } => "job `"@ + job@
                    + "` references unknown repository `"@ + repository@ + "`"@,
            }),
    {
        match self {
            RunError::NoTarget => owned("either a job name or --all must be specified"),
            RunError::UnknownJob { job } => concat3("unknown job `", job.as_str(), "`"),
            RunError::UnknownRepository { job, repository } => {
                let mut m = concat3("job `", job.as_str(), "` references unknown repository `");
                m.append(repository.as_str());
                m.append("`");
                m
            },
        }
    }
}

/// The jobs `kovre run` covers: every configured job in declaration
/// order with `--all`, else the named job.
pub fn run_targets(cfg: &Config, args: &RunArgs) -> (r: Result<Vec<String>, RunError>)
    ensures
        match r {
            Ok(names) => if args.all {
                views(names@) == cfg.jobs@.map_values(|e: (Seq<char>, Job)| e.0)
            } else {
                args.job matches Some(j) && views(names@) == seq![j@]
            },
            Err(e) => !args.all && args.job is None && e is NoTarget,
        },
{
    if args.all {
        let mut names: Vec<String> = Vec::new();
        let mut i: usize = 0;
        while i < cfg.jobs.len()
            invariant
                i <= cfg.jobs@.len(),
                views(names@) == cfg.jobs@.map_values(|e: (Seq<char>, Job)| e.0).take(i as int),
            decreases cfg.jobs@.len() - i,
        {
            push_owned(&mut names, cfg.jobs.key_at(i).as_str());
            assert(cfg.jobs@.map_values(|e: (Seq<char>, Job)| e.0).take(i + 1) =~= cfg.jobs@.map_values(
                |e: (Seq<char>, Job)| e.0,
            ).take(i as int).push(cfg.jobs@[i as int].0));
            i += 1;
        }
        assert(cfg.jobs@.map_values(|e: (Seq<char>, Job)| e.0).take(cfg.jobs@.len() as int)
            =~= cfg.jobs@.map_values(|e: (Seq<char>, Job)| e.0));
        Ok(names)
    } else {
        match &args.job {
            Some(j) => {
                let mut names: Vec<String> = Vec::new();
                push_owned(&mut names, j.as_str());
                assert(views(names@) =~= seq![j@]);
                Ok(names)
            },
            None => Err(RunError::NoTarget),
        }
    }
}

/// The number of jobs that failed, where `failed[i]` says whether the
/// `i`-th job did.
pub open spec fn failure_count(failed: Seq<bool>) -> nat
    decreases failed.len(),
{
    if failed.len() == 0 {
        0
    } else {
        failure_count(failed.drop_last()) + if failed.last() {
            1nat
        } else {
            0nat
        }
    }
}

/// The failures counted are exactly the jobs flagged as failed.
pub proof fn lemma_failure_count_counts_failed(failed: Seq<bool>)
    ensures
        failure_count(failed) == failed.filter(|b: bool| b).len(),
    decreases failed.len(),
{
    reveal(Seq::filter);
    if failed.len() > 0 {
        lemma_failure_count_counts_failed(failed.drop_last());
    }
}

proof fn lemma_failure_count_bound(failed: Seq<bool>)
    ensures
        failure_count(failed) <= failed.len(),
    decreases failed.len(),
{
    if failed.len() > 0 {
        lemma_failure_count_bound(failed.drop_last());
    }
}

/// The outcome of `kovre run --all` once every job has run: success when
/// no job failed, else how many did.
pub fn run_all_outcome(failed: &Vec<bool>) -> (r: Result<(), String>)
    ensures
        match r {
            Ok(()) => failure_count(failed@) == 0,
            Err(m) => failure_count(failed@) > 0 && m@ == decimal(failure_count(failed@)) + " job(s) failed"@,
        },
{
    let mut n: usize = 0;
    let mut i: usize = 0;
    while i < failed.len()
        invariant
            i <= failed@.len(),
            n == failure_count(failed@.take(i as int)),
        decreases failed.len() - i,
    {
        proof {
            assert(failed@.take(i + 1).drop_last() =~= failed@.take(i as int));
            lemma_failure_count_bound(failed@.take(i as int));
        }
        if failed[i] {
            n = n + 1;
        }
        i += 1;
    }
    assert(failed@.take(i as int) =~= failed@);
    if n == 0 {
        Ok(())
    } else {
        let mut m = decimal_string(n as u64);
        m.append(" job(s) failed");
        Err(m)
    }
}

/// The job `name` and its repository, or why the job cannot run: an
/// unknown job first, then an unknown repository.
pub fn job_and_repository<'a>(cfg: &'a Config, name: &str) -> (r: Result<(&'a Job, &'a Repository), RunError>)
    ensures
        match r {
            Ok((job, repo)) => cfg.jobs.lookup(name@) == Some(*job) && cfg.repositories.lookup(
                job.repository@,
            ) == Some(*repo),
            Err(RunError::UnknownJob { job }) => cfg.jobs.lookup(name@) is None && job@ == name@,
            Err(RunError::UnknownRepository { job, repository }) => cfg.jobs.lookup(name@) matches Some(
                j,
            ) && cfg.repositories.lookup(j.repository@) is None && job@ == name@ && repository@
                == j.repository@,
            Err(RunError::NoTarget) => false,
        },
{
    let job = match cfg.jobs.get(name) {
        Some(j) => j,
        None => return Err(RunError::UnknownJob { job: owned(name) }),
    };
    match cfg.repositories.get(job.repository.as_str()) {
        Some(repo) => Ok((job, repo)),
        None => Err(
            RunError::UnknownRepository { job: owned(name), repository: owned(job.repository.as_str()) },
        ),
    }
}

/// One `key=value` part of the retention summary, when the rule is set.
pub open spec fn rule_part(key: Seq<char>, v: Option<u32>) -> Seq<Seq<char>> {
    match v {
        Some(n) => seq![key + "="@ + decimal(n as nat)],
        None => Seq::empty(),
    }
}

/// `parts` joined with `sep`.
pub open spec fn joined(parts: Seq<Seq<char>>, sep: Seq<char>) -> Seq<char>
    decreases parts.len(),
{
    if parts.len() == 0 {
        Seq::empty()
    } else if parts.len() == 1 {
        parts[0]
    } else {
        joined(parts.drop_last(), sep) + sep + parts.last()
    }
}

/// The rules of `r` that are set, in the order last, hourly, daily,
/// weekly, monthly, yearly.
pub open spec fn retention_parts(r: Retention) -> Seq<Seq<char>> {
    rule_part("last"@, r.keep_last) + rule_part("hourly"@, r.keep_hourly) + rule_part(
        "daily"@,
        r.keep_daily,
    ) + rule_part("weekly"@, r.keep_weekly) + rule_part("monthly"@, r.keep_monthly) + rule_part(
        "yearly"@,
        r.keep_yearly,
    )
}

/// The retention column: `-` without retention or without any count rule,
/// else the set rules joined with `,`.
pub open spec fn retention_summary(r: Option<Retention>) -> Seq<char> {
    match r {
        None => "-"@,
        Some(r) => if retention_parts(r).len() == 0 {
            "-"@
        } else {
            joined(retention_parts(r), ","@)
        },
    }
}

fn push_rule(parts: &mut Vec<String>, key: &str, v: Option<u32>)
    ensures
        views(final(parts)@) == views(old(parts)@) + rule_part(key@, v),
{
    proof {
        reveal_strlit("=");
    }
    match v {
        Some(n) => {
            let digits = decimal_string(n as u64);
            let p = concat3(key, "=", digits.as_str());
            let ghost prev = views(parts@);
            parts.push(p);
            assert(views(parts@) =~= prev + rule_part(key@, v));
        },
        None => {
            assert(views(parts@) =~= views(parts@) + rule_part(key@, v));
        },
    }
}

/// `parts` joined with `sep`.
pub fn join_strings(parts: &Vec<String>, sep: &str) -> (r: String)
    ensures
        r@ == joined(views(parts@), sep@),
{
    let mut r = String::new();
    let mut i: usize = 0;
    while i < parts.len()
        invariant
            i <= parts@.len(),
            r@ == joined(views(parts@).take(i as int), sep@),
        decreases parts.len() - i,
    {
        assert(views(parts@).take(i + 1).drop_last() =~= views(parts@).take(i as int));
        if i > 0 {
            r.append(sep);
        } else {
            assert(r@ =~= Seq::<char>::empty());
        }
        r.append(parts[i].as_str());
        i += 1;
    }
    assert(views(parts@).take(parts@.len() as int) =~= views(parts@));
    r
}

/// The retention column of `list-jobs` (see `retention_summary`).
pub fn format_retention(retention: &Option<Retention>) -> (s: String)
    ensures
        s@ == retention_summary(*retention),
{
    match retention {
        None => owned("-"),
        Some(r) => {
            let mut parts: Vec<String> = Vec::new();
            push_rule(&mut parts, "last", r.keep_last);
            push_rule(&mut parts, "hourly", r.keep_hourly);
            push_rule(&mut parts, "daily", r.keep_daily);
            push_rule(&mut parts, "weekly", r.keep_weekly);
            push_rule(&mut parts, "monthly", r.keep_monthly);
            push_rule(&mut parts, "yearly", r.keep_yearly);
            assert(views(parts@) =~= retention_parts(*r));
            if parts.len() == 0 {
                owned("-")
            } else {
                join_strings(&parts, ",")
            }
        },
    }
}

/// The widest cell of column `c` among `rows`.
pub open spec fn column_width(rows: Seq<Seq<Seq<char>>>, c: int) -> nat
    decreases rows.len(),
{
    if rows.len() == 0 {
        0
    } else {
        let w = column_width(rows.drop_last(), c);
        let l = rows.last()[c].len();
        if l > w {
            l
        } else {
            w
        }
    }
}

/// A column is as wide as its widest cell: no cell of the column is
/// wider, and, when there is a row, some cell is exactly that wide.
pub proof fn lemma_column_width_is_widest(rows: Seq<Seq<Seq<char>>>, c: int)
    ensures
        forall|i: int| 0 <= i < rows.len() ==> (#[trigger] rows[i])[c].len() <= column_width(rows, c),
        rows.len() > 0 ==> exists|i: int| 0 <= i < rows.len() && (#[trigger] rows[i])[c].len() == column_width(rows, c),
        rows.len() == 0 ==> column_width(rows, c) == 0,
    decreases rows.len(),
{
    if rows.len() > 0 {
        lemma_column_width_is_widest(rows.drop_last(), c);
        assert forall|i: int| 0 <= i < rows.len() implies (#[trigger] rows[i])[c].len() <= column_width(rows, c) by {
            if i < rows.len() - 1 {
                assert(rows[i] == rows.drop_last()[i]);
            }
        }
        if rows[rows.len() - 1][c].len() < column_width(rows, c) {
            let i = choose|i: int| 0 <= i < rows.drop_last().len() && (#[trigger] rows.drop_last()[i])[c].len()
                == column_width(rows.drop_last(), c);
            assert(rows[i] == rows.drop_last()[i]);
        }
    }
}

/// The cells of a table of strings.
pub open spec fn cells(rows: Seq<Vec<String>>) -> Seq<Seq<Seq<char>>> {
    rows.map_values(|r: Vec<String>| views(r@))
}

/// Every row of `rows` has `n` cells.
pub open spec fn rows_of_width(rows: Seq<Vec<String>>, n: nat) -> bool {
    forall|i: int| 0 <= i < rows.len() ==> (#[trigger] rows[i])@.len() == n
}

/// The width of each of the `n` columns: its widest cell, in characters.
pub fn column_widths(rows: &Vec<Vec<String>>, n: usize) -> (w: Vec<usize>)
    requires
        rows_of_width(rows@, n as nat),
    ensures
        w@.len() == n,
        forall|c: int| 0 <= c < n ==> w@[c] == column_width(cells(rows@), c),
{
    let mut w: Vec<usize> = Vec::new();
    let mut c: usize = 0;
    while c < n
        invariant
            c <= n,
            rows_of_width(rows@, n as nat),
            w@.len() == c,
            forall|k: int| 0 <= k < c ==> w@[k] == column_width(cells(rows@), k),
        decreases n - c,
    {
        let mut best: usize = 0;
        let mut i: usize = 0;
        while i < rows.len()
            invariant
                i <= rows@.len(),
                c < n,
                rows_of_width(rows@, n as nat),
                best == column_width(cells(rows@).take(i as int), c as int),
            decreases rows.len() - i,
        {
            assert(cells(rows@).take(i + 1).drop_last() =~= cells(rows@).take(i as int));
            assert(rows@[i as int]@.len() == n);
            let l: usize = chars_of(rows[i][c].as_str()).len();
            assert(cells(rows@).take(i + 1).last()[c as int] == rows@[i as int]@[c as int]@);
            if l > best {
                best = l;
            }
            i += 1;
        }
        assert(cells(rows@).take(rows@.len() as int) =~= cells(rows@));
        w.push(best);
        c += 1;
    }
    w
}

/// `cell` followed by spaces up to `width` characters.
pub open spec fn padded(cell: Seq<char>, width: nat) -> Seq<char> {
    if cell.len() >= width {
        cell
    } else {
        cell + Seq::new((width - cell.len()) as nat, |i: int| ' ')
    }
}

/// The cells of `row`, each padded to its column's width, joined by two
/// spaces.
pub open spec fn padded_cells(row: Seq<Seq<char>>, widths: Seq<usize>) -> Seq<char>
    decreases row.len(),
{
    if row.len() == 0 {
        Seq::empty()
    } else if row.len() == 1 {
        padded(row[0], widths[0] as nat)
    } else {
        padded_cells(row.drop_last(), widths) + "  "@ + padded(row.last(), widths[row.len() - 1] as nat)
    }
}

/// A table line: the cells joined by two spaces, all but the last padded
/// to their column's width.
pub open spec fn row_text(row: Seq<Seq<char>>, widths: Seq<usize>) -> Seq<char> {
    if row.len() == 0 {
        Seq::empty()
    } else if row.len() == 1 {
        row[0]
    } else {
        padded_cells(row.drop_last(), widths) + "  "@ + row.last()
    }
}

fn pad(cell: &str, width: usize) -> (r: String)
    ensures
        r@ == padded(cell@, width as nat),
{
    let n: usize = chars_of(cell).len();
    let mut r = owned(cell);
    proof {
        reveal_strlit(" ");
    }
    let mut k: usize = n;
    while k < width
        invariant
            n <= k <= width || (n >= width && k == n),
            n == cell@.len(),
            r@ == cell@ + Seq::new((k - n) as nat, |i: int| ' '),
        decreases width - k,
    {
        proof {
            reveal_strlit(" ");
        }
        r.append(" ");
        assert(r@ =~= cell@ + Seq::new((k + 1 - n) as nat, |i: int| ' '));
        k += 1;
    }
    assert(n >= width ==> r@ =~= cell@);
    r
}

/// One table line (see `row_text`).
pub fn render_row(row: &Vec<String>, widths: &Vec<usize>) -> (r: String)
    requires
        row@.len() <= widths@.len(),
    ensures
        r@ == row_text(views(row@), widths@),
{
    proof {
        reveal_strlit("  ");
    }
    let n = row.len();
    if n == 0 {
        return String::new();
    }
    let mut line = String::new();
    let mut i: usize = 0;
    while i + 1 < n
        invariant
            n == row@.len(),
            n >= 1,
            n <= widths@.len(),
            i + 1 <= n,
            line@ == padded_cells(views(row@).take(i as int), widths@),
        decreases n - i,
    {
        assert(views(row@).take(i + 1).drop_last() =~= views(row@).take(i as int));
        let cell = pad(row[i].as_str(), widths[i]);
        if i > 0 {
            line.append("  ");
        } else {
            assert(line@ =~= Seq::<char>::empty());
        }
        line.append(cell.as_str());
        i += 1;
    }
    assert(views(row@).take(n - 1) =~= views(row@).drop_last());
    if n > 1 {
        line.append("  ");
    }
    line.append(row[n - 1].as_str());
    line
}

/// The sum of the widths.
pub open spec fn width_sum(widths: Seq<usize>) -> nat
    decreases widths.len(),
{
    if widths.len() == 0 {
        0
    } else {
        width_sum(widths.drop_last()) + widths.last() as nat
    }
}

/// The rule under the header: dashes across all columns and the two-space
/// gaps between them.
pub open spec fn separator_of(widths: Seq<usize>) -> Seq<char> {
    Seq::new((width_sum(widths) + 2 * (widths.len() - 1)) as nat, |i: int| '-')
}

/// The rule under a table's header (see `separator_of`).
pub fn separator(widths: &Vec<usize>) -> (r: String)
    requires
        widths@.len() >= 1,
        width_sum(widths@) + 2 * widths@.len() <= usize::MAX,
    ensures
        r@ == separator_of(widths@),
{
    let mut total: usize = 0;
    let mut i: usize = 0;
    while i < widths.len()
        invariant
            i <= widths@.len(),
            total == width_sum(widths@.take(i as int)),
            width_sum(widths@) + 2 * widths@.len() <= usize::MAX,
        decreases widths.len() - i,
    {
        assert(widths@.take(i + 1).drop_last() =~= widths@.take(i as int));
        proof {
            lemma_width_sum_prefix(widths@, i + 1);
        }
        total = total + widths[i];
        i += 1;
    }
    assert(widths@.take(widths@.len() as int) =~= widths@);
    total = total + 2 * (widths.len() - 1);
    proof {
        reveal_strlit("-");
    }
    let mut r = String::new();
    let mut k: usize = 0;
    while k < total
        invariant
            k <= total,
            r@ == Seq::new(k as nat, |i: int| '-'),
        decreases total - k,
    {
        proof {
            reveal_strlit("-");
        }
        r.append("-");
        assert(r@ =~= Seq::new((k + 1) as nat, |i: int| '-'));
        k += 1;
    }
    r
}

proof fn lemma_width_sum_prefix(w: Seq<usize>, k: int)
    requires
        0 <= k <= w.len(),
    ensures
        width_sum(w.take(k)) <= width_sum(w),
    decreases w.len() - k,
{
    if k < w.len() {
        lemma_width_sum_prefix(w, k + 1);
        assert(w.take(k + 1).drop_last() =~= w.take(k));
    } else {
        assert(w.take(k) =~= w);
    }
}

/// The first eight characters of a snapshot id (all of it when shorter).
pub fn short_id(id: &str) -> (r: String)
    ensures
        r@ == (if id@.len() <= 8 {
            id@
        } else {
            id@.subrange(0, 8)
        }),
{
    let n: usize = chars_of(id).len();
    if n <= 8 {
        owned(id)
    } else {
        owned(slice_chars(id, 0, 8))
    }
}

/// The template column of `list-jobs`: the template's name, or
/// `(custom)` for explicit paths.
pub fn template_label(job: &Job) -> (r: String)
    ensures
        r@ == (match job.template {
            Some(t) => t@,
            None => "(custom)"@,
        }),
{
    match &job.template {
        Some(t) => owned(t.as_str()),
        None => owned("(custom)"),
    }
}

} // verus!
