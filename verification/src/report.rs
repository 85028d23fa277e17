//! Per-file reports, the batch summary and the exit code.

use vstd::prelude::*;
use crate::text::{decimal, decimal_chars, string_of_chars, string_from};
use crate::paths::opt_str;

verus! {

/// What became of one input file.
#[derive(Debug)]
pub enum Status {
    /// Written; the quality the target-size search settled on, if it ran.
    Success { quality: Option<u8> },
    /// Skipped by a skip rule (input under target size, ...).
    Skipped(String),
    /// A pure recompress would have produced a larger file; nothing written.
    AlreadyOptimal,
    /// `--dry-run`: planned but not written.
    DryRun,
    Failed(String),
}

/// The report of one input file.
#[derive(Debug)]
pub struct FileReport {
    pub index: usize,
    pub input: String,
    pub output: Option<String>,
    pub in_bytes: u64,
    pub out_bytes: u64,
    pub status: Status,
    pub note: Option<String>,
}

/// The batch summary: files written, skipped (either skip rule), failed and
/// planned (dry run), and the input and output sizes of the files written.
#[derive(Clone, Copy, Debug, PartialEq, Eq, Structural)]
pub struct Summary {
    pub ok: usize,
    pub skipped: usize,
    pub failed: usize,
    pub planned: usize,
    pub total_in: u64,
    pub total_out: u64,
}

/// The mathematical summary of a sequence of reports.
pub struct Tally {
    pub ok: nat,
    pub skipped: nat,
    pub failed: nat,
    pub planned: nat,
    pub total_in: nat,
    pub total_out: nat,
}

pub open spec fn tally(rs: Seq<FileReport>) -> Tally
    decreases rs.len(),
{
    if rs.len() == 0 {
        Tally { ok: 0, skipped: 0, failed: 0, planned: 0, total_in: 0, total_out: 0 }
    } else {
        let t = tally(rs.drop_last());
        let r = rs.last();
        match r.status {
            Status::Success { .. } => Tally {
                ok: t.ok + 1,
                total_in: t.total_in + r.in_bytes as nat,
                total_out: t.total_out + r.out_bytes as nat,
                ..t
            },
            Status::Skipped(_) => Tally { skipped: t.skipped + 1, ..t },
            Status::AlreadyOptimal => Tally { skipped: t.skipped + 1, ..t },
            Status::DryRun => Tally { planned: t.planned + 1, ..t },
            Status::Failed(_) => Tally { failed: t.failed + 1, ..t },
        }
    }
}

proof fn lemma_tally_bounds(rs: Seq<FileReport>)
    ensures
        tally(rs).ok + tally(rs).skipped + tally(rs).failed + tally(rs).planned == rs.len(),
    decreases rs.len(),
{
    if rs.len() > 0 {
        lemma_tally_bounds(rs.drop_last());
    }
}

/// Counts the reports by outcome and adds up the sizes of the files written.
pub fn summarize(reports: &[FileReport]) -> (s: Summary)
    requires
        tally(reports@).total_in <= u64::MAX,
        tally(reports@).total_out <= u64::MAX,
    ensures
        s.ok == tally(reports@).ok,
        s.skipped == tally(reports@).skipped,
        s.failed == tally(reports@).failed,
        s.planned == tally(reports@).planned,
        s.total_in == tally(reports@).total_in,
        s.total_out == tally(reports@).total_out,
{
    let mut s = Summary { ok: 0, skipped: 0, failed: 0, planned: 0, total_in: 0, total_out: 0 };
    let mut i: usize = 0;
    proof {
        lemma_tally_monotone(reports@);
    }
    while i < reports.len()
        invariant
            i <= reports@.len(),
            tally(reports@).total_in <= u64::MAX,
            tally(reports@).total_out <= u64::MAX,
            forall|k: int| 0 <= k <= reports@.len() ==> tally(#[trigger] reports@.take(k)).total_in <= tally(reports@).total_in
                && tally(reports@.take(k)).total_out <= tally(reports@).total_out,
            s.ok == tally(reports@.take(i as int)).ok,
            s.skipped == tally(reports@.take(i as int)).skipped,
            s.failed == tally(reports@.take(i as int)).failed,
            s.planned == tally(reports@.take(i as int)).planned,
            s.total_in == tally(reports@.take(i as int)).total_in,
            s.total_out == tally(reports@.take(i as int)).total_out,
        decreases reports.len() - i,
    {
        let r = &reports[i];
        proof {
            assert(reports@.take(i + 1).drop_last() =~= reports@.take(i as int));
            lemma_tally_bounds(reports@.take(i as int));
        }
        match &r.status {
            Status::Success { .. } => {
                s.ok = s.ok + 1;
                s.total_in = s.total_in + r.in_bytes;
                s.total_out = s.total_out + r.out_bytes;
            },
            Status::Skipped(_) => {
                s.skipped = s.skipped + 1;
            },
            Status::AlreadyOptimal => {
                s.skipped = s.skipped + 1;
            },
            Status::DryRun => {
                s.planned = s.planned + 1;
            },
            Status::Failed(_) => {
                s.failed = s.failed + 1;
            },
        }
        i = i + 1;
    }
    assert(reports@.take(reports@.len() as int) =~= reports@);
    s
}

proof fn lemma_tally_monotone(rs: Seq<FileReport>)
    ensures
        forall|k: int| 0 <= k <= rs.len() ==> tally(#[trigger] rs.take(k)).total_in <= tally(rs).total_in
            && tally(rs.take(k)).total_out <= tally(rs).total_out,
    decreases rs.len(),
{
    if rs.len() > 0 {
        let p = rs.drop_last();
        lemma_tally_monotone(p);
        assert forall|k: int| 0 <= k <= rs.len() implies tally(#[trigger] rs.take(k)).total_in <= tally(rs).total_in
            && tally(rs.take(k)).total_out <= tally(rs).total_out by {
            if k < rs.len() {
                assert(rs.take(k) =~= p.take(k));
            } else {
                assert(rs.take(k) =~= rs);
            }
        }
    } else {
        assert forall|k: int| 0 <= k <= rs.len() implies tally(#[trigger] rs.take(k)).total_in <= tally(rs).total_in
            && tally(rs.take(k)).total_out <= tally(rs).total_out by {
            assert(rs.take(k) =~= rs);
        }
    }
}

/// A batch counts a failure exactly when one of its files failed; with
/// [`exit_code`], it exits with 1 exactly then (skips are no failure).
pub proof fn lemma_failed_count(rs: Seq<FileReport>)
    ensures
        tally(rs).failed > 0 <==> exists|i: int| 0 <= i < rs.len() && (#[trigger] rs[i]).status is Failed,
    decreases rs.len(),
{
    if rs.len() > 0 {
        let p = rs.drop_last();
        lemma_failed_count(p);
        if exists|i: int| 0 <= i < p.len() && (#[trigger] p[i]).status is Failed {
            let i = choose|i: int| 0 <= i < p.len() && (#[trigger] p[i]).status is Failed;
            assert(rs[i] == p[i]);
        }
        if exists|i: int| 0 <= i < rs.len() && (#[trigger] rs[i]).status is Failed {
            let i = choose|i: int| 0 <= i < rs.len() && (#[trigger] rs[i]).status is Failed;
            if i < p.len() {
                assert(p[i] == rs[i]);
            }
        }
    }
}

/// One report alone: a written file counts once, with its own input and
/// output sizes (the output may be the larger one); a skipped file (either
/// skip rule), a planned one and a failed one count once in their column and
/// add no bytes.
pub proof fn lemma_tally_one(r: FileReport)
    ensures
        tally(seq![r]) == match r.status {
            Status::Success { .. } => Tally {
                ok: 1,
                skipped: 0,
                failed: 0,
                planned: 0,
                total_in: r.in_bytes as nat,
                total_out: r.out_bytes as nat,
            },
            Status::Skipped(_) | Status::AlreadyOptimal => Tally {
                ok: 0,
                skipped: 1,
                failed: 0,
                planned: 0,
                total_in: 0,
                total_out: 0,
            },
            Status::DryRun => Tally { ok: 0, skipped: 0, failed: 0, planned: 1, total_in: 0, total_out: 0 },
            Status::Failed(_) => Tally { ok: 0, skipped: 0, failed: 1, planned: 0, total_in: 0, total_out: 0 },
        },
{
    let rs = seq![r];
    assert(rs.drop_last() =~= Seq::<FileReport>::empty());
    assert(rs.last() == r);
    assert(tally(rs.drop_last()) == Tally { ok: 0, skipped: 0, failed: 0, planned: 0, total_in: 0, total_out: 0 });
}

/// The summary adds up batch by batch: that of two runs of reports put
/// together is, column by column and total by total, the sum of theirs. With
/// [`lemma_tally_one`], the output total is the sum of the output sizes of
/// the files written, and the input total that of their input sizes.
pub proof fn lemma_tally_concat(a: Seq<FileReport>, b: Seq<FileReport>)
    ensures
        tally(a + b) == (Tally {
            ok: tally(a).ok + tally(b).ok,
            skipped: tally(a).skipped + tally(b).skipped,
            failed: tally(a).failed + tally(b).failed,
            planned: tally(a).planned + tally(b).planned,
            total_in: tally(a).total_in + tally(b).total_in,
            total_out: tally(a).total_out + tally(b).total_out,
        }),
    decreases b.len(),
{
    if b.len() == 0 {
        assert(a + b =~= a);
    } else {
        lemma_tally_concat(a, b.drop_last());
        assert((a + b).drop_last() =~= a + b.drop_last());
        assert((a + b).last() == b.last());
    }
}

/// The exit code of a batch: 1 if any file failed, else 0 (skips are fine).
pub fn exit_code(s: &Summary) -> (code: i32)
    ensures
        code == (if s.failed > 0 { 1i32 } else { 0i32 }),
{
    if s.failed > 0 {
        1
    } else {
        0
    }
}


/// Whether the reports are in batch order (by index).
pub open spec fn by_index(rs: Seq<FileReport>) -> bool {
    forall|i: int, j: int| 0 <= i < j < rs.len() ==> (#[trigger] rs[i]).index <= (#[trigger] rs[j]).index
}

/// The report of an input that discovery could not resolve: failed, after
/// every file of the batch.
pub open spec fn discovery_report(e: (String, String)) -> FileReport {
    FileReport {
        index: usize::MAX,
        input: e.0,
        output: None,
        in_bytes: 0,
        out_bytes: 0,
        status: Status::Failed(e.1),
        note: None,
    }
}

/// Where a report goes among reports already in batch order: after every
/// report whose index is not above its own.
pub open spec fn index_insert_at(s: Seq<FileReport>, k: usize) -> int
    decreases s.len(),
{
    if s.len() == 0 {
        0
    } else if k < s[0].index {
        0
    } else {
        1 + index_insert_at(s.drop_first(), k)
    }
}

/// The reports in batch order (by index); reports with equal indices stay
/// in their order (a stable sort).
pub open spec fn index_order(v: Seq<FileReport>) -> Seq<FileReport>
    decreases v.len(),
{
    if v.len() == 0 {
        Seq::empty()
    } else {
        let s = index_order(v.drop_last());
        s.insert(index_insert_at(s, v.last().index), v.last())
    }
}

/// Puts the reports of the batch in batch order (by index, stable), then
/// adds a failed report for each input that discovery could not resolve,
/// in the order given, after them.
pub fn finish_reports(reports: Vec<FileReport>, errors: Vec<(String, String)>) -> (out: Vec<FileReport>)
    ensures
        out@.len() == reports@.len() + errors@.len(),
        out@.take(reports@.len() as int) == index_order(reports@),
        out@.take(reports@.len() as int).to_multiset() == reports@.to_multiset(),
        out@.skip(reports@.len() as int) == errors@.map_values(|e: (String, String)| discovery_report(e)),
        by_index(out@),
{
    // insertion sort by index
    let ghost src = reports@;
    let mut items = reports;
    let mut sorted: Vec<FileReport> = Vec::new();
    let mut taken: usize = 0;
    let total = items.len();
    proof {
        assert(src.take(0) =~= Seq::<FileReport>::empty());
    }
    while items.len() > 0
        invariant
            total == src.len(),
            taken <= src.len(),
            items@ == src.skip(taken as int),
            sorted@.len() == taken,
            sorted@.to_multiset() == src.take(taken as int).to_multiset(),
            sorted@ == index_order(src.take(taken as int)),
            by_index(sorted@),
        decreases items.len(),
    {
        let r = items.remove(0);
        proof {
            assert(src.skip(taken as int)[0] == src[taken as int]);
            assert(items@ =~= src.skip(taken + 1));
        }
        let ghost sv = sorted@;
        let mut p: usize = 0;
        proof {
            assert(sv.skip(0) =~= sv);
        }
        while p < sorted.len() && sorted[p].index <= r.index
            invariant
                p <= sorted@.len(),
                sv == sorted@,
                forall|i: int| 0 <= i < p ==> (#[trigger] sorted@[i]).index <= r.index,
                index_insert_at(sv, r.index) == p + index_insert_at(sv.skip(p as int), r.index),
            decreases sorted.len() - p,
        {
            proof {
                assert(sv.skip(p as int)[0] == sv[p as int]);
                assert(sv.skip(p as int).drop_first() =~= sv.skip(p + 1));
            }
            p = p + 1;
        }
        proof {
            if p < sv.len() {
                assert(sv.skip(p as int)[0] == sv[p as int]);
                // indices after p are all above r's: the reports are in order
                assert forall|i: int| p <= i < sv.len() implies (#[trigger] sorted@[i]).index > r.index by {
                    if i > p {
                        assert(sv[p as int].index <= sv[i].index);
                    }
                }
            } else {
                assert(sv.skip(p as int) =~= Seq::<FileReport>::empty());
            }
            assert(index_insert_at(sv, r.index) == p);
        }
        let ghost s = sorted@;
        let ghost rv = r;
        sorted.insert(p, r);
        proof {
            assert(sorted@ == s.insert(p as int, rv));
            vstd::seq_lib::to_multiset_insert(s, p as int, rv);
            assert(src.take(taken + 1) =~= src.take(taken as int).push(src[taken as int]));
            vstd::seq_lib::to_multiset_build(src.take(taken as int), src[taken as int]);
            assert(src.take(taken + 1).drop_last() =~= src.take(taken as int));
            assert(src.take(taken + 1).last() == rv);
            assert forall|i: int, j: int| 0 <= i < j < sorted@.len() implies (#[trigger] sorted@[i]).index <= (
            #[trigger] sorted@[j]).index by {
                if j < p {
                    assert(sorted@[i] == s[i] && sorted@[j] == s[j]);
                } else if j == p {
                    assert(sorted@[i] == s[i]);
                } else if i < p {
                    assert(sorted@[i] == s[i] && sorted@[j] == s[j - 1]);
                } else if i == p {
                    assert(sorted@[j] == s[j - 1]);
                } else {
                    assert(sorted@[i] == s[i - 1] && sorted@[j] == s[j - 1]);
                }
            }
        }
        taken = taken + 1;
    }
    assert(src.take(taken as int) =~= src);
    // the discovery failures, in order, after every file of the batch
    let ghost base = sorted@;
    let ghost errs0 = errors@;
    let mut errs = errors;
    let mut k: usize = 0;
    let n_errs = errs.len();
    proof {
        assert(errs0.skip(0) =~= errs0);
        assert(errs0.take(0).map_values(|e: (String, String)| discovery_report(e)) =~= Seq::<FileReport>::empty());
        assert(sorted@ =~= base + errs0.take(0).map_values(|e: (String, String)| discovery_report(e)));
    }
    while errs.len() > 0
        invariant
            n_errs == errs0.len(),
            k <= errs0.len(),
            errs@ == errs0.skip(k as int),
            by_index(base),
            sorted@ == base + errs0.take(k as int).map_values(|e: (String, String)| discovery_report(e)),
        decreases errs.len(),
    {
        let (input, msg) = errs.remove(0);
        sorted.push(FileReport {
            index: usize::MAX,
            input,
            output: None,
            in_bytes: 0,
            out_bytes: 0,
            status: Status::Failed(msg),
            note: None,
        });
        proof {
            assert(errs0.skip(k as int)[0] == errs0[k as int]);
            assert(errs0.take(k + 1).map_values(|e: (String, String)| discovery_report(e)) =~= errs0.take(k as int).map_values(
                |e: (String, String)| discovery_report(e),
            ).push(discovery_report(errs0[k as int])));
            assert(sorted@ =~= base + errs0.take(k + 1).map_values(|e: (String, String)| discovery_report(e)));
            assert(errs@ =~= errs0.skip(k + 1));
        }
        k = k + 1;
    }
    proof {
        assert(errs0.take(k as int) =~= errs0);
        let tail = errs0.map_values(|e: (String, String)| discovery_report(e));
        assert(sorted@ =~= base + tail);
        assert(sorted@.take(base.len() as int) =~= base);
        assert(sorted@.skip(base.len() as int) =~= tail);
        assert forall|i: int, j: int| 0 <= i < j < sorted@.len() implies (#[trigger] sorted@[i]).index <= (
        #[trigger] sorted@[j]).index by {
            if j >= base.len() {
                assert(sorted@[j] == tail[j - base.len()]);
            } else {
                assert(sorted@[i] == base[i] && sorted@[j] == base[j]);
            }
        }
    }
    sorted
}


// ---------------------------------------------------------------- printed lines

/// Where a line of the report goes.
#[derive(Clone, Copy, Debug, PartialEq, Eq, Structural)]
pub enum Stream {
    Stdout,
    Stderr,
}

pub open spec fn or_empty(o: Option<Seq<char>>) -> Seq<char> {
    match o {
        Some(s) => s,
        None => Seq::empty(),
    }
}

/// The line printed for one report, if any: written files and skips only
/// with `--verbose` (and not `--quiet`), planned files unless `--quiet`,
/// failures always (to stderr with `--quiet`). `size` is the output size
/// and `saved` the share saved, as printed.
pub open spec fn report_line_spec(r: FileReport, verbose: bool, quiet: bool, size: Seq<char>, saved: Seq<char>) -> Option<(Stream, Seq<char>)> {
    let input = r.input@;
    let output = or_empty(opt_str(r.output));
    let details = verbose && !quiet;
    match r.status {
        Status::Success { quality } => if details {
            Some((Stream::Stdout, "OK   "@ + input + " -> "@ + output + " ("@ + size + ", saved "@ + saved + "%)"@
                + match quality {
                    Some(q) => " [quality "@ + decimal(q as nat) + "]"@,
                    None => Seq::empty(),
                }))
        } else {
            None
        },
        Status::Skipped(reason) => if details {
            Some((Stream::Stdout, "SKIP "@ + input + " ("@ + reason@ + ")"@))
        } else {
            None
        },
        Status::AlreadyOptimal => if details {
            Some((Stream::Stdout, "SKIP "@ + input + " (already optimal)"@))
        } else {
            None
        },
        Status::DryRun => if !quiet {
            Some((Stream::Stdout, "DRY  "@ + input + " -> "@ + output + " ["@ + or_empty(opt_str(r.note)) + "]"@))
        } else {
            None
        },
        Status::Failed(msg) => if quiet {
            Some((Stream::Stderr, "error: "@ + input + ": "@ + msg@))
        } else {
            Some((Stream::Stdout, "FAIL "@ + input + ": "@ + msg@))
        },
    }
}

fn cat(parts: &Vec<&str>) -> (s: String)
    ensures
        s@ == cat_spec(parts@),
{
    let mut s = String::new();
    let mut i: usize = 0;
    proof {
        reveal_strlit("");
        assert(parts@.take(0) =~= Seq::<&str>::empty());
    }
    while i < parts.len()
        invariant
            i <= parts@.len(),
            s@ == cat_spec(parts@.take(i as int)),
        decreases parts.len() - i,
    {
        s.append(parts[i]);
        proof {
            assert(parts@.take(i + 1).drop_last() =~= parts@.take(i as int));
        }
        i = i + 1;
    }
    assert(parts@.take(parts@.len() as int) =~= parts@);
    s
}

/// The texts joined.
pub open spec fn cat_spec(parts: Seq<&str>) -> Seq<char>
    decreases parts.len(),
{
    if parts.len() == 0 {
        Seq::empty()
    } else {
        cat_spec(parts.drop_last()) + parts.last()@
    }
}

fn opt_text(o: &Option<String>) -> (s: &str)
    ensures
        s@ == or_empty(opt_str(*o)),
{
    match o {
        Some(t) => t.as_str(),
        None => {
            proof {
                reveal_strlit("");
            }
            ""
        },
    }
}

/// Formats the line printed for one report.
pub fn report_line(r: &FileReport, verbose: bool, quiet: bool, size: &str, saved: &str) -> (l: Option<(Stream, String)>)
    ensures
        match l {
            Some((st, text)) => report_line_spec(*r, verbose, quiet, size@, saved@) == Some((st, text@)),
            None => report_line_spec(*r, verbose, quiet, size@, saved@) is None,
        },
{
    let details = verbose && !quiet;
    let input = r.input.as_str();
    let output = opt_text(&r.output);
    match &r.status {
        Status::Success { quality } => {
            if !details {
                return None;
            }
            let mut line = cat(&vec!["OK   ", input, " -> ", output, " (", size, ", saved ", saved, "%)"]);
            proof {
                reveal_with_fuel(cat_spec, 10);
            }
            let ghost head = "OK   "@ + input@ + " -> "@ + output@ + " ("@ + size@ + ", saved "@ + saved@ + "%)"@;
            assert(line@ =~= head);
            if let Some(q) = quality {
                let qs = string_of_chars(&decimal_chars(*q as u64));
                let tail = cat(&vec![" [quality ", qs.as_str(), "]"]);
                assert(tail@ =~= " [quality "@ + decimal(*q as nat) + "]"@);
                line.append(tail.as_str());
                assert(line@ =~= head + (" [quality "@ + decimal(*q as nat) + "]"@));
            } else {
                assert(line@ =~= head + Seq::<char>::empty());
            }
            assert(report_line_spec(*r, verbose, quiet, size@, saved@) == Some((Stream::Stdout, line@)));
            Some((Stream::Stdout, line))
        },
        Status::Skipped(reason) => {
            if !details {
                return None;
            }
            proof {
                reveal_with_fuel(cat_spec, 6);
            }
            let line = cat(&vec!["SKIP ", input, " (", reason.as_str(), ")"]);
            assert(line@ =~= "SKIP "@ + input@ + " ("@ + reason@ + ")"@);
            assert(report_line_spec(*r, verbose, quiet, size@, saved@) == Some((Stream::Stdout, line@)));
            Some((Stream::Stdout, line))
        },
        Status::AlreadyOptimal => {
            if !details {
                return None;
            }
            proof {
                reveal_with_fuel(cat_spec, 4);
            }
            let line = cat(&vec!["SKIP ", input, " (already optimal)"]);
            assert(report_line_spec(*r, verbose, quiet, size@, saved@) == Some((Stream::Stdout, line@)));
            Some((Stream::Stdout, line))
        },
        Status::DryRun => {
            if quiet {
                return None;
            }
            proof {
                reveal_with_fuel(cat_spec, 8);
            }
            let line = cat(&vec!["DRY  ", input, " -> ", output, " [", opt_text(&r.note), "]"]);
            assert(report_line_spec(*r, verbose, quiet, size@, saved@) == Some((Stream::Stdout, line@)));
            Some((Stream::Stdout, line))
        },
        Status::Failed(msg) => {
            proof {
                reveal_with_fuel(cat_spec, 5);
            }
            if quiet {
                Some((Stream::Stderr, cat(&vec!["error: ", input, ": ", msg.as_str()])))
            } else {
                Some((Stream::Stdout, cat(&vec!["FAIL ", input, ": ", msg.as_str()])))
            }
        },
    }
}

/// The summary line, unless `--quiet`: what a dry run planned, or what the
/// batch did with the total sizes (`total_in`, `total_out`) and the share
/// saved, as printed.
pub open spec fn summary_line_spec(s: Summary, dry_run: bool, quiet: bool, total_in: Seq<char>, total_out: Seq<char>, saved: Seq<char>) -> Option<Seq<char>> {
    if quiet {
        None
    } else if dry_run {
        Some("Dry run: "@ + decimal(s.planned as nat) + " file(s) planned, "@ + decimal(s.failed as nat)
            + " failed — nothing written."@)
    } else {
        Some("Done: "@ + decimal(s.ok as nat) + " ok, "@ + decimal(s.skipped as nat) + " skipped, "@
            + decimal(s.failed as nat) + " failed | "@ + total_in + " -> "@ + total_out + " ("@ + saved + "% saved)"@)
    }
}

/// Formats the summary line.
pub fn summary_line(s: &Summary, dry_run: bool, quiet: bool, total_in: &str, total_out: &str, saved: &str) -> (l: Option<String>)
    ensures
        match l {
            Some(text) => summary_line_spec(*s, dry_run, quiet, total_in@, total_out@, saved@) == Some(text@),
            None => summary_line_spec(*s, dry_run, quiet, total_in@, total_out@, saved@) is None,
        },
{
    if quiet {
        return None;
    }
    if dry_run {
        let planned = string_of_chars(&decimal_chars(s.planned as u64));
        let failed = string_of_chars(&decimal_chars(s.failed as u64));
        proof {
            reveal_with_fuel(cat_spec, 6);
        }
        Some(cat(&vec!["Dry run: ", planned.as_str(), " file(s) planned, ", failed.as_str(), " failed — nothing written."]))
    } else {
        let ok = string_of_chars(&decimal_chars(s.ok as u64));
        let skipped = string_of_chars(&decimal_chars(s.skipped as u64));
        let failed = string_of_chars(&decimal_chars(s.failed as u64));
        proof {
            reveal_with_fuel(cat_spec, 14);
        }
        Some(cat(&vec![
            "Done: ", ok.as_str(), " ok, ", skipped.as_str(), " skipped, ", failed.as_str(), " failed | ", total_in, " -> ",
            total_out, " (", saved, "% saved)",
        ]))
    }
}

} // verus!
