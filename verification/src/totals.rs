//! Grouping a whole batch of raw lines: each line is parsed and folded into
//! the accumulator in order, and the first faulty line aborts the run.  The
//! algebra of the fold — additivity, isolation, order independence — is
//! stated and proved here as well.

use vstd::prelude::*;
use crate::log_parser::{Statistics, prev_totals, spec_add};
use crate::record::{FieldName, ParseError, line_record, parse_record};

verus! {

/// Why grouping a batch of lines failed.  Measurements must be non-negative
/// and the running totals must stay representable as `i64`; a line breaking
/// either rule is rejected rather than folded in.
#[derive(Clone, Copy, PartialEq, Eq, Structural, Debug)]
pub enum GroupError {
    /// A line failed to parse.
    Parse(ParseError),
    /// The named measurement is negative.
    NegativeValue(FieldName),
    /// Folding the line in would push a total past `i64::MAX`.
    TotalOverflow,
}

/// An absent measurement contributes zero.
pub open spec fn opt_or_zero(x: Option<i64>) -> int {
    match x {
        Option::Some(n) => n as int,
        Option::None => 0,
    }
}

/// Folding one raw line into the totals map: parse it, reject a negative
/// measurement or a total that would overflow, else add the contributions
/// to the entry named by the record.
pub open spec fn line_step(m: Map<Seq<char>, (int, int)>, s: Seq<char>) -> Result<
    Map<Seq<char>, (int, int)>,
    GroupError,
> {
    match line_record(s) {
        Result::Err(e) => Err(GroupError::Parse(e)),
        Result::Ok(rec) => if rec.1 matches Some(n) && n < 0 {
            Err(GroupError::NegativeValue(FieldName::CpuTime))
        } else if rec.2 matches Some(n) && n < 0 {
            Err(GroupError::NegativeValue(FieldName::IoWait))
        } else if prev_totals(m, rec.0).0 + prev_totals(m, rec.0).1 + opt_or_zero(rec.1)
            + opt_or_zero(rec.2) > i64::MAX {
            Err(GroupError::TotalOverflow)
        } else {
            Ok(spec_add(m, rec.0, opt_or_zero(rec.1), opt_or_zero(rec.2)))
        },
    }
}

/// The totals map that a batch of raw lines folds to, starting from the
/// empty map, or the error of the first line that fails.
pub open spec fn fold_lines(lines: Seq<Seq<char>>) -> Result<
    Map<Seq<char>, (int, int)>,
    GroupError,
>
    decreases lines.len(),
{
    if lines.len() == 0 {
        Ok(Map::empty())
    } else {
        match fold_lines(lines.drop_last()) {
            Result::Err(e) => Err(e),
            Result::Ok(m) => line_step(m, lines.last()),
        }
    }
}

/// Once a prefix of the batch has failed, the whole batch fails the same way.
proof fn lemma_fold_keeps_error(lines: Seq<Seq<char>>, i: int)
    requires
        0 <= i <= lines.len(),
        fold_lines(lines.subrange(0, i)) is Err,
    ensures
        fold_lines(lines) == fold_lines(lines.subrange(0, i)),
    decreases lines.len() - i,
{
    if i == lines.len() {
        assert(lines.subrange(0, i) =~= lines);
    } else {
        assert(lines.subrange(0, i + 1).drop_last() =~= lines.subrange(0, i));
        assert(fold_lines(lines.subrange(0, i + 1)) == fold_lines(lines.subrange(0, i)));
        lemma_fold_keeps_error(lines, i + 1);
    }
}

/// Read a batch of raw lines in order into a fresh accumulator: every line
/// is parsed and folded in, and the first faulty line aborts the whole run
/// with its error.  An empty line is not valid JSON and aborts like any
/// other malformed line; callers that split on newlines should not hand in
/// the empty tail that a trailing newline leaves.
#[verifier::loop_isolation(false)]
pub fn group_totals_lines(lines: &Vec<String>) -> (r: Result<Statistics, GroupError>)
    ensures
        match r {
            Ok(stats) => stats.wf() && (fold_lines(lines@.map_values(|l: String| l@)) matches Ok(m)
                && m == stats@),
            Err(e) => fold_lines(lines@.map_values(|l: String| l@)) == Err::<
                Map<Seq<char>, (int, int)>,
                GroupError,
            >(e),
        },
{
    let ghost lseq = lines@.map_values(|l: String| l@);
    let mut stats = Statistics::new();
    let n = lines.len();
    let mut i: usize = 0;
    while i < n
        invariant
            i <= n,
            stats.wf(),
            fold_lines(lseq.subrange(0, i as int)) matches Ok(m) && m == stats@,
        decreases n - i,
    {
        proof {
            assert(lseq.subrange(0, i + 1).drop_last() =~= lseq.subrange(0, i as int));
            assert(lseq.subrange(0, i + 1).last() == lines@[i as int]@);
        }
        let line: &String = &lines[i];
        let rec = match parse_record(line.as_str()) {
            Ok(rec) => rec,
            Err(e) => {
                proof {
                    lemma_fold_keeps_error(lseq, i + 1);
                }
                return Err(GroupError::Parse(e));
            },
        };
        let cpu: i64 = match rec.cpu_time {
            Some(v) => {
                if v < 0 {
                    proof {
                        lemma_fold_keeps_error(lseq, i + 1);
                    }
                    return Err(GroupError::NegativeValue(FieldName::CpuTime));
                }
                v
            },
            None => 0,
        };
        let io: i64 = match rec.io_wait {
            Some(v) => {
                if v < 0 {
                    proof {
                        lemma_fold_keeps_error(lseq, i + 1);
                    }
                    return Err(GroupError::NegativeValue(FieldName::IoWait));
                }
                v
            },
            None => 0,
        };
        let (prev_cpu, prev_io) = match stats.totals_for(&rec.app) {
            Some(t) => t,
            None => (0, 0),
        };
        let room = i64::MAX - prev_cpu - prev_io;
        if cpu > room || io > room - cpu {
            proof {
                lemma_fold_keeps_error(lseq, i + 1);
            }
            return Err(GroupError::TotalOverflow);
        }
        stats.add(&rec.app, cpu, io);
        i = i + 1;
    }
    proof {
        assert(lseq.subrange(0, n as int) =~= lseq);
    }
    Ok(stats)
}

} // verus!
