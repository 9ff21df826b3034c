//! The pipeline aggregator: line-by-line consumption of the log, the
//! classification pipeline (comment/metadata skip, parse, destination
//! filter, status filter, duration filter, security-code filter), the
//! counters it accumulates, and the duration ranking of the accepted
//! records.

use vstd::prelude::*;

use crate::mission::is_comment_or_metadata;
use crate::mission::spec_completed_status;
use crate::mission::spec_is_comment_or_metadata;
use crate::mission::spec_is_valid_security_code;
use crate::mission::spec_parse;
use crate::mission::spec_target_destination;
use crate::mission::Mission;
use crate::mission::MissionView;
use crate::text::eq_ignore_case;
use crate::text::spec_eq_ci;

verus! {

/// The counters the pipeline accumulates over one run. Every counter only
/// grows, once per line at most.
#[derive(Clone, Copy, PartialEq, Eq, Structural, Debug)]
pub struct Statistics {
    pub total_lines: usize,
    pub data_lines: usize,
    pub mars_missions: usize,
    pub completed_mars_missions: usize,
    pub valid_missions: usize,
    pub errors: usize,
}

/// The mathematical content of a `Statistics`.
pub ghost struct StatsView {
    pub total_lines: int,
    pub data_lines: int,
    pub mars_missions: int,
    pub completed_mars_missions: int,
    pub valid_missions: int,
    pub errors: int,
}

impl View for Statistics {
    type V = StatsView;

    open spec fn view(&self) -> StatsView {
        StatsView {
            total_lines: self.total_lines as int,
            data_lines: self.data_lines as int,
            mars_missions: self.mars_missions as int,
            completed_mars_missions: self.completed_mars_missions as int,
            valid_missions: self.valid_missions as int,
            errors: self.errors as int,
        }
    }
}

pub open spec fn spec_zero_stats() -> StatsView {
    StatsView {
        total_lines: 0,
        data_lines: 0,
        mars_missions: 0,
        completed_mars_missions: 0,
        valid_missions: 0,
        errors: 0,
    }
}

impl Statistics {
    /// A fresh counter set, all zero.
    pub fn new() -> (s: Statistics)
        ensures
            s@ == spec_zero_stats(),
    {
        Statistics {
            total_lines: 0,
            data_lines: 0,
            mars_missions: 0,
            completed_mars_missions: 0,
            valid_missions: 0,
            errors: 0,
        }
    }
}

/// The stage of the pipeline at which one line leaves, or the record it
/// contributes. A line is either unreadable, ignorable, malformed, filtered
/// out at one of the semantic stages, or accepted.
pub ghost enum LineClass {
    Unreadable,
    Skipped,
    Malformed,
    OffTarget,
    NotCompleted,
    ZeroDuration,
    BadCode,
    Accepted(MissionView),
}

/// Classify one line of the source: `None` stands for a line that could not
/// be read, `Some` carries the text.
pub open spec fn spec_classify(line: Option<Seq<char>>, line_number: usize) -> LineClass {
    match line {
        None => LineClass::Unreadable,
        Some(l) => {
            if spec_is_comment_or_metadata(l) {
                LineClass::Skipped
            } else {
                match spec_parse(l, line_number) {
                    None => LineClass::Malformed,
                    Some(m) => {
                        if !spec_eq_ci(m.destination, spec_target_destination()) {
                            LineClass::OffTarget
                        } else if !spec_eq_ci(m.status, spec_completed_status()) {
                            LineClass::NotCompleted
                        } else if m.duration == 0 {
                            LineClass::ZeroDuration
                        } else if !spec_is_valid_security_code(m.security_code) {
                            LineClass::BadCode
                        } else {
                            LineClass::Accepted(m)
                        }
                    },
                }
            }
        },
    }
}

/// How one more line moves the counters.
pub open spec fn spec_step_stats(st: StatsView, c: LineClass) -> StatsView {
    StatsView {
        total_lines: st.total_lines + 1,
        data_lines: st.data_lines + match c {
            LineClass::Unreadable => 0int,
            LineClass::Skipped => 0,
            _ => 1,
        },
        mars_missions: st.mars_missions + match c {
            LineClass::NotCompleted => 1int,
            LineClass::ZeroDuration => 1,
            LineClass::BadCode => 1,
            LineClass::Accepted(_) => 1,
            _ => 0,
        },
        completed_mars_missions: st.completed_mars_missions + match c {
            LineClass::ZeroDuration => 1int,
            LineClass::BadCode => 1,
            LineClass::Accepted(_) => 1,
            _ => 0,
        },
        valid_missions: st.valid_missions + match c {
            LineClass::Accepted(_) => 1int,
            _ => 0,
        },
        errors: st.errors + match c {
            LineClass::Unreadable => 1int,
            LineClass::Malformed => 1,
            LineClass::ZeroDuration => 1,
            LineClass::BadCode => 1,
            _ => 0,
        },
    }
}

/// How one more line extends the accepted records.
pub open spec fn spec_step_missions(ms: Seq<MissionView>, c: LineClass) -> Seq<MissionView> {
    match c {
        LineClass::Accepted(m) => ms.push(m),
        _ => ms,
    }
}

/// The outcome of the whole run over `lines`, in order, where the line at
/// position `i` carries line number `i + 1`.
pub open spec fn spec_run(lines: Seq<Option<Seq<char>>>) -> (Seq<MissionView>, StatsView)
    decreases lines.len(),
{
    if lines.len() == 0 {
        (Seq::<MissionView>::empty(), spec_zero_stats())
    } else {
        let prev = spec_run(lines.drop_last());
        let c = spec_classify(lines.last(), lines.len() as usize);
        (spec_step_missions(prev.0, c), spec_step_stats(prev.1, c))
    }
}

/// The texts the lines carry, read failures kept as `None`.
pub open spec fn spec_line_views(lines: Seq<Option<String>>) -> Seq<Option<Seq<char>>> {
    lines.map_values(
        |l: Option<String>|
            match l {
                Some(s) => Some(s@),
                None => None,
            },
    )
}

/// Run the pipeline over every line of the source, in order: count the
/// line, skip comments and metadata, parse, filter by destination, status,
/// duration and security code, and collect the accepted records in
/// encounter order, as `spec_run` describes. A `None` entry stands for a
/// line the source could not read; it only raises the error counter.
pub fn process_lines(lines: &Vec<Option<String>>) -> (r: (Vec<Mission>, Statistics))
    ensures
        r.0@.map_values(|m: Mission| m@) == spec_run(spec_line_views(lines@)).0,
        r.1@ == spec_run(spec_line_views(lines@)).1,
{
    let mut missions: Vec<Mission> = Vec::new();
    let mut stats = Statistics::new();
    let ghost views = spec_line_views(lines@);
    proof {
        assert(views.take(0) =~= Seq::<Option<Seq<char>>>::empty());
        assert(missions@.map_values(|m: Mission| m@) =~= Seq::<MissionView>::empty());
    }
    let n = lines.len();
    let mut i: usize = 0;
    while i < n
        invariant
            0 <= i <= n,
            n == lines@.len(),
            views == spec_line_views(lines@),
            views.len() == n,
            missions@.map_values(|m: Mission| m@) == spec_run(views.take(i as int)).0,
            stats@ == spec_run(views.take(i as int)).1,
            stats.total_lines == i,
            stats.data_lines <= i,
            stats.mars_missions <= i,
            stats.completed_mars_missions <= i,
            stats.valid_missions <= i,
            stats.errors <= i,
        decreases n - i,
    {
        proof {
            assert(views.take(i + 1).drop_last() =~= views.take(i as int));
            assert(views.take(i + 1).last() == views[i as int]);
        }
        let ghost c = spec_classify(views[i as int], (i + 1) as usize);
        stats.total_lines = stats.total_lines + 1;
        let cur = &lines[i];
        if cur.is_none() {
            stats.errors = stats.errors + 1;
        } else {
            let line = cur.as_ref().unwrap();
            if is_comment_or_metadata(line.as_str()) {
                // ignorable: not a data line, not an error
            } else {
                stats.data_lines = stats.data_lines + 1;
                match Mission::from_line(line.as_str(), i + 1) {
                    None => {
                        stats.errors = stats.errors + 1;
                    },
                    Some(m) => {
                        let dest_ok = eq_ignore_case(m.destination.as_str(), "mars");
                        proof {
                            reveal_strlit("mars");
                            assert("mars"@ =~= spec_target_destination());
                        }
                        if !dest_ok {
                            // not a target-destination record: irrelevant, not an error
                        } else {
                            stats.mars_missions = stats.mars_missions + 1;
                            let status_ok = eq_ignore_case(m.status.as_str(), "completed");
                            proof {
                                reveal_strlit("completed");
                                assert("completed"@ =~= spec_completed_status());
                            }
                            if !status_ok {
                                // not completed: filtered out silently
                            } else {
                                stats.completed_mars_missions = stats.completed_mars_missions + 1;
                                if m.duration == 0 {
                                    stats.errors = stats.errors + 1;
                                } else if !m.is_valid_security_code() {
                                    stats.errors = stats.errors + 1;
                                } else {
                                    stats.valid_missions = stats.valid_missions + 1;
                                    proof {
                                        assert(missions@.push(m).map_values(|mm: Mission| mm@)
                                            =~= missions@.map_values(|mm: Mission| mm@).push(m@));
                                    }
                                    missions.push(m);
                                }
                            }
                        }
                    },
                }
            }
        }
        i += 1;
    }
    proof {
        assert(views.take(n as int) =~= views);
    }
    (missions, stats)
}

/// Why a run produced no accepted records, judged from the counters in
/// priority order: no data lines at all, then no target-destination record,
/// then none of them completed, otherwise every candidate was invalid.
#[derive(Clone, Copy, PartialEq, Eq, Structural, Debug)]
pub enum NoMatchReason {
    NoDataLines,
    NoMarsMissions,
    NoneCompleted,
    AllInvalid,
}

pub open spec fn spec_no_match_reason(st: StatsView) -> NoMatchReason {
    if st.data_lines == 0 {
        NoMatchReason::NoDataLines
    } else if st.mars_missions == 0 {
        NoMatchReason::NoMarsMissions
    } else if st.completed_mars_missions == 0 {
        NoMatchReason::NoneCompleted
    } else {
        NoMatchReason::AllInvalid
    }
}

/// Judge an empty outcome, as `spec_no_match_reason` describes.
pub fn no_match_reason(stats: &Statistics) -> (r: NoMatchReason)
    ensures
        r == spec_no_match_reason(stats@),
{
    if stats.data_lines == 0 {
        NoMatchReason::NoDataLines
    } else if stats.mars_missions == 0 {
        NoMatchReason::NoMarsMissions
    } else if stats.completed_mars_missions == 0 {
        NoMatchReason::NoneCompleted
    } else {
        NoMatchReason::AllInvalid
    }
}

/// A parsed record whose destination is not the target never raises the
/// target-destination counter (nor any counter past it) and is never
/// accepted, whatever its other fields hold: such a line is irrelevant, not
/// an error.
pub proof fn lemma_off_target_excluded(lines: Seq<Option<Seq<char>>>, l: Seq<char>)
    requires
        !spec_is_comment_or_metadata(l),
        spec_parse(l, (lines.len() + 1) as usize) is Some,
        !spec_eq_ci(
            spec_parse(l, (lines.len() + 1) as usize)->0.destination,
            spec_target_destination(),
        ),
    ensures
        spec_run(lines.push(Some(l))).0 == spec_run(lines).0,
        spec_run(lines.push(Some(l))).1.mars_missions == spec_run(lines).1.mars_missions,
        spec_run(lines.push(Some(l))).1.completed_mars_missions == spec_run(
            lines,
        ).1.completed_mars_missions,
        spec_run(lines.push(Some(l))).1.valid_missions == spec_run(lines).1.valid_missions,
        spec_run(lines.push(Some(l))).1.errors == spec_run(lines).1.errors,
{
    assert(lines.push(Some(l)).drop_last() =~= lines);
    assert(lines.push(Some(l)).last() == Some(l));
}

/// A target-destination, completed record with duration zero is rejected:
/// it is never accepted and it raises the error counter by one.
pub proof fn lemma_zero_duration_rejected(lines: Seq<Option<Seq<char>>>, l: Seq<char>)
    requires
        !spec_is_comment_or_metadata(l),
        spec_parse(l, (lines.len() + 1) as usize) is Some,
        spec_eq_ci(
            spec_parse(l, (lines.len() + 1) as usize)->0.destination,
            spec_target_destination(),
        ),
        spec_eq_ci(spec_parse(l, (lines.len() + 1) as usize)->0.status, spec_completed_status()),
        spec_parse(l, (lines.len() + 1) as usize)->0.duration == 0,
    ensures
        spec_run(lines.push(Some(l))).0 == spec_run(lines).0,
        spec_run(lines.push(Some(l))).1.valid_missions == spec_run(lines).1.valid_missions,
        spec_run(lines.push(Some(l))).1.errors == spec_run(lines).1.errors + 1,
{
    assert(lines.push(Some(l)).drop_last() =~= lines);
    assert(lines.push(Some(l)).last() == Some(l));
}

/// Running the pipeline twice over the same immutable input yields
/// identical statistics and identical accepted records, order included: the
/// run is a function of the line sequence alone.
pub proof fn lemma_run_deterministic(
    lines: Seq<Option<Seq<char>>>,
    missions1: Seq<MissionView>,
    stats1: StatsView,
    missions2: Seq<MissionView>,
    stats2: StatsView,
)
    requires
        (missions1, stats1) == spec_run(lines),
        (missions2, stats2) == spec_run(lines),
    ensures
        missions1 == missions2,
        stats1 == stats2,
{
}

} // verus!
