//! The mission record: turning one raw log line into a structured record,
//! the security-code grammar, the comment/metadata test, and the
//! completed-target-mission rule.

use vstd::prelude::*;

use crate::text::eq_ignore_case;
use crate::text::spec_eq_ci;
use crate::text::spec_split;
use crate::text::spec_starts_with;
use crate::text::spec_trim;
use crate::text::split_on;
use crate::text::starts_with;
use crate::text::trim_str;
use crate::tokens::is_digit;
use crate::tokens::is_float_token;
use crate::tokens::parse_u32;
use crate::tokens::spec_is_digit;
use crate::tokens::spec_is_float_token;
use crate::tokens::spec_parse_u32;

verus! {

/// One mission entry: the trimmed fields of an eight-field pipe-delimited
/// log line. The success-rate field is kept as the floating-point token
/// written in the log; only its well-formedness matters to the pipeline,
/// and presentation converts it when displaying.
pub struct Mission {
    pub date: String,
    pub mission_id: String,
    pub destination: String,
    pub status: String,
    pub crew_size: u32,
    pub duration: u32,
    pub success_rate: String,
    pub security_code: String,
    pub line_number: usize,
}

/// The mathematical content of a `Mission`.
pub ghost struct MissionView {
    pub date: Seq<char>,
    pub mission_id: Seq<char>,
    pub destination: Seq<char>,
    pub status: Seq<char>,
    pub crew_size: u32,
    pub duration: u32,
    pub success_rate: Seq<char>,
    pub security_code: Seq<char>,
    pub line_number: usize,
}

impl View for Mission {
    type V = MissionView;

    open spec fn view(&self) -> MissionView {
        MissionView {
            date: self.date@,
            mission_id: self.mission_id@,
            destination: self.destination@,
            status: self.status@,
            crew_size: self.crew_size,
            duration: self.duration,
            success_rate: self.success_rate@,
            security_code: self.security_code@,
            line_number: self.line_number,
        }
    }
}

pub open spec fn view_option(m: Option<Mission>) -> Option<MissionView> {
    match m {
        Some(x) => Some(x@),
        None => None,
    }
}

/// The record an eight-field line denotes: segments split on `|`, the first
/// eight trimmed, the crew and duration fields read as non-negative
/// integers, the rate field checked to be a floating-point token. Lines
/// with fewer than eight segments or a failing numeric field denote no
/// record; segments beyond the eighth are ignored.
pub open spec fn spec_parse(line: Seq<char>, line_number: usize) -> Option<MissionView> {
    let parts = spec_split(line, '|');
    if parts.len() < 8 {
        None
    } else {
        let crew = spec_parse_u32(spec_trim(parts[4]));
        let dur = spec_parse_u32(spec_trim(parts[5]));
        if crew is None || dur is None || !spec_is_float_token(spec_trim(parts[6])) {
            None
        } else {
            Some(
                MissionView {
                    date: spec_trim(parts[0]),
                    mission_id: spec_trim(parts[1]),
                    destination: spec_trim(parts[2]),
                    status: spec_trim(parts[3]),
                    crew_size: crew->0,
                    duration: dur->0,
                    success_rate: spec_trim(parts[6]),
                    security_code: spec_trim(parts[7]),
                    line_number: line_number,
                },
            )
        }
    }
}

pub open spec fn spec_is_upper(c: char) -> bool {
    'A' <= c && c <= 'Z'
}

fn is_upper(c: char) -> (b: bool)
    ensures
        b == spec_is_upper(c),
{
    'A' <= c && c <= 'Z'
}

/// The security-code grammar: three uppercase ASCII letters, a hyphen,
/// three ASCII digits, a hyphen, three uppercase ASCII letters — anchored
/// at both ends, nothing more and nothing less.
pub open spec fn spec_is_valid_security_code(s: Seq<char>) -> bool {
    &&& s.len() == 11
    &&& spec_is_upper(s[0])
    &&& spec_is_upper(s[1])
    &&& spec_is_upper(s[2])
    &&& s[3] == '-'
    &&& spec_is_digit(s[4])
    &&& spec_is_digit(s[5])
    &&& spec_is_digit(s[6])
    &&& s[7] == '-'
    &&& spec_is_upper(s[8])
    &&& spec_is_upper(s[9])
    &&& spec_is_upper(s[10])
}

/// The destination that the pipeline selects, compared ignoring ASCII case.
pub open spec fn spec_target_destination() -> Seq<char> {
    seq!['m', 'a', 'r', 's']
}

/// The terminal status that the pipeline selects, compared ignoring ASCII
/// case.
pub open spec fn spec_completed_status() -> Seq<char> {
    seq!['c', 'o', 'm', 'p', 'l', 'e', 't', 'e', 'd']
}

/// A record passes every semantic filter: target destination, completed
/// status, strictly positive duration, well-formed security code.
pub open spec fn spec_is_completed_mars_mission(m: MissionView) -> bool {
    &&& spec_eq_ci(m.destination, spec_target_destination())
    &&& spec_eq_ci(m.status, spec_completed_status())
    &&& m.duration > 0
    &&& spec_is_valid_security_code(m.security_code)
}

impl Mission {
    /// Parse one log line into a record, as `spec_parse` describes.
    pub fn from_line(line: &str, line_number: usize) -> (m: Option<Mission>)
        ensures
            view_option(m) == spec_parse(line@, line_number),
    {
        let parts = split_on(line, '|');
        proof {
            assert(forall|k: int|
                0 <= k < parts@.len() ==> parts@.map_values(|p: String| p@)[k] == parts@[k]@);
        }
        if parts.len() < 8 {
            return None;
        }
        let crew_tok = trim_str(parts[4].as_str());
        let crew_size = match parse_u32(crew_tok.as_str()) {
            Some(v) => v,
            None => {
                return None;
            },
        };
        let dur_tok = trim_str(parts[5].as_str());
        let duration = match parse_u32(dur_tok.as_str()) {
            Some(v) => v,
            None => {
                return None;
            },
        };
        let rate_tok = trim_str(parts[6].as_str());
        if !is_float_token(rate_tok.as_str()) {
            return None;
        }
        Some(
            Mission {
                date: trim_str(parts[0].as_str()),
                mission_id: trim_str(parts[1].as_str()),
                destination: trim_str(parts[2].as_str()),
                status: trim_str(parts[3].as_str()),
                crew_size,
                duration,
                success_rate: rate_tok,
                security_code: trim_str(parts[7].as_str()),
                line_number,
            },
        )
    }

    /// Check the security code against its grammar, as
    /// `spec_is_valid_security_code` describes.
    pub fn is_valid_security_code(&self) -> (b: bool)
        ensures
            b == spec_is_valid_security_code(self.security_code@),
    {
        let s = self.security_code.as_str();
        if s.unicode_len() != 11 {
            return false;
        }
        is_upper(s.get_char(0)) && is_upper(s.get_char(1)) && is_upper(s.get_char(2))
            && s.get_char(3) == '-' && is_digit(s.get_char(4)) && is_digit(s.get_char(5))
            && is_digit(s.get_char(6)) && s.get_char(7) == '-' && is_upper(s.get_char(8))
            && is_upper(s.get_char(9)) && is_upper(s.get_char(10))
    }

    /// Check every semantic filter at once, as
    /// `spec_is_completed_mars_mission` describes.
    pub fn is_completed_mars_mission(&self) -> (b: bool)
        ensures
            b == spec_is_completed_mars_mission(self@),
    {
        let dest_ok = eq_ignore_case(self.destination.as_str(), "mars");
        let status_ok = eq_ignore_case(self.status.as_str(), "completed");
        proof {
            reveal_strlit("mars");
            reveal_strlit("completed");
            assert("mars"@ =~= spec_target_destination());
            assert("completed"@ =~= spec_completed_status());
        }
        dest_ok && status_ok && self.duration > 0 && self.is_valid_security_code()
    }
}

/// A line is skipped before any parsing attempt when, after trimming, it is
/// empty, or starts with `#`, or with one of the metadata prefixes
/// `SYSTEM:`, `CONFIG:`, `CHECKSUM:`.
pub open spec fn spec_is_comment_or_metadata(line: Seq<char>) -> bool {
    let t = spec_trim(line);
    ||| t.len() == 0
    ||| (t.len() > 0 && t[0] == '#')
    ||| spec_starts_with(t, seq!['S', 'Y', 'S', 'T', 'E', 'M', ':'])
    ||| spec_starts_with(t, seq!['C', 'O', 'N', 'F', 'I', 'G', ':'])
    ||| spec_starts_with(t, seq!['C', 'H', 'E', 'C', 'K', 'S', 'U', 'M', ':'])
}

/// Decide whether a line is ignorable, as `spec_is_comment_or_metadata`
/// describes.
pub fn is_comment_or_metadata(line: &str) -> (b: bool)
    ensures
        b == spec_is_comment_or_metadata(line@),
{
    let t = trim_str(line);
    let ts = t.as_str();
    let n = ts.unicode_len();
    if n == 0 {
        return true;
    }
    if ts.get_char(0) == '#' {
        return true;
    }
    let b1 = starts_with(ts, "SYSTEM:");
    let b2 = starts_with(ts, "CONFIG:");
    let b3 = starts_with(ts, "CHECKSUM:");
    proof {
        reveal_strlit("SYSTEM:");
        reveal_strlit("CONFIG:");
        reveal_strlit("CHECKSUM:");
        assert("SYSTEM:"@ =~= seq!['S', 'Y', 'S', 'T', 'E', 'M', ':']);
        assert("CONFIG:"@ =~= seq!['C', 'O', 'N', 'F', 'I', 'G', ':']);
        assert("CHECKSUM:"@ =~= seq!['C', 'H', 'E', 'C', 'K', 'S', 'U', 'M', ':']);
    }
    b1 || b2 || b3
}

/// A record parsed from a well-formed line carries exactly the trimmed
/// segments of that line: re-splitting the line reproduces every field.
pub proof fn lemma_parse_round_trip(line: Seq<char>, line_number: usize)
    requires
        spec_parse(line, line_number) is Some,
    ensures
        ({
            let m = spec_parse(line, line_number)->0;
            let parts = spec_split(line, '|');
            &&& parts.len() >= 8
            &&& m.date == spec_trim(parts[0])
            &&& m.mission_id == spec_trim(parts[1])
            &&& m.destination == spec_trim(parts[2])
            &&& m.status == spec_trim(parts[3])
            &&& Some(m.crew_size) == spec_parse_u32(spec_trim(parts[4]))
            &&& Some(m.duration) == spec_parse_u32(spec_trim(parts[5]))
            &&& spec_is_float_token(spec_trim(parts[6]))
            &&& m.success_rate == spec_trim(parts[6])
            &&& m.security_code == spec_trim(parts[7])
            &&& m.line_number == line_number
        }),
{
}

/// A line with fewer than eight segments yields no record.
pub proof fn lemma_parse_needs_eight_fields(line: Seq<char>, line_number: usize)
    requires
        spec_split(line, '|').len() < 8,
    ensures
        spec_parse(line, line_number) is None,
{
}

/// A line whose crew, duration or rate field is not numeric yields no
/// record, however well-formed the rest of the line is.
pub proof fn lemma_parse_rejects_bad_numbers(line: Seq<char>, line_number: usize)
    requires
        ({
            let parts = spec_split(line, '|');
            parts.len() >= 8 ==> {
                ||| spec_parse_u32(spec_trim(parts[4])) is None
                ||| spec_parse_u32(spec_trim(parts[5])) is None
                ||| !spec_is_float_token(spec_trim(parts[6]))
            }
        }),
    ensures
        spec_parse(line, line_number) is None,
{
}

} // verus!
