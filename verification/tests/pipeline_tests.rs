use mars_mission_analyzer::mission::Mission;
use mars_mission_analyzer::pipeline::no_match_reason;
use mars_mission_analyzer::pipeline::process_lines;
use mars_mission_analyzer::pipeline::NoMatchReason;
use mars_mission_analyzer::rank::rank_missions;

fn lines_of(texts: &[&str]) -> Vec<Option<String>> {
    texts.iter().map(|t| Some(t.to_string())).collect()
}

fn mission_with(id: &str, date: &str, duration: u32, code: &str, line_number: usize) -> Mission {
    Mission {
        date: date.to_string(),
        mission_id: id.to_string(),
        destination: "Mars".to_string(),
        status: "Completed".to_string(),
        crew_size: 5,
        duration,
        success_rate: "98.7".to_string(),
        security_code: code.to_string(),
        line_number,
    }
}

#[test]
fn test_mission_sorting() {
    let missions = vec![
        mission_with("M1", "2045-07-12", 100, "TRX-842-YHG", 1),
        mission_with("M2", "2046-07-12", 500, "ABC-123-XYZ", 2),
        mission_with("M3", "2047-07-12", 300, "DEF-456-GHI", 3),
    ];

    let missions = rank_missions(missions, 3);

    assert_eq!(missions[0].duration, 500);
    assert_eq!(missions[1].duration, 300);
    assert_eq!(missions[2].duration, 100);
}

#[test]
fn test_mission_sorting_stable_and_truncated() {
    let missions = vec![
        mission_with("M1", "2045-07-12", 300, "TRX-842-YHG", 1),
        mission_with("M2", "2046-07-12", 300, "ABC-123-XYZ", 2),
        mission_with("M3", "2047-07-12", 500, "DEF-456-GHI", 3),
        mission_with("M4", "2048-07-12", 100, "GHI-789-JKL", 4),
    ];

    let ranked = rank_missions(missions, 3);

    assert_eq!(ranked.len(), 3);
    assert_eq!(ranked[0].mission_id, "M3");
    // records of equal duration keep their encounter order
    assert_eq!(ranked[1].mission_id, "M1");
    assert_eq!(ranked[2].mission_id, "M2");
}

#[test]
fn test_end_to_end_two_records() {
    let lines = lines_of(&[
        "2045-07-12 | KLM-1234 | Mars | Completed | 5 | 387 | 98.7 | TRX-842-YHG",
        "2046-01-01 | ABC-0001 | Mars | Completed | 3 | 900 | 99.0 | STU-901-FGH",
    ]);

    let (missions, stats) = process_lines(&lines);

    assert_eq!(missions.len(), 2);
    assert_eq!(stats.total_lines, 2);
    assert_eq!(stats.data_lines, 2);
    assert_eq!(stats.mars_missions, 2);
    assert_eq!(stats.completed_mars_missions, 2);
    assert_eq!(stats.valid_missions, 2);
    assert_eq!(stats.errors, 0);
    // accepted records keep encounter order and carry their line numbers
    assert_eq!(missions[0].security_code, "TRX-842-YHG");
    assert_eq!(missions[0].line_number, 1);
    assert_eq!(missions[1].line_number, 2);

    let ranked = rank_missions(missions, 2);
    assert_eq!(ranked[0].security_code, "STU-901-FGH");
    assert_eq!(ranked[0].duration, 900);
    assert_eq!(ranked[1].security_code, "TRX-842-YHG");
}

#[test]
fn test_end_to_end_only_comments() {
    let lines = lines_of(&[
        "# a comment",
        "   ",
        "SYSTEM: boot",
        "CONFIG: depth=3",
        "CHECKSUM: 90ab",
        "",
    ]);

    let (missions, stats) = process_lines(&lines);

    assert_eq!(stats.total_lines, 6);
    assert_eq!(stats.data_lines, 0);
    assert_eq!(stats.errors, 0);
    assert!(missions.is_empty());
    assert_eq!(no_match_reason(&stats), NoMatchReason::NoDataLines);
}

#[test]
fn test_end_to_end_jupiter_never_counted() {
    let lines = lines_of(&[
        "2045-07-12 | KLM-1234 | Jupiter | Completed | 5 | 387 | 98.7 | TRX-842-YHG",
        "2045-08-15 | ABC-5678 | Jupiter | Completed | 3 | 200 | 95.0 | ABC-123-XYZ",
    ]);

    let (missions, stats) = process_lines(&lines);

    assert_eq!(stats.data_lines, 2);
    assert_eq!(stats.mars_missions, 0);
    assert_eq!(stats.errors, 0);
    assert!(missions.is_empty());
    assert_eq!(no_match_reason(&stats), NoMatchReason::NoMarsMissions);
}

#[test]
fn test_end_to_end_none_completed() {
    let lines = lines_of(&[
        "2045-07-12 | KLM-1234 | Mars | Failed | 5 | 387 | 98.7 | TRX-842-YHG",
        "2045-08-15 | ABC-5678 | Mars | InProgress | 3 | 200 | 95.0 | ABC-123-XYZ",
    ]);

    let (missions, stats) = process_lines(&lines);

    assert_eq!(stats.mars_missions, 2);
    assert_eq!(stats.completed_mars_missions, 0);
    assert!(missions.is_empty());
    assert_eq!(no_match_reason(&stats), NoMatchReason::NoneCompleted);
}

#[test]
fn test_end_to_end_zero_duration_is_an_error() {
    let lines = lines_of(&[
        "2045-07-12 | KLM-1234 | Mars | Completed | 5 | 0 | 98.7 | TRX-842-YHG",
    ]);

    let (missions, stats) = process_lines(&lines);

    assert_eq!(stats.mars_missions, 1);
    assert_eq!(stats.completed_mars_missions, 1);
    assert_eq!(stats.valid_missions, 0);
    assert_eq!(stats.errors, 1);
    assert!(missions.is_empty());
    assert_eq!(no_match_reason(&stats), NoMatchReason::AllInvalid);
}

#[test]
fn test_end_to_end_invalid_code_is_an_error() {
    let lines = lines_of(&[
        "2045-07-12 | KLM-1234 | Mars | Completed | 5 | 387 | 98.7 | INVALID",
    ]);

    let (missions, stats) = process_lines(&lines);

    assert_eq!(stats.completed_mars_missions, 1);
    assert_eq!(stats.valid_missions, 0);
    assert_eq!(stats.errors, 1);
    assert!(missions.is_empty());
    assert_eq!(no_match_reason(&stats), NoMatchReason::AllInvalid);
}

#[test]
fn test_end_to_end_malformed_lines_are_errors() {
    let lines = lines_of(&[
        "too | few | fields",
        "2045-07-12 | KLM-1234 | Mars | Completed | crew | 387 | 98.7 | TRX-842-YHG",
        "2045-07-12 | KLM-1234 | Mars | Completed | 5 | 387 | rate | TRX-842-YHG",
    ]);

    let (missions, stats) = process_lines(&lines);

    assert_eq!(stats.data_lines, 3);
    assert_eq!(stats.errors, 3);
    assert!(missions.is_empty());
}

#[test]
fn test_end_to_end_unreadable_line() {
    let lines = vec![
        Some("2045-07-12 | KLM-1234 | Mars | Completed | 5 | 387 | 98.7 | TRX-842-YHG".to_string()),
        None,
    ];

    let (missions, stats) = process_lines(&lines);

    assert_eq!(stats.total_lines, 2);
    // an unreadable line is an error but not a data line
    assert_eq!(stats.data_lines, 1);
    assert_eq!(stats.errors, 1);
    assert_eq!(missions.len(), 1);
}

#[test]
fn test_pipeline_idempotent_over_same_input() {
    let lines = lines_of(&[
        "# log",
        "2045-07-12 | KLM-1234 | Mars | Completed | 5 | 387 | 98.7 | TRX-842-YHG",
        "2046-01-01 | ABC-0001 | Mars | Completed | 3 | 900 | 99.0 | STU-901-FGH",
        "bad line",
        "2047-02-02 | XYZ-0002 | Venus | Completed | 3 | 10 | 90.0 | AAA-111-BBB",
    ]);

    let (missions1, stats1) = process_lines(&lines);
    let (missions2, stats2) = process_lines(&lines);

    assert_eq!(stats1, stats2);
    assert_eq!(missions1.len(), missions2.len());
    for (a, b) in missions1.iter().zip(missions2.iter()) {
        assert_eq!(a.date, b.date);
        assert_eq!(a.mission_id, b.mission_id);
        assert_eq!(a.destination, b.destination);
        assert_eq!(a.status, b.status);
        assert_eq!(a.crew_size, b.crew_size);
        assert_eq!(a.duration, b.duration);
        assert_eq!(a.success_rate, b.success_rate);
        assert_eq!(a.security_code, b.security_code);
        assert_eq!(a.line_number, b.line_number);
    }
}
