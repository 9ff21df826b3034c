use mars_mission_analyzer::mission::is_comment_or_metadata;
use mars_mission_analyzer::mission::Mission;

fn mission_with_code(code: &str) -> Mission {
    Mission {
        date: "2045-07-12".to_string(),
        mission_id: "KLM-1234".to_string(),
        destination: "Mars".to_string(),
        status: "Completed".to_string(),
        crew_size: 5,
        duration: 387,
        success_rate: "98.7".to_string(),
        security_code: code.to_string(),
        line_number: 1,
    }
}

#[test]
fn test_mission_from_line_valid() {
    let line = "2045-07-12 | KLM-1234 | Mars | Completed | 5 | 387 | 98.7 | TRX-842-YHG";
    let mission = Mission::from_line(line, 1).unwrap();

    assert_eq!(mission.date, "2045-07-12");
    assert_eq!(mission.mission_id, "KLM-1234");
    assert_eq!(mission.destination, "Mars");
    assert_eq!(mission.status, "Completed");
    assert_eq!(mission.crew_size, 5);
    assert_eq!(mission.duration, 387);
    assert_eq!(mission.success_rate, "98.7");
    assert_eq!(mission.security_code, "TRX-842-YHG");
    assert_eq!(mission.line_number, 1);
}

#[test]
fn test_mission_from_line_with_whitespace() {
    let line = "  2045-07-12  |  KLM-1234  |  Mars  |  Completed  |  5  |  387  |  98.7  |  TRX-842-YHG  ";
    let mission = Mission::from_line(line, 5).unwrap();

    assert_eq!(mission.date, "2045-07-12");
    assert_eq!(mission.mission_id, "KLM-1234");
    assert_eq!(mission.security_code, "TRX-842-YHG");
}

#[test]
fn test_mission_from_line_insufficient_fields() {
    let line = "2045-07-12 | KLM-1234 | Mars";
    let mission = Mission::from_line(line, 1);

    assert!(mission.is_none());
}

#[test]
fn test_mission_from_line_invalid_numbers() {
    let line = "2045-07-12 | KLM-1234 | Mars | Completed | abc | 387 | 98.7 | TRX-842-YHG";
    let mission = Mission::from_line(line, 1);

    assert!(mission.is_none());
}

#[test]
fn test_mission_from_line_extra_fields_ignored() {
    let line = "2045-07-12 | KLM-1234 | Mars | Completed | 5 | 387 | 98.7 | TRX-842-YHG | note | more";
    let mission = Mission::from_line(line, 3).unwrap();

    assert_eq!(mission.security_code, "TRX-842-YHG");
    assert_eq!(mission.line_number, 3);
}

#[test]
fn test_mission_from_line_signed_and_bounded_integers() {
    // a leading plus sign is an accepted integer form
    let line = "d | m | Mars | Completed | +5 | +387 | 98.7 | TRX-842-YHG";
    let mission = Mission::from_line(line, 1).unwrap();
    assert_eq!(mission.crew_size, 5);
    assert_eq!(mission.duration, 387);

    // the largest value in range is accepted, one past it is not
    let line = "d | m | Mars | Completed | 5 | 4294967295 | 98.7 | TRX-842-YHG";
    assert_eq!(Mission::from_line(line, 1).unwrap().duration, 4294967295);
    let line = "d | m | Mars | Completed | 5 | 4294967296 | 98.7 | TRX-842-YHG";
    assert!(Mission::from_line(line, 1).is_none());

    // negative integers are rejected, as is an empty digit string
    let line = "d | m | Mars | Completed | -5 | 387 | 98.7 | TRX-842-YHG";
    assert!(Mission::from_line(line, 1).is_none());
    let line = "d | m | Mars | Completed | + | 387 | 98.7 | TRX-842-YHG";
    assert!(Mission::from_line(line, 1).is_none());
}

#[test]
fn test_mission_from_line_rate_token_forms() {
    let accepted = [
        "98.7", "-98.7", "+98.7", "5", "5.", ".5", "1e5", "1.5e-3", "2E+7", "inf", "-inf",
        "Infinity", "nan", "NAN",
    ];
    for rate in accepted {
        let line = format!("d | m | Mars | Completed | 5 | 387 | {} | TRX-842-YHG", rate);
        assert!(
            Mission::from_line(&line, 1).is_some(),
            "expected rate {} to be accepted",
            rate
        );
    }

    let rejected = ["", ".", "abc", "5e", "e5", "5e+", "1.2.3", "5 .0", "in", "nano"];
    for rate in rejected {
        let line = format!("d | m | Mars | Completed | 5 | 387 | {} | TRX-842-YHG", rate);
        assert!(
            Mission::from_line(&line, 1).is_none(),
            "expected rate {} to be rejected",
            rate
        );
    }
}

#[test]
fn test_is_valid_security_code_valid() {
    let mission = mission_with_code("TRX-842-YHG");

    assert!(mission.is_valid_security_code());
}

#[test]
fn test_is_valid_security_code_invalid_formats() {
    let test_cases = vec![
        "TRX-842-YH",   // too short
        "TRX-842-YHGG", // too long
        "trx-842-yhg",  // lowercase
        "TRX-84-YHG",   // wrong middle part
        "TX-842-YHG",   // wrong first part
        "TRX842YHG",    // no dashes
        "TRX-ABC-YHG",  // letters in middle
    ];

    for code in test_cases {
        let mission = mission_with_code(code);

        assert!(
            !mission.is_valid_security_code(),
            "Expected {} to be invalid",
            code
        );
    }
}

#[test]
fn test_is_valid_security_code_more_edges() {
    // digits where letters are expected, and separators other than a hyphen
    for code in ["123-456-789", "TRX.842.YHG", "TRX-842_YHG", "842-TRX-842"] {
        assert!(!mission_with_code(code).is_valid_security_code());
    }
    for code in ["AAA-000-ZZZ", "QQQ-999-AAA"] {
        assert!(mission_with_code(code).is_valid_security_code());
    }
}

#[test]
fn test_is_completed_mars_mission_valid() {
    let mission = mission_with_code("TRX-842-YHG");

    assert!(mission.is_completed_mars_mission());
}

#[test]
fn test_is_completed_mars_mission_case_insensitive() {
    let mut mission = mission_with_code("TRX-842-YHG");
    mission.destination = "MARS".to_string();
    mission.status = "COMPLETED".to_string();

    assert!(mission.is_completed_mars_mission());
}

#[test]
fn test_is_completed_mars_mission_wrong_destination() {
    let mut mission = mission_with_code("TRX-842-YHG");
    mission.destination = "Jupiter".to_string();

    assert!(!mission.is_completed_mars_mission());
}

#[test]
fn test_is_completed_mars_mission_wrong_status() {
    let mut mission = mission_with_code("TRX-842-YHG");
    mission.status = "Failed".to_string();

    assert!(!mission.is_completed_mars_mission());
}

#[test]
fn test_is_completed_mars_mission_zero_duration() {
    let mut mission = mission_with_code("TRX-842-YHG");
    mission.duration = 0;

    assert!(!mission.is_completed_mars_mission());
}

#[test]
fn test_is_completed_mars_mission_invalid_code() {
    let mission = mission_with_code("INVALID");

    assert!(!mission.is_completed_mars_mission());
}

#[test]
fn test_is_comment_or_metadata() {
    assert!(is_comment_or_metadata("# This is a comment"));
    assert!(is_comment_or_metadata("  # Comment with leading space"));
    assert!(is_comment_or_metadata("SYSTEM: Something"));
    assert!(is_comment_or_metadata("CONFIG: value"));
    assert!(is_comment_or_metadata("CHECKSUM: 12345"));
    assert!(is_comment_or_metadata(""));
    assert!(is_comment_or_metadata("   "));

    assert!(!is_comment_or_metadata(
        "2045-07-12 | KLM-1234 | Mars | Completed | 5 | 387 | 98.7 | TRX-842-YHG"
    ));
}

#[test]
fn test_is_comment_or_metadata_trimmed_prefixes() {
    assert!(is_comment_or_metadata("   SYSTEM: indented metadata"));
    assert!(is_comment_or_metadata("\tCHECKSUM: abc"));
    // the prefix must stand at the front of the trimmed line
    assert!(!is_comment_or_metadata("data SYSTEM: elsewhere"));
    // prefixes are case-sensitive
    assert!(!is_comment_or_metadata("system: lowercase"));
}
