use file_io::log_parser::{ApplicationStat, Statistics};
use file_io::record::{FieldName, ParseError, parse_record};
use file_io::totals::{GroupError, group_totals_lines};

fn group(lines: &[&str]) -> Result<Statistics, GroupError> {
    let owned: Vec<String> = lines.iter().map(|l| l.to_string()).collect();
    group_totals_lines(&owned)
}

fn stat_for<'a>(stats: &'a Statistics, name: &str) -> Option<&'a ApplicationStat> {
    stats.application_stats().iter().find(|s| s.name == name)
}

#[test]
fn parses_full_record() {
    let rec = parse_record("{\"app\":\"a\",\"cpu_time\":5,\"io_wait\":7}").unwrap();
    assert_eq!(rec.app, "a");
    assert_eq!(rec.cpu_time, Some(5));
    assert_eq!(rec.io_wait, Some(7));
}

#[test]
fn absent_measurements_parse_as_absent_not_zero() {
    let rec = parse_record("{\"app\":\"a\",\"cpu_time\":5}").unwrap();
    assert_eq!(rec.app, "a");
    assert_eq!(rec.cpu_time, Some(5));
    assert_eq!(rec.io_wait, None);

    let bare = parse_record("{\"app\":\"x\"}").unwrap();
    assert_eq!(bare.cpu_time, None);
    assert_eq!(bare.io_wait, None);
}

#[test]
fn invalid_json_line_fails() {
    assert!(matches!(parse_record("not json"), Err(ParseError::InvalidJson)));
}

#[test]
fn empty_line_is_invalid_json() {
    assert!(matches!(parse_record(""), Err(ParseError::InvalidJson)));
}

#[test]
fn missing_app_field_fails() {
    assert!(matches!(
        parse_record("{\"cpu_time\":5}"),
        Err(ParseError::MissingOrInvalidField(FieldName::App))
    ));
}

#[test]
fn non_string_app_field_fails() {
    assert!(matches!(
        parse_record("{\"app\":5}"),
        Err(ParseError::MissingOrInvalidField(FieldName::App))
    ));
}

#[test]
fn non_object_document_lacks_app() {
    assert!(matches!(
        parse_record("5"),
        Err(ParseError::MissingOrInvalidField(FieldName::App))
    ));
}

#[test]
fn non_integer_measurements_fail() {
    assert!(matches!(
        parse_record("{\"app\":\"a\",\"cpu_time\":\"x\"}"),
        Err(ParseError::MissingOrInvalidField(FieldName::CpuTime))
    ));
    assert!(matches!(
        parse_record("{\"app\":\"a\",\"io_wait\":1.5}"),
        Err(ParseError::MissingOrInvalidField(FieldName::IoWait))
    ));
}

#[test]
fn missing_optional_fields_contribute_zero() {
    let stats = group(&["{\"app\":\"x\"}"]).unwrap();
    let x = stat_for(&stats, "x").unwrap();
    assert_eq!((x.cpu_time, x.io_wait, x.total_time), (0, 0, 0));
    assert_eq!(stats.application_stats().len(), 1);
}

#[test]
fn malformed_line_aborts_grouping() {
    let r = group(&["{\"app\":\"a\",\"cpu_time\":5}", "not json"]);
    assert!(matches!(r, Err(GroupError::Parse(ParseError::InvalidJson))));
}

#[test]
fn groups_example_lines() {
    let stats = group(&[
        "{\"app\":\"web\",\"cpu_time\":10,\"io_wait\":5}",
        "{\"app\":\"web\",\"cpu_time\":3,\"io_wait\":0}",
        "{\"app\":\"db\",\"io_wait\":7}",
    ])
    .unwrap();
    assert_eq!(stats.application_stats().len(), 2);
    let web = stat_for(&stats, "web").unwrap();
    assert_eq!((web.cpu_time, web.io_wait, web.total_time), (13, 5, 18));
    let db = stat_for(&stats, "db").unwrap();
    assert_eq!((db.cpu_time, db.io_wait, db.total_time), (0, 7, 7));
}

#[test]
fn missing_required_field_aborts_grouping() {
    let r = group(&["{\"cpu_time\":5}"]);
    assert!(matches!(
        r,
        Err(GroupError::Parse(ParseError::MissingOrInvalidField(FieldName::App)))
    ));
}

#[test]
fn negative_measurements_are_rejected() {
    let r = group(&["{\"app\":\"a\",\"cpu_time\":-5}"]);
    assert!(matches!(r, Err(GroupError::NegativeValue(FieldName::CpuTime))));
    let r = group(&["{\"app\":\"a\",\"io_wait\":-1}"]);
    assert!(matches!(r, Err(GroupError::NegativeValue(FieldName::IoWait))));
}

#[test]
fn overflowing_total_is_rejected() {
    let line = "{\"app\":\"a\",\"cpu_time\":9223372036854775807}";
    let stats = group(&[line]).unwrap();
    assert_eq!(stat_for(&stats, "a").unwrap().total_time, i64::MAX);
    let r = group(&[line, line]);
    assert!(matches!(r, Err(GroupError::TotalOverflow)));
}

#[test]
fn grouping_is_order_independent() {
    let lines = [
        "{\"app\":\"web\",\"cpu_time\":10,\"io_wait\":5}",
        "{\"app\":\"db\",\"io_wait\":7}",
        "{\"app\":\"web\",\"cpu_time\":3}",
    ];
    let s1 = group(&lines).unwrap();
    let s2 = group(&[lines[2], lines[0], lines[1]]).unwrap();
    for name in ["web", "db"] {
        let a = stat_for(&s1, name).unwrap();
        let b = stat_for(&s2, name).unwrap();
        assert_eq!((a.cpu_time, a.io_wait, a.total_time), (b.cpu_time, b.io_wait, b.total_time));
    }
}
