use docli::error::DocliError;
use docli::kb::{civil_date, render_template, render_template_on, today_date};

fn vars(pairs: &[(&str, &str)]) -> Vec<(String, String)> {
    pairs.iter().map(|(k, v)| (k.to_string(), v.to_string())).collect()
}

#[test]
fn renders_provided_vars() {
    let result = render_template("Hello, {{ name }}!", &vars(&[("name", "\"Alice\"")])).unwrap();
    assert_eq!(result, "Hello, Alice!");
}

#[test]
fn injects_date_when_not_provided() {
    let result = render_template("Today is {{ date }}.", &vars(&[])).unwrap();
    assert!(result.contains("Today is "));
    let date_part = result.strip_prefix("Today is ").unwrap().strip_suffix('.').unwrap();
    assert_eq!(date_part.len(), 10);
    assert_eq!(date_part.chars().nth(4), Some('-'));
    assert_eq!(date_part.chars().nth(7), Some('-'));
}

#[test]
fn caller_supplied_date_is_not_overridden() {
    let result = render_template("{{ date }}", &vars(&[("date", "\"1999-01-01\"")])).unwrap();
    assert_eq!(result, "1999-01-01");
}

#[test]
fn unknown_variable_renders_empty_by_default() {
    let result = render_template("{{ unknown_var }}", &vars(&[])).unwrap();
    assert_eq!(result, "");
}

#[test]
fn invalid_template_syntax_returns_error() {
    let err = render_template("{% for %}", &vars(&[])).unwrap_err();
    assert!(matches!(err, DocliError::InvalidSpec { .. }));
}

#[test]
fn today_date_returns_valid_format() {
    let date = today_date();
    assert_eq!(date.len(), 10);
    assert_eq!(date.chars().nth(4), Some('-'));
    assert_eq!(date.chars().nth(7), Some('-'));
    assert!(date.starts_with("20"), "date was: {date}");
}

#[test]
fn civil_date_of_known_days() {
    assert_eq!(civil_date(0), "1970-01-01");
    assert_eq!(civil_date(59), "1970-03-01");
    assert_eq!(civil_date(10957), "2000-01-01");
    assert_eq!(civil_date(11016), "2000-02-29");
    assert_eq!(civil_date(19723), "2024-01-01");
}

#[test]
fn render_on_a_given_day_uses_that_day() {
    let out = render_template_on("{{ date }}", &vars(&[]), "2030-05-06").unwrap();
    assert_eq!(out, "2030-05-06");
    let out = render_template_on("{{ date }}|{{ n }}", &vars(&[("n", "3")]), "2030-05-06").unwrap();
    assert_eq!(out, "2030-05-06|3");
}

#[test]
fn strings_with_quotes_and_controls_reach_the_template_intact() {
    let out = render_template_on("{{ s }}", &vars(&[]), "a\"b\\c\td").unwrap_or_default();
    assert_eq!(out, "");
    let out = render_template_on("{{ date }}", &vars(&[]), "a\"b\\c\td").unwrap();
    assert_eq!(out, "a\"b\\c\td");
}
