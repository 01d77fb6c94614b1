use baskerville::Date;
use baskerville::DateTime;
use baskerville::DateTimeFormat;
use baskerville::Empty;
use baskerville::Float;
use baskerville::Integer;
use baskerville::Literal;
use baskerville::Text;
use baskerville::Time;
use baskerville::Unique;

#[test]
fn integer() {
    let mut validator = Integer::default();
    assert!(validator.consider("2").is_ok());
    assert!(validator.consider("1").is_ok());
    assert!(validator.consider("Ferris").is_err());
    assert_eq!(validator.min_value, Some(1));
    assert!(validator.consider("-1").is_ok());
    assert_eq!(validator.min_value, Some(-1));
    assert_eq!(validator.max_value, Some(2));
}

#[test]
fn text() {
    let mut validator = Text::default();
    assert!(validator.consider("Ferris").is_ok());
    assert!(validator.consider("🦀").is_ok());
    assert_eq!(Some(1), validator.min_length);
    assert_eq!(Some(6), validator.max_length);
}

#[test]
fn literal() {
    let mut validator = Literal::new(vec!["Ferris".into(), "Corro".into()]);
    assert!(validator.consider("Ferris").is_ok());
    assert!(validator.consider("Corro").is_ok());
    assert!(validator.consider("Duke").is_err());
}

#[test]
fn date() {
    let mut validator = Date::default();
    assert!(validator.consider("2001-01-22").is_ok());
    assert_eq!(1, validator.formats.len());
    assert_eq!("%Y-%m-%d", validator.formats[0]);
    assert!(validator.consider("22/01/2001").is_err());

    let mut validator = Date {
        formats: vec!["%Y %m %d".into()],
    };
    assert!(validator.consider("2001 01 22").is_ok());
    assert!(validator.consider("2001-01-22").is_err());
}

#[test]
fn time() {
    let mut validator = Time::default();
    assert!(validator.consider("12:34:56").is_ok());
    assert_eq!(1, validator.formats.len());
    assert_eq!("%H:%M:%S", validator.formats[0]);
    assert!(validator.consider("12:34PM").is_err());

    let mut validator = Time {
        formats: vec!["T%H:%M".into()],
    };
    assert!(validator.consider("T12:34").is_ok());
    assert!(validator.consider("12:34PM").is_err());
}

#[test]
fn date_time() {
    let mut validator = DateTime::default();
    assert!(validator.consider("2001-01-22T00:00:00+00:00").is_ok());
    assert!(validator.consider("2001-01-22T00:00:00Z").is_ok());
    assert_eq!(1, validator.formats.len());
    assert_eq!(DateTimeFormat::RFC3339, validator.formats[0]);
    assert!(validator.consider("Mon, 22 Jan 2001 00:00:00 GMT").is_err());

    let mut validator = DateTime::default();
    assert!(validator.consider("Mon, 22 Jan 2001 00:00:00 GMT").is_ok());
    assert_eq!(1, validator.formats.len());
    assert_eq!(DateTimeFormat::RFC2822, validator.formats[0]);
    assert!(validator.consider("2001-01-22T00:00:00+00:00").is_err());

    let mut validator = DateTime {
        formats: vec![DateTimeFormat::Unix],
    };
    assert!(validator.consider("980121600").is_ok());
    assert!(validator.consider("2001-01-22T00:00:00+00:00").is_err());
}

#[test]
fn id() {
    let validator = Unique::default();
    assert!(validator.validate("Ferris").is_ok());
    assert!(validator.validate("Corro").is_ok());
    assert!(validator.validate("Ferris").is_ok());
}

#[test]
fn unique_validate_reads_only() {
    let mut validator = Unique::default();
    assert!(validator.consider("Ferris").is_ok());
    assert!(validator.validate("Ferris").is_err());
    assert!(validator.validate("Corro").is_ok());
    assert!(validator.validate("Corro").is_ok());
    assert!(validator.consider("Corro").is_ok());
    assert!(validator.validate("Corro").is_err());
}

#[test]
fn unique_consider_repeats() {
    let mut validator = Unique::default();
    assert!(validator.consider("Ferris").is_ok());
    assert!(validator.consider("Corro").is_ok());
    assert!(validator.consider("Ferris").is_err());
}

#[test]
fn unique_clones_share_history() {
    let mut original = Unique::default();
    let mut copy = original.clone();
    assert!(original.consider("Ferris").is_ok());
    assert!(copy.consider("Ferris").is_err());
    assert!(copy.consider("Corro").is_ok());
    assert!(original.consider("Corro").is_err());
}

#[test]
fn empty_accepts_only_empty() {
    let validator = Empty;
    assert!(validator.validate("").is_ok());
    assert!(validator.validate("x").is_err());
    assert!(validator.validate(" ").is_err());
}

#[test]
fn integer_rejects_without_state_change() {
    let mut validator = Integer::default();
    assert!(validator.consider("41").is_ok());
    assert!(validator.consider("3.14").is_err());
    assert!(validator.consider("").is_err());
    assert!(validator.consider("12x").is_err());
    assert_eq!(validator.min_value, Some(41));
    assert_eq!(validator.max_value, Some(41));
    assert!(!validator.leading_plus);
}

#[test]
fn integer_extremes_and_signs() {
    let mut validator = Integer::default();
    assert!(validator
        .consider("170141183460469231731687303715884105727")
        .is_ok());
    assert!(validator
        .consider("170141183460469231731687303715884105728")
        .is_err());
    assert!(validator
        .consider("-170141183460469231731687303715884105728")
        .is_ok());
    assert!(validator
        .consider("-170141183460469231731687303715884105729")
        .is_err());
    assert_eq!(validator.min_value, Some(i128::MIN));
    assert_eq!(validator.max_value, Some(i128::MAX));
    assert!(validator.consider("+7").is_ok());
    assert!(validator.leading_plus);
}

#[test]
fn float_accepts_and_flags() {
    let mut validator = Float::default();
    assert!(validator.consider("0.1").is_ok());
    assert!(validator.consider("1.1").is_ok());
    assert!(validator.consider("-1").is_ok());
    assert!(validator.consider("Ferris").is_err());
    assert!(!validator.leading_plus);
    assert!(!validator.e_notation);
    assert!(validator.consider("+1e5").is_ok());
    assert!(validator.leading_plus);
    assert!(validator.e_notation);
    assert!(validator.consider(".5").is_ok());
    assert!(validator.consider("5.").is_ok());
    assert!(validator.consider("inf").is_ok());
    assert!(validator.consider("NaN").is_ok());
    assert!(validator.consider(".").is_err());
    assert!(validator.consider("1e").is_err());
    assert!(validator.consider("e5").is_err());
}

#[test]
fn float_validate_tracks_leading_plus() {
    let fresh = Float::default();
    assert!(fresh.validate("2.5").is_ok());
    assert!(fresh.validate("+2.5").is_err());
    let mut seen_plus = Float::default();
    assert!(seen_plus.consider("+1.0").is_ok());
    assert!(seen_plus.validate("+2.5").is_ok());
}

#[test]
fn literal_validate_reads_only() {
    let validator = Literal::new(vec!["True".into(), "False".into()]);
    assert!(validator.validate("True").is_ok());
    assert!(validator.validate("False").is_ok());
    assert!(validator.validate("true").is_err());
    assert_eq!(validator.values.len(), 2);
}

#[test]
fn datetime_strftime_pattern() {
    let mut validator = DateTime::new(vec![DateTimeFormat::Strftime(
        "%Y-%m-%d %H:%M:%S".into(),
    )]);
    assert!(validator.consider("2015-09-05 23:56:04").is_ok());
    assert_eq!(1, validator.formats.len());
    assert!(validator.consider("Ferris").is_err());
}

#[test]
fn datetime_unix_range() {
    let validator = DateTime::new(vec![DateTimeFormat::Unix]);
    assert!(validator.validate("0").is_ok());
    assert!(validator.validate("-1").is_ok());
    assert!(validator.validate("99999999999999999").is_err());
    assert!(validator.validate("12.5").is_err());
}

#[test]
fn date_validate_uses_retained_formats() {
    let mut validator = Date::default();
    assert!(validator.validate("22/01/2001").is_ok());
    assert!(validator.consider("2001-01-22").is_ok());
    assert!(validator.validate("22/01/2001").is_err());
    assert!(validator.validate("2001-01-22").is_ok());
}
