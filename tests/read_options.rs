use xs::frame::{OptionError, TTL};
use xs::options::{tail_from_text, FollowOption, ReadOptions};
use xs::text::parse_u64;

fn id_of(text: &str) -> u128 {
    text.parse::<scru128::Id>().unwrap().to_u128()
}

fn opts(follow: FollowOption, last_id: Option<u128>) -> ReadOptions {
    ReadOptions { follow, tail: false, last_id }
}

#[test]
fn test_from_query() {
    let id = id_of("03BIDZVKNOTGJPVUEW3K23G45");
    let cases: Vec<(Option<&str>, ReadOptions)> = vec![
        (None, ReadOptions::default()),
        (Some("foo=bar"), ReadOptions::default()),
        (Some("follow"), opts(FollowOption::On, None)),
        (Some("follow=1"), opts(FollowOption::WithHeartbeat(1), None)),
        (Some("follow=yes"), opts(FollowOption::On, None)),
        (Some("follow=true"), opts(FollowOption::On, None)),
        (Some("last-id=03BIDZVKNOTGJPVUEW3K23G45"), opts(FollowOption::Off, Some(id))),
        (
            Some("follow&last-id=03BIDZVKNOTGJPVUEW3K23G45"),
            opts(FollowOption::On, Some(id)),
        ),
    ];
    for (input, expected) in &cases {
        let options = ReadOptions::from_query(*input);
        assert_eq!(options, Ok(expected.clone()), "case {:?}", input);
    }
    assert!(ReadOptions::from_query(Some("last-id=123")).is_err());
}

#[test]
fn query_last_id_error_kind() {
    assert_eq!(ReadOptions::from_query(Some("last-id=123")), Err(OptionError::InvalidLastId));
}

#[test]
fn query_follow_off_and_invalid() {
    assert_eq!(ReadOptions::from_query(Some("follow=no")), Ok(ReadOptions::default()));
    assert_eq!(ReadOptions::from_query(Some("follow=false")), Ok(ReadOptions::default()));
    assert_eq!(ReadOptions::from_query(Some("follow=maybe")), Err(OptionError::InvalidFollow));
}

#[test]
fn query_duplicate_field() {
    assert_eq!(ReadOptions::from_query(Some("tail&tail=no")), Err(OptionError::DuplicateField));
    assert_eq!(ReadOptions::from_query(Some("follow=1&follow=2")), Err(OptionError::DuplicateField));
}

#[test]
fn query_tail_values() {
    let tail = |q: &str| ReadOptions::from_query(Some(q)).unwrap().tail;
    assert!(tail("tail"));
    assert!(tail("tail=yes"));
    assert!(tail("tail=1"));
    assert!(!tail("tail=0"));
    assert!(!tail("tail=no"));
    assert!(!tail("tail=false"));
    assert!(!tail("foo=1"));
    assert!(tail_from_text("anything"));
}

#[test]
fn query_percent_decoding() {
    let q = "follow=%35&last-id=03bidzvknotgjpvuew3k23g45";
    let expected = opts(FollowOption::WithHeartbeat(5), Some(id_of("03BIDZVKNOTGJPVUEW3K23G45")));
    assert_eq!(ReadOptions::from_query(Some(q)), Ok(expected));
}

#[test]
fn follow_text_forms() {
    assert_eq!(FollowOption::from_text(""), Ok(FollowOption::On));
    assert_eq!(FollowOption::from_text("+250"), Ok(FollowOption::WithHeartbeat(250)));
    assert_eq!(FollowOption::from_text("-1"), Err(OptionError::InvalidFollow));
}

#[test]
fn decimal_parsing_edges() {
    assert_eq!(parse_u64("0"), Some(0));
    assert_eq!(parse_u64("18446744073709551615"), Some(u64::MAX));
    assert_eq!(parse_u64("18446744073709551616"), None);
    assert_eq!(parse_u64("184467440737095516150"), None);
    assert_eq!(parse_u64("99999999999999999999x"), None);
    assert_eq!(parse_u64(""), None);
    assert_eq!(parse_u64("+"), None);
    assert_eq!(parse_u64("12a"), None);
}

#[test]
fn ttl_tokens() {
    assert_eq!(TTL::parse("forever"), Ok(TTL::Forever));
    assert_eq!(TTL::parse("ephemeral"), Ok(TTL::Ephemeral));
    assert_eq!(TTL::parse("time:3600"), Ok(TTL::Time(3600)));
    assert_eq!(TTL::parse("head:2"), Ok(TTL::Head(2)));
    assert_eq!(TTL::parse("head:"), Err(OptionError::InvalidTtl));
    assert_eq!(TTL::parse("time"), Err(OptionError::InvalidTtl));
    assert_eq!(TTL::parse("never"), Err(OptionError::InvalidTtl));
    assert!(TTL::Forever.is_persisted());
    assert!(!TTL::Ephemeral.is_persisted());
}
