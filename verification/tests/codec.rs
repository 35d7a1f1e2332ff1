use origins::address::{address_anchor, address_content, address_type};
use origins::record::{check_payload, copy_payload, same_payload, Field, Kind};
use origins::text::{copy_text, copy_texts};
use origins::timestamp::{confirms, created_at_of, tag_of};
use origins::zome::{init, validate_agent};

fn field(name: &str, value: &str) -> Field {
    Field { name: name.to_string(), value: value.to_string() }
}

fn task_kind() -> Kind {
    Kind {
        name: "task".to_string(),
        anchor_type: "tasks".to_string(),
        link_type: "task_link".to_string(),
        revision_type: "task_revision".to_string(),
        schema: vec!["title".to_string()],
    }
}

#[test]
fn a_time_prints_as_a_date_in_utc() {
    assert_eq!(tag_of(0), "1970-01-01T00:00:00Z");
    assert_eq!(tag_of(1), "1970-01-01T00:00:00.000001Z");
    assert_eq!(tag_of(1_000), "1970-01-01T00:00:00.001Z");
    assert_eq!(tag_of(1_588_706_164_266_431), "2020-05-05T19:16:04.266431Z");
    assert_eq!(tag_of(-1_000_000), "1969-12-31T23:59:59Z");
}

#[test]
fn a_time_outside_the_years_of_a_date_prints_as_a_count() {
    assert_eq!(tag_of(i64::MAX), "(9223372036854775807μs)");
    assert_eq!(tag_of(i64::MIN), "(-9223372036854775808μs)");
}

#[test]
fn a_tag_reads_as_the_time_it_holds() {
    assert_eq!(created_at_of(&"1970-01-01T00:00:00Z".to_string()), Some(0));
    assert_eq!(created_at_of(&"2020-05-05T19:16:04.266431Z".to_string()), Some(1_588_706_164_266_431));
    assert_eq!(
        created_at_of(&"2020-05-05T21:16:04.266431+02:00".to_string()),
        Some(1_588_706_164_266_431)
    );
    assert_eq!(created_at_of(&"1969-12-31T23:59:59Z".to_string()), Some(-1_000_000));
}

#[test]
fn a_tag_that_is_no_date_reads_as_nothing() {
    assert_eq!(created_at_of(&"".to_string()), None);
    assert_eq!(created_at_of(&"yesterday".to_string()), None);
    assert_eq!(created_at_of(&"2020-05-05".to_string()), None);
    assert_eq!(created_at_of(&"(9223372036854775807μs)".to_string()), None);
    assert_eq!(created_at_of(&"1588706164266431".to_string()), None);
}

#[test]
fn a_tag_confirms_only_the_time_it_was_read_as() {
    assert!(confirms(Some(5), 5));
    assert!(!confirms(Some(5), 6));
    assert!(!confirms(None, 0));
    assert!(confirms(Some(i64::MIN), i64::MIN));
}

fn reads_back(micros: i64) -> bool {
    confirms(created_at_of(&tag_of(micros)), micros)
}

#[test]
fn a_time_reads_back_from_its_tag_within_the_years_of_a_date() {
    assert!(reads_back(0));
    assert!(reads_back(1_588_706_164_266_431));
    assert_eq!(tag_of(-62_167_219_200_000_000), "0000-01-01T00:00:00Z");
    assert!(reads_back(-62_167_219_200_000_000));
    assert!(!reads_back(-62_167_219_200_000_001));
    assert_eq!(tag_of(253_402_214_400_000_000), "9999-12-31T00:00:00Z");
    assert!(reads_back(253_402_214_400_000_000));
    assert!(!reads_back(253_402_214_400_000_001));
    assert!(!reads_back(i64::MAX));
    assert!(!reads_back(i64::MIN));
}

#[test]
fn the_address_of_a_content_is_the_text_of_its_digest() {
    let kind = "task".to_string();
    assert_eq!(
        address_content(&kind, &vec![field("title", "x")]),
        "uFYLKCbzkWZQox1juAKXm__QJsoO0TegLXiY9pBMe_zo"
    );
    assert_eq!(
        address_content(&kind, &vec![field("title", "y")]),
        "uZ79j-KqQ30yn8KJ5D-9QzzkqHElf9LQw2_PX68b4cH4"
    );
}

#[test]
fn the_address_of_an_anchor_is_the_text_of_its_digest() {
    assert_eq!(
        address_anchor(&"tasks".to_string(), &"project-1".to_string()),
        "ubKSZWIQiVtcANhe4_OKzljIlLyWPQXSN0r8_yps_LRg"
    );
    assert_eq!(address_type(&"tasks".to_string()), "u5I1l1boTf_wTY5gIZCqjyt_zwQJAbIPsWfYnwAztDp4");
}

#[test]
fn addresses_have_one_length_whatever_the_content() {
    let kind = "task".to_string();
    let long = "x".repeat(1000);
    for payload in [vec![], vec![field("title", "")], vec![field("title", &long)], vec![field("é", "€😀")]] {
        let address = address_content(&kind, &payload);
        assert_eq!(address.len(), 44);
        assert!(address.starts_with('u'));
    }
}

#[test]
fn equal_contents_share_an_address_and_others_do_not() {
    let kind = "task".to_string();
    let other = "note".to_string();
    let payload = vec![field("title", "x")];
    assert_eq!(address_content(&kind, &payload), address_content(&kind, &copy_payload(&payload)));
    assert_ne!(address_content(&kind, &payload), address_content(&other, &payload));
    assert_ne!(
        address_content(&kind, &vec![field("title", "x")]),
        address_content(&kind, &vec![field("titl", "ex")])
    );
    assert_ne!(
        address_content(&kind, &vec![field("a", "b"), field("c", "d")]),
        address_content(&kind, &vec![field("c", "d"), field("a", "b")])
    );
    assert_ne!(
        address_anchor(&"tasks".to_string(), &"a".to_string()),
        address_anchor(&"task".to_string(), &"sa".to_string())
    );
}

#[test]
fn a_payload_has_the_shape_of_its_kind_when_the_names_match_in_order() {
    let kind = task_kind();
    assert!(check_payload(&kind, &vec![field("title", "x")]));
    assert!(check_payload(&kind, &vec![field("title", "")]));
    assert!(!check_payload(&kind, &vec![]));
    assert!(!check_payload(&kind, &vec![field("Title", "x")]));
    assert!(!check_payload(&kind, &vec![field("title", "x"), field("title", "y")]));
    let empty = Kind { schema: vec![], ..task_kind() };
    assert!(check_payload(&empty, &vec![]));
    assert!(!check_payload(&empty, &vec![field("title", "x")]));
}

#[test]
fn payloads_are_the_same_when_names_and_values_are() {
    let payload = vec![field("a", "1"), field("b", "2")];
    assert!(same_payload(&payload, &copy_payload(&payload)));
    assert_eq!(copy_payload(&payload), payload);
    assert!(!same_payload(&payload, &vec![field("a", "1")]));
    assert!(!same_payload(&payload, &vec![field("a", "1"), field("b", "3")]));
    assert!(!same_payload(&payload, &vec![field("a", "1"), field("c", "2")]));
    assert!(!same_payload(&payload, &vec![field("b", "2"), field("a", "1")]));
    assert!(same_payload(&vec![], &vec![]));
}

#[test]
fn copies_of_text_are_equal_to_the_text() {
    assert_eq!(copy_text(&"héllo".to_string()), "héllo");
    let texts = vec!["a".to_string(), "".to_string(), "c".to_string()];
    assert_eq!(copy_texts(&texts), texts);
    assert_eq!(copy_texts(&vec![]), Vec::<String>::new());
}

#[test]
fn the_application_starts_and_takes_every_agent() {
    assert_eq!(init(), Ok(()));
    assert_eq!(validate_agent(&"uhCAkWCsAgoKkkfwyJAglj30xX_GLLV-3BXuFy436a2SqpcEwyBzm".to_string()), Ok(()));
    assert_eq!(validate_agent(&"".to_string()), Ok(()));
}
