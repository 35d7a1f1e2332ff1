use origins::anchors::list_members;
use origins::ledger::Ledger;
use origins::lifecycle::{create, delete, list, read, rebase, update};
use origins::protocol::{Action, Event};
use origins::record::{Failure, Field, Kind, Record};
use origins::timestamp::tag_of;

fn origin_kind() -> Kind {
    Kind {
        name: "origin".to_string(),
        anchor_type: "origins".to_string(),
        link_type: "origin_link".to_string(),
        revision_type: "origin_revision".to_string(),
        schema: vec!["name".to_string(), "place".to_string()],
    }
}

fn profile_kind() -> Kind {
    Kind {
        name: "profile".to_string(),
        anchor_type: "profiles".to_string(),
        link_type: "profile_link".to_string(),
        revision_type: "profile_revision".to_string(),
        schema: vec!["nick".to_string()],
    }
}

fn origin(name: &str, place: &str) -> Vec<Field> {
    vec![
        Field { name: "name".to_string(), value: name.to_string() },
        Field { name: "place".to_string(), value: place.to_string() },
    ]
}

fn profile(nick: &str) -> Vec<Field> {
    vec![Field { name: "nick".to_string(), value: nick.to_string() }]
}

fn addresses(records: &[Record]) -> Vec<String> {
    let mut found: Vec<String> = records.iter().map(|record| record.address.clone()).collect();
    found.sort();
    found.dedup();
    found
}

#[test]
fn read_gives_back_what_create_gave() {
    let kind = origin_kind();
    let mut ledger = Ledger::new();
    let created = create(&mut ledger, &kind, "farm".to_string(), origin("barley", "field 3")).unwrap();
    let found = read(&mut ledger, &kind, created.id.clone(), created.created_at).unwrap();
    assert_eq!(found, created);
    assert_eq!(found.payload, origin("barley", "field 3"));
}

#[test]
fn read_takes_the_creation_time_from_the_caller() {
    let kind = origin_kind();
    let mut ledger = Ledger::new();
    let created = create(&mut ledger, &kind, "farm".to_string(), origin("barley", "field 3")).unwrap();
    let found = read(&mut ledger, &kind, created.id.clone(), 99).unwrap();
    assert_eq!(found.created_at, 99);
    assert_eq!(found.id, created.id);
    assert_eq!(found.address, created.id);
}

#[test]
fn read_of_an_unknown_address_is_not_found() {
    let kind = origin_kind();
    let mut ledger = Ledger::new();
    assert_eq!(read(&mut ledger, &kind, "nowhere".to_string(), 1), Err(Failure::NotFound));
}

#[test]
fn list_hands_out_exactly_the_created_records() {
    let kind = origin_kind();
    let mut ledger = Ledger::new();
    let first = create(&mut ledger, &kind, "farm".to_string(), origin("barley", "field 3")).unwrap();
    let second = create(&mut ledger, &kind, "farm".to_string(), origin("oats", "field 4")).unwrap();
    let other = create(&mut ledger, &kind, "mill".to_string(), origin("flour", "bin 1")).unwrap();
    let third = create(&mut ledger, &kind, "farm".to_string(), origin("rye", "field 5")).unwrap();

    let farm = list(&mut ledger, &kind, "farm".to_string()).unwrap();
    assert_eq!(farm, vec![first.clone(), second.clone(), third.clone()]);
    let mut expected = vec![first.address, second.address, third.address];
    expected.sort();
    assert_eq!(addresses(&farm), expected);

    let mill = list(&mut ledger, &kind, "mill".to_string()).unwrap();
    assert_eq!(mill, vec![other]);
}

#[test]
fn list_of_a_base_without_records_is_empty() {
    let kind = origin_kind();
    let mut ledger = Ledger::new();
    assert_eq!(list(&mut ledger, &kind, "farm".to_string()), Ok(vec![]));
}

#[test]
fn creation_times_follow_the_clock() {
    let kind = origin_kind();
    let mut ledger = Ledger::starting_at(1_588_706_164_266_430);
    let first = create(&mut ledger, &kind, "farm".to_string(), origin("barley", "field 3")).unwrap();
    let second = create(&mut ledger, &kind, "farm".to_string(), origin("oats", "field 4")).unwrap();
    assert_eq!(first.created_at, 1_588_706_164_266_431);
    assert_eq!(second.created_at, 1_588_706_164_266_432);
}

#[test]
fn kinds_keep_their_records_apart() {
    let origins = origin_kind();
    let profiles = profile_kind();
    let mut ledger = Ledger::new();
    let barley = create(&mut ledger, &origins, "shared".to_string(), origin("barley", "field 3")).unwrap();
    let ann = create(&mut ledger, &profiles, "shared".to_string(), profile("ann")).unwrap();
    assert_eq!(list(&mut ledger, &origins, "shared".to_string()), Ok(vec![barley]));
    assert_eq!(list(&mut ledger, &profiles, "shared".to_string()), Ok(vec![ann]));
}

#[test]
fn the_same_payload_created_twice_is_listed_twice() {
    let kind = profile_kind();
    let mut ledger = Ledger::new();
    let first = create(&mut ledger, &kind, "team".to_string(), profile("ann")).unwrap();
    let second = create(&mut ledger, &kind, "team".to_string(), profile("ann")).unwrap();
    assert_eq!(first.address, second.address);
    assert_ne!(first.created_at, second.created_at);
    let listed = list(&mut ledger, &kind, "team".to_string()).unwrap();
    assert_eq!(listed, vec![first, second]);
}

#[test]
fn update_puts_the_new_version_in_place_of_the_old() {
    let kind = profile_kind();
    let mut ledger = Ledger::new();
    let old = create(&mut ledger, &kind, "team".to_string(), profile("ann")).unwrap();
    let kept = create(&mut ledger, &kind, "team".to_string(), profile("bob")).unwrap();

    let new = update(
        &mut ledger,
        &kind,
        old.id.clone(),
        old.created_at,
        old.address.clone(),
        profile("anne"),
    )
    .unwrap();
    assert_eq!(new.payload, profile("anne"));
    assert_eq!(new.id, new.address);
    assert_ne!(new.address, old.address);
    assert_eq!(new.created_at, 3);

    let listed = list(&mut ledger, &kind, "team".to_string()).unwrap();
    assert_eq!(listed, vec![kept, new.clone()]);
    assert!(listed.iter().any(|record| record.payload == profile("anne")));
    assert!(listed.iter().all(|record| record.address != old.address));

    // The old version is no longer indexed, and still there to be read.
    assert_eq!(read(&mut ledger, &kind, old.id.clone(), old.created_at), Ok(old.clone()));
    // The record it came from leads to the new version.
    assert_eq!(ledger.members(&old.id), vec![new.address.clone()]);
}

#[test]
fn updates_can_be_chained_with_the_handle_of_the_last() {
    let kind = profile_kind();
    let mut ledger = Ledger::new();
    let first = create(&mut ledger, &kind, "team".to_string(), profile("ann")).unwrap();
    let second = update(
        &mut ledger,
        &kind,
        first.id.clone(),
        first.created_at,
        first.address.clone(),
        profile("anne"),
    )
    .unwrap();
    // The first handle died with the first update.
    assert_eq!(
        update(
            &mut ledger,
            &kind,
            first.id.clone(),
            first.created_at,
            first.address.clone(),
            profile("anna"),
        ),
        Err(Failure::NotFound)
    );
    let third = update(
        &mut ledger,
        &kind,
        second.id.clone(),
        second.created_at,
        second.address.clone(),
        profile("anna"),
    )
    .unwrap();
    assert_eq!(list(&mut ledger, &kind, "team".to_string()), Ok(vec![third]));
}

#[test]
fn update_finds_the_base_that_indexes_the_record() {
    let kind = profile_kind();
    let mut ledger = Ledger::new();
    let ann = create(&mut ledger, &kind, "team".to_string(), profile("ann")).unwrap();
    let bob = create(&mut ledger, &kind, "guests".to_string(), profile("bob")).unwrap();
    let rob = update(
        &mut ledger,
        &kind,
        bob.id.clone(),
        bob.created_at,
        bob.address.clone(),
        profile("rob"),
    )
    .unwrap();
    assert_eq!(list(&mut ledger, &kind, "team".to_string()), Ok(vec![ann]));
    assert_eq!(list(&mut ledger, &kind, "guests".to_string()), Ok(vec![rob]));
}

#[test]
fn update_of_an_unknown_handle_is_not_found_and_leaves_the_written_entry() {
    let kind = profile_kind();
    let mut ledger = Ledger::new();
    let ann = create(&mut ledger, &kind, "team".to_string(), profile("ann")).unwrap();
    let attempt = update(
        &mut ledger,
        &kind,
        ann.id.clone(),
        ann.created_at + 1,
        ann.address.clone(),
        profile("anne"),
    );
    assert_eq!(attempt, Err(Failure::NotFound));
    assert_eq!(list(&mut ledger, &kind, "team".to_string()), Ok(vec![ann]));
    // The payload was written before the handle was looked for.
    let orphan = origins::address::address_content(&kind.name, &profile("anne"));
    assert_eq!(read(&mut ledger, &kind, orphan.clone(), 5).unwrap().payload, profile("anne"));
}

#[test]
fn update_with_a_handle_whose_parts_disagree_is_not_found() {
    let kind = profile_kind();
    let mut ledger = Ledger::new();
    let ann = create(&mut ledger, &kind, "team".to_string(), profile("ann")).unwrap();
    let bob = create(&mut ledger, &kind, "team".to_string(), profile("bob")).unwrap();
    // `id` names bob, whose link has another tag than ann's.
    let attempt = update(
        &mut ledger,
        &kind,
        bob.id.clone(),
        ann.created_at,
        ann.address.clone(),
        profile("anne"),
    );
    assert_eq!(attempt, Err(Failure::NotFound));
    assert_eq!(list(&mut ledger, &kind, "team".to_string()), Ok(vec![ann, bob]));
}

#[test]
fn delete_takes_the_record_out_of_the_list() {
    let kind = profile_kind();
    let mut ledger = Ledger::new();
    let ann = create(&mut ledger, &kind, "team".to_string(), profile("ann")).unwrap();
    let bob = create(&mut ledger, &kind, "team".to_string(), profile("bob")).unwrap();
    let removed = delete(
        &mut ledger,
        &kind,
        "team".to_string(),
        ann.id.clone(),
        ann.created_at,
        ann.address.clone(),
    );
    assert_eq!(removed, Ok(ann.address.clone()));
    let listed = list(&mut ledger, &kind, "team".to_string()).unwrap();
    assert_eq!(listed, vec![bob]);
    assert!(listed.iter().all(|record| record.address != ann.address));
    // The ledger no longer hands the entry out.
    assert_eq!(read(&mut ledger, &kind, ann.id, ann.created_at), Err(Failure::NotFound));
}

#[test]
fn delete_of_an_unknown_handle_is_not_found() {
    let kind = profile_kind();
    let mut ledger = Ledger::new();
    let ann = create(&mut ledger, &kind, "team".to_string(), profile("ann")).unwrap();
    let wrong_time = delete(
        &mut ledger,
        &kind,
        "team".to_string(),
        ann.id.clone(),
        ann.created_at + 1,
        ann.address.clone(),
    );
    assert_eq!(wrong_time, Err(Failure::NotFound));
    let wrong_base = delete(
        &mut ledger,
        &kind,
        "guests".to_string(),
        ann.id.clone(),
        ann.created_at,
        ann.address.clone(),
    );
    assert_eq!(wrong_base, Err(Failure::NotFound));
    let wrong_address = delete(
        &mut ledger,
        &kind,
        "team".to_string(),
        ann.id.clone(),
        ann.created_at,
        "elsewhere".to_string(),
    );
    assert_eq!(wrong_address, Err(Failure::NotFound));
    assert_eq!(list(&mut ledger, &kind, "team".to_string()), Ok(vec![ann]));
}

#[test]
fn delete_twice_is_not_found_the_second_time() {
    let kind = profile_kind();
    let mut ledger = Ledger::new();
    let ann = create(&mut ledger, &kind, "team".to_string(), profile("ann")).unwrap();
    let once = delete(
        &mut ledger,
        &kind,
        "team".to_string(),
        ann.id.clone(),
        ann.created_at,
        ann.address.clone(),
    );
    assert_eq!(once, Ok(ann.address.clone()));
    let twice = delete(
        &mut ledger,
        &kind,
        "team".to_string(),
        ann.id.clone(),
        ann.created_at,
        ann.address.clone(),
    );
    assert_eq!(twice, Err(Failure::NotFound));
}

#[test]
fn delete_of_a_link_whose_entry_is_gone_removes_the_link_and_is_not_found() {
    let kind = profile_kind();
    let mut ledger = Ledger::new();
    let ann = create(&mut ledger, &kind, "team".to_string(), profile("ann")).unwrap();
    assert_eq!(ledger.perform(Action::Retire { address: ann.address.clone() }), Event::Done);
    let removed = delete(
        &mut ledger,
        &kind,
        "team".to_string(),
        ann.id.clone(),
        ann.created_at,
        ann.address.clone(),
    );
    assert_eq!(removed, Err(Failure::NotFound));
    assert_eq!(list(&mut ledger, &kind, "team".to_string()), Ok(vec![]));
}

#[test]
fn a_record_deleted_under_one_of_two_links_stays_listed_under_the_other() {
    let kind = profile_kind();
    let mut ledger = Ledger::new();
    let first = create(&mut ledger, &kind, "team".to_string(), profile("ann")).unwrap();
    let second = create(&mut ledger, &kind, "team".to_string(), profile("ann")).unwrap();
    let removed = delete(
        &mut ledger,
        &kind,
        "team".to_string(),
        first.id.clone(),
        first.created_at,
        first.address.clone(),
    );
    assert_eq!(removed, Ok(first.address.clone()));
    // The second link still leads to the address, but its entry was removed.
    assert_eq!(list(&mut ledger, &kind, "team".to_string()), Err(Failure::NotFound));
    assert_eq!(
        list_members(&ledger, kind.anchor_type.clone(), "team".to_string()),
        Ok(vec![second.address])
    );
}

#[test]
fn rebase_moves_the_record_with_its_address_and_time() {
    let kind = origin_kind();
    let mut ledger = Ledger::new();
    let barley = create(&mut ledger, &kind, "farm".to_string(), origin("barley", "field 3")).unwrap();
    let oats = create(&mut ledger, &kind, "farm".to_string(), origin("oats", "field 4")).unwrap();
    let moved = rebase(
        &mut ledger,
        &kind,
        "farm".to_string(),
        "mill".to_string(),
        barley.id.clone(),
        barley.created_at,
    );
    assert_eq!(moved, Ok(barley.address.clone()));
    assert_eq!(list(&mut ledger, &kind, "mill".to_string()), Ok(vec![barley.clone()]));
    assert_eq!(list(&mut ledger, &kind, "farm".to_string()), Ok(vec![oats]));
    // The handle is the same under the new base.
    let removed = delete(
        &mut ledger,
        &kind,
        "mill".to_string(),
        barley.id.clone(),
        barley.created_at,
        barley.address.clone(),
    );
    assert_eq!(removed, Ok(barley.address));
}

#[test]
fn rebase_of_an_unknown_handle_is_not_found() {
    let kind = origin_kind();
    let mut ledger = Ledger::new();
    let barley = create(&mut ledger, &kind, "farm".to_string(), origin("barley", "field 3")).unwrap();
    let from_elsewhere = rebase(
        &mut ledger,
        &kind,
        "mill".to_string(),
        "farm".to_string(),
        barley.id.clone(),
        barley.created_at,
    );
    assert_eq!(from_elsewhere, Err(Failure::NotFound));
    let wrong_time = rebase(
        &mut ledger,
        &kind,
        "farm".to_string(),
        "mill".to_string(),
        barley.id.clone(),
        barley.created_at - 1,
    );
    assert_eq!(wrong_time, Err(Failure::NotFound));
    assert_eq!(list(&mut ledger, &kind, "farm".to_string()), Ok(vec![barley]));
    assert_eq!(list(&mut ledger, &kind, "mill".to_string()), Ok(vec![]));
}

#[test]
fn rebase_onto_the_same_base_keeps_the_record_there() {
    let kind = origin_kind();
    let mut ledger = Ledger::new();
    let barley = create(&mut ledger, &kind, "farm".to_string(), origin("barley", "field 3")).unwrap();
    let moved = rebase(
        &mut ledger,
        &kind,
        "farm".to_string(),
        "farm".to_string(),
        barley.id.clone(),
        barley.created_at,
    );
    assert_eq!(moved, Ok(barley.address.clone()));
    assert_eq!(list(&mut ledger, &kind, "farm".to_string()), Ok(vec![barley]));
}

#[test]
fn a_payload_of_the_wrong_shape_is_refused_before_anything_is_written() {
    let kind = origin_kind();
    let mut ledger = Ledger::new();
    let too_short = vec![Field { name: "name".to_string(), value: "barley".to_string() }];
    assert_eq!(
        create(&mut ledger, &kind, "farm".to_string(), too_short),
        Err(Failure::ValidationFailure)
    );
    let wrong_name = vec![
        Field { name: "name".to_string(), value: "barley".to_string() },
        Field { name: "spot".to_string(), value: "field 3".to_string() },
    ];
    assert_eq!(
        create(&mut ledger, &kind, "farm".to_string(), wrong_name),
        Err(Failure::ValidationFailure)
    );
    let wrong_order = vec![
        Field { name: "place".to_string(), value: "field 3".to_string() },
        Field { name: "name".to_string(), value: "barley".to_string() },
    ];
    assert_eq!(
        create(&mut ledger, &kind, "farm".to_string(), wrong_order),
        Err(Failure::ValidationFailure)
    );
    let too_long = vec![
        Field { name: "name".to_string(), value: "barley".to_string() },
        Field { name: "place".to_string(), value: "field 3".to_string() },
        Field { name: "more".to_string(), value: "".to_string() },
    ];
    assert_eq!(
        create(&mut ledger, &kind, "farm".to_string(), too_long),
        Err(Failure::ValidationFailure)
    );
    assert_eq!(origins::anchors::list_anchor_type_tags(&ledger), Ok(vec![]));
    assert_eq!(list(&mut ledger, &kind, "farm".to_string()), Ok(vec![]));
}

#[test]
fn update_refuses_a_payload_of_the_wrong_shape() {
    let kind = profile_kind();
    let mut ledger = Ledger::new();
    let ann = create(&mut ledger, &kind, "team".to_string(), profile("ann")).unwrap();
    let attempt = update(
        &mut ledger,
        &kind,
        ann.id.clone(),
        ann.created_at,
        ann.address.clone(),
        origin("barley", "field 3"),
    );
    assert_eq!(attempt, Err(Failure::ValidationFailure));
    assert_eq!(list(&mut ledger, &kind, "team".to_string()), Ok(vec![ann]));
}

#[test]
fn a_ledger_that_is_off_line_is_unavailable_to_every_operation() {
    let kind = profile_kind();
    let mut ledger = Ledger::new();
    let ann = create(&mut ledger, &kind, "team".to_string(), profile("ann")).unwrap();
    ledger.set_online(false);
    assert!(!ledger.is_online());
    assert_eq!(
        create(&mut ledger, &kind, "team".to_string(), profile("bob")),
        Err(Failure::StoreUnavailable)
    );
    assert_eq!(
        read(&mut ledger, &kind, ann.id.clone(), ann.created_at),
        Err(Failure::StoreUnavailable)
    );
    assert_eq!(
        update(&mut ledger, &kind, ann.id.clone(), ann.created_at, ann.address.clone(), profile("anne")),
        Err(Failure::StoreUnavailable)
    );
    assert_eq!(
        delete(&mut ledger, &kind, "team".to_string(), ann.id.clone(), ann.created_at, ann.address.clone()),
        Err(Failure::StoreUnavailable)
    );
    assert_eq!(list(&mut ledger, &kind, "team".to_string()), Err(Failure::StoreUnavailable));
    assert_eq!(
        rebase(&mut ledger, &kind, "team".to_string(), "guests".to_string(), ann.id.clone(), ann.created_at),
        Err(Failure::StoreUnavailable)
    );
    // A payload of the wrong shape is refused without asking the ledger.
    assert_eq!(
        create(&mut ledger, &kind, "team".to_string(), vec![]),
        Err(Failure::ValidationFailure)
    );
    ledger.set_online(true);
    assert_eq!(list(&mut ledger, &kind, "team".to_string()), Ok(vec![ann]));
}

#[test]
fn create_is_unavailable_when_the_clock_has_run_out() {
    let kind = profile_kind();
    let mut ledger = Ledger::starting_at(i64::MAX);
    assert_eq!(
        create(&mut ledger, &kind, "team".to_string(), profile("ann")),
        Err(Failure::StoreUnavailable)
    );
    // The entry was written and the anchor made before the clock was read.
    assert_eq!(origins::anchors::list_anchor_tags(&ledger, "profiles".to_string()), Ok(vec!["team".to_string()]));
    assert_eq!(list(&mut ledger, &kind, "team".to_string()), Ok(vec![]));
}

#[test]
fn create_is_unavailable_when_the_time_cannot_stand_in_a_tag() {
    let kind = profile_kind();
    // The last time that prints as a date is the start of the last day of
    // the year 9999.
    let last = 253_402_214_400_000_000;
    let mut ledger = Ledger::starting_at(last);
    assert_eq!(
        create(&mut ledger, &kind, "team".to_string(), profile("ann")),
        Err(Failure::StoreUnavailable)
    );
    assert_eq!(list(&mut ledger, &kind, "team".to_string()), Ok(vec![]));
    let mut ledger = Ledger::starting_at(last - 1);
    let ann = create(&mut ledger, &kind, "team".to_string(), profile("ann")).unwrap();
    assert_eq!(ann.created_at, last);
    assert_eq!(tag_of(ann.created_at), "9999-12-31T00:00:00Z");
}

#[test]
fn list_fails_on_a_link_whose_tag_holds_no_creation_time() {
    let kind = profile_kind();
    let mut ledger = Ledger::new();
    let ann = create(&mut ledger, &kind, "team".to_string(), profile("ann")).unwrap();
    let anchor = origins::anchors::resolve_or_create(&mut ledger, "profiles".to_string(), "team".to_string()).unwrap();
    let stray = Action::Link {
        base: anchor,
        target: ann.address.clone(),
        link_type: "profile_link".to_string(),
        tag: "yesterday".to_string(),
    };
    assert_eq!(ledger.perform(stray), Event::Done);
    assert_eq!(list(&mut ledger, &kind, "team".to_string()), Err(Failure::NotFound));
}

#[test]
fn list_reads_the_creation_time_from_the_tag() {
    let kind = profile_kind();
    let mut ledger = Ledger::new();
    let ann = create(&mut ledger, &kind, "team".to_string(), profile("ann")).unwrap();
    let anchor = origins::anchors::resolve_or_create(&mut ledger, "profiles".to_string(), "team".to_string()).unwrap();
    // The same link under a tag written with an offset reads as another handle
    // of the same entry.
    let offset = Action::Link {
        base: anchor,
        target: ann.address.clone(),
        link_type: "profile_link".to_string(),
        tag: "2020-05-05T21:16:04.266431+02:00".to_string(),
    };
    assert_eq!(ledger.perform(offset), Event::Done);
    let listed = list(&mut ledger, &kind, "team".to_string()).unwrap();
    assert_eq!(listed.len(), 2);
    assert_eq!(listed[0], ann);
    assert_eq!(listed[1].address, ann.address);
    assert_eq!(listed[1].created_at, 1_588_706_164_266_431);
    assert_eq!(tag_of(listed[1].created_at), "2020-05-05T19:16:04.266431Z");
}

/// Carries an operation through and lists a base just before each request
/// of one sort is made.
fn run_and_watch(
    ledger: &mut Ledger,
    kind: &Kind,
    first: origins::protocol::Step,
    watched: &str,
    pause_at: fn(&Action) -> bool,
) -> (origins::protocol::Outcome, Vec<Result<Vec<Record>, Failure>>) {
    let mut seen = Vec::new();
    let mut step = first;
    loop {
        match step {
            origins::protocol::Step::Finished(outcome) => return (outcome, seen),
            origins::protocol::Step::Ask(phase, action) => {
                if pause_at(&action) {
                    seen.push(list(ledger, kind, watched.to_string()));
                }
                let event = ledger.perform(action);
                step = origins::protocol::advance(kind, phase, event);
            }
        }
    }
}

#[test]
fn a_reader_between_the_two_links_of_an_update_finds_neither_version() {
    let kind = profile_kind();
    let mut ledger = Ledger::new();
    let ann = create(&mut ledger, &kind, "team".to_string(), profile("ann")).unwrap();
    let bob = create(&mut ledger, &kind, "team".to_string(), profile("bob")).unwrap();
    let first = origins::protocol::begin_update(
        &kind,
        ann.id.clone(),
        ann.created_at,
        ann.address.clone(),
        profile("anne"),
    );
    let (outcome, seen) =
        run_and_watch(&mut ledger, &kind, first, "team", |action| matches!(action, Action::Now));
    let origins::protocol::Outcome::Record(anne) = outcome else { panic!("update did not give a record") };
    // When the clock was read the old link was gone and the new not yet there.
    assert_eq!(seen, vec![Ok(vec![bob.clone()])]);
    assert_eq!(list(&mut ledger, &kind, "team".to_string()), Ok(vec![bob, anne]));
}

#[test]
fn a_reader_between_the_two_links_of_a_rebase_finds_the_record_under_neither_base() {
    let kind = origin_kind();
    let mut ledger = Ledger::new();
    let barley = create(&mut ledger, &kind, "farm".to_string(), origin("barley", "field 3")).unwrap();
    let first = origins::protocol::begin_rebase(
        &kind,
        "farm".to_string(),
        "mill".to_string(),
        barley.id.clone(),
        barley.created_at,
    );
    let mut ledger_at_link = Vec::new();
    let mut step = first;
    let outcome = loop {
        match step {
            origins::protocol::Step::Finished(outcome) => break outcome,
            origins::protocol::Step::Ask(phase, action) => {
                if matches!(action, Action::Link { .. }) {
                    ledger_at_link.push(list(&mut ledger, &kind, "farm".to_string()));
                    ledger_at_link.push(list(&mut ledger, &kind, "mill".to_string()));
                }
                let event = ledger.perform(action);
                step = origins::protocol::advance(&kind, phase, event);
            }
        }
    };
    assert_eq!(outcome, origins::protocol::Outcome::Address(barley.address.clone()));
    assert_eq!(ledger_at_link, vec![Ok(vec![]), Ok(vec![])]);
    assert_eq!(list(&mut ledger, &kind, "mill".to_string()), Ok(vec![barley]));
}

#[test]
fn an_update_that_loses_the_store_after_unlinking_leaves_the_record_unindexed() {
    let kind = profile_kind();
    let mut ledger = Ledger::new();
    let ann = create(&mut ledger, &kind, "team".to_string(), profile("ann")).unwrap();
    let mut step = origins::protocol::begin_update(
        &kind,
        ann.id.clone(),
        ann.created_at,
        ann.address.clone(),
        profile("anne"),
    );
    let outcome = loop {
        match step {
            origins::protocol::Step::Finished(outcome) => break outcome,
            origins::protocol::Step::Ask(phase, action) => {
                if matches!(action, Action::Now) {
                    ledger.set_online(false);
                }
                let event = ledger.perform(action);
                step = origins::protocol::advance(&kind, phase, event);
            }
        }
    };
    assert_eq!(outcome, origins::protocol::Outcome::Failed(Failure::StoreUnavailable));
    ledger.set_online(true);
    // Nothing is undone: the old link stays removed.
    assert_eq!(list(&mut ledger, &kind, "team".to_string()), Ok(vec![]));
    assert_eq!(read(&mut ledger, &kind, ann.id.clone(), ann.created_at), Ok(ann));
}

#[test]
fn a_reader_between_the_two_steps_of_a_delete_finds_the_entry_but_not_the_link() {
    let kind = profile_kind();
    let mut ledger = Ledger::new();
    let ann = create(&mut ledger, &kind, "team".to_string(), profile("ann")).unwrap();
    let first = origins::protocol::begin_delete(
        &kind,
        "team".to_string(),
        ann.id.clone(),
        ann.created_at,
        ann.address.clone(),
    );
    let (outcome, seen) = run_and_watch(&mut ledger, &kind, first, "team", |action| {
        matches!(action, Action::Retire { .. })
    });
    assert_eq!(outcome, origins::protocol::Outcome::Address(ann.address.clone()));
    assert_eq!(seen, vec![Ok(vec![])]);
}
