use origins::ledger::Ledger;
use origins::lifecycle::run;
use origins::protocol::{
    advance, begin_create, begin_delete, begin_list, begin_read, begin_rebase, begin_update,
    holds_edge, list_with, stamp_with, Action, Edge, Event, Outcome, Phase, Step,
};
use origins::record::{Failure, Field, Kind, Record};

fn kind() -> Kind {
    Kind {
        name: "task".to_string(),
        anchor_type: "tasks".to_string(),
        link_type: "task_link".to_string(),
        revision_type: "task_revision".to_string(),
        schema: vec!["title".to_string()],
    }
}

fn text(s: &str) -> String {
    s.to_string()
}

fn titled(title: &str) -> Vec<Field> {
    vec![Field { name: text("title"), value: text(title) }]
}

fn edge(target: &str, tag: &str) -> Edge {
    Edge { target: text(target), tag: text(tag) }
}

fn failed(failure: Failure) -> Step {
    Step::Finished(Outcome::Failed(failure))
}

const T1: &str = "1970-01-01T00:00:00.000001Z";

#[test]
fn create_asks_for_one_thing_after_another() {
    let kind = kind();
    let step = begin_create(&kind, text("project-1"), titled("x"));
    let Step::Ask(phase, action) = step else { panic!("create ended at once") };
    assert_eq!(action, Action::Commit { kind: text("task"), payload: titled("x") });

    let Step::Ask(phase, action) = advance(&kind, phase, Event::Address(text("entry"))) else {
        panic!("create ended after the write")
    };
    assert_eq!(action, Action::Anchor { anchor_type: text("tasks"), tag: text("project-1") });

    let Step::Ask(phase, action) = advance(&kind, phase, Event::Address(text("anchor"))) else {
        panic!("create ended after the anchor")
    };
    assert_eq!(action, Action::Now);

    let Step::Ask(phase, action) = advance(&kind, phase, Event::Time(1)) else {
        panic!("create ended after the clock")
    };
    assert_eq!(
        action,
        Action::Link {
            base: text("anchor"),
            target: text("entry"),
            link_type: text("task_link"),
            tag: text(T1),
        }
    );

    let done = advance(&kind, phase, Event::Done);
    assert_eq!(
        done,
        Step::Finished(Outcome::Record(Record {
            id: text("entry"),
            created_at: 1,
            address: text("entry"),
            payload: titled("x"),
        }))
    );
}

#[test]
fn create_ends_at_once_on_a_payload_of_the_wrong_shape() {
    assert_eq!(begin_create(&kind(), text("project-1"), vec![]), failed(Failure::ValidationFailure));
    assert_eq!(
        begin_update(&kind(), text("id"), 1, text("id"), vec![]),
        failed(Failure::ValidationFailure)
    );
}

#[test]
fn read_ends_with_the_record_or_with_not_found() {
    let kind = kind();
    let Step::Ask(phase, action) = begin_read(text("entry"), 7) else { panic!("read ended at once") };
    assert_eq!(action, Action::Fetch { address: text("entry") });
    assert_eq!(
        advance(&kind, phase.clone(), Event::Payload(titled("x"))),
        Step::Finished(Outcome::Record(Record {
            id: text("entry"),
            created_at: 7,
            address: text("entry"),
            payload: titled("x"),
        }))
    );
    assert_eq!(advance(&kind, phase.clone(), Event::Missing), failed(Failure::NotFound));
    assert_eq!(advance(&kind, phase, Event::Unavailable), failed(Failure::StoreUnavailable));
}

#[test]
fn delete_removes_the_link_and_then_the_entry() {
    let kind = kind();
    let Step::Ask(phase, action) = begin_delete(&kind, text("project-1"), text("entry"), 1, text("entry"))
    else {
        panic!("delete ended at once")
    };
    assert_eq!(action, Action::Anchor { anchor_type: text("tasks"), tag: text("project-1") });
    let Step::Ask(phase, action) = advance(&kind, phase, Event::Address(text("anchor"))) else {
        panic!("delete ended after the anchor")
    };
    assert_eq!(action, Action::Links { base: text("anchor"), link_type: text("task_link") });
    let edges = vec![edge("other", T1), edge("entry", T1)];
    let Step::Ask(phase, action) = advance(&kind, phase, Event::Edges(edges)) else {
        panic!("delete ended after the links")
    };
    assert_eq!(
        action,
        Action::Unlink {
            base: text("anchor"),
            target: text("entry"),
            link_type: text("task_link"),
            tag: text(T1),
        }
    );
    let Step::Ask(phase, action) = advance(&kind, phase, Event::Done) else {
        panic!("delete ended after the unlink")
    };
    assert_eq!(action, Action::Retire { address: text("entry") });
    assert_eq!(advance(&kind, phase.clone(), Event::Done), Step::Finished(Outcome::Address(text("entry"))));
    assert_eq!(advance(&kind, phase, Event::Missing), failed(Failure::NotFound));
}

#[test]
fn delete_is_not_found_where_the_handle_is_not_among_the_links() {
    let kind = kind();
    let looking = Phase::DeleteLooking {
        anchor: text("anchor"),
        id: text("entry"),
        tag: text(T1),
        address: text("entry"),
    };
    assert_eq!(advance(&kind, looking.clone(), Event::Edges(vec![])), failed(Failure::NotFound));
    assert_eq!(
        advance(&kind, looking.clone(), Event::Edges(vec![edge("entry", "1970-01-01T00:00:00.000002Z")])),
        failed(Failure::NotFound)
    );
    let split = Phase::DeleteLooking {
        anchor: text("anchor"),
        id: text("record"),
        tag: text(T1),
        address: text("entry"),
    };
    assert_eq!(
        advance(&kind, split.clone(), Event::Edges(vec![edge("entry", T1)])),
        failed(Failure::NotFound)
    );
    assert!(matches!(
        advance(&kind, split, Event::Edges(vec![edge("entry", T1), edge("record", T1)])),
        Step::Ask(Phase::DeleteUnlinking { .. }, Action::Unlink { .. })
    ));
}

#[test]
fn list_fetches_the_entries_in_the_order_of_the_edges() {
    let kind = kind();
    let Step::Ask(phase, _) = begin_list(&kind, text("project-1")) else { panic!("list ended at once") };
    let Step::Ask(phase, action) = advance(&kind, phase, Event::Address(text("anchor"))) else {
        panic!("list ended after the anchor")
    };
    assert_eq!(action, Action::Links { base: text("anchor"), link_type: text("task_link") });
    let edges = vec![edge("a", T1), edge("b", "1970-01-01T00:00:00.000002Z")];
    let Step::Ask(phase, action) = advance(&kind, phase, Event::Edges(edges)) else {
        panic!("list ended after the links")
    };
    assert_eq!(action, Action::Fetch { address: text("a") });
    let Step::Ask(phase, action) = advance(&kind, phase, Event::Payload(titled("x"))) else {
        panic!("list ended after the first entry")
    };
    assert_eq!(action, Action::Fetch { address: text("b") });
    let done = advance(&kind, phase, Event::Payload(titled("y")));
    assert_eq!(
        done,
        Step::Finished(Outcome::Records(vec![
            Record { id: text("a"), created_at: 1, address: text("a"), payload: titled("x") },
            Record { id: text("b"), created_at: 2, address: text("b"), payload: titled("y") },
        ]))
    );
}

#[test]
fn list_ends_with_nothing_where_there_are_no_edges() {
    assert_eq!(
        advance(&kind(), Phase::ListLooking, Event::Edges(vec![])),
        Step::Finished(Outcome::Records(vec![]))
    );
}

#[test]
fn list_is_not_found_on_a_missing_entry_or_a_tag_without_a_time() {
    let kind = kind();
    assert_eq!(
        advance(&kind, Phase::ListLooking, Event::Edges(vec![edge("a", "no time")])),
        failed(Failure::NotFound)
    );
    let reading = Phase::ListReading { edges: vec![edge("a", T1)], next: 0, created_at: 1, records: vec![] };
    assert_eq!(advance(&kind, reading, Event::Missing), failed(Failure::NotFound));
    assert_eq!(list_with(vec![edge("a", T1)], 0, None, vec![]), failed(Failure::NotFound));
    assert_eq!(list_with(vec![edge("a", T1)], 1, None, vec![]), Step::Finished(Outcome::Records(vec![])));
    assert!(matches!(
        list_with(vec![edge("a", T1)], 0, Some(5), vec![]),
        Step::Ask(Phase::ListReading { next: 0, created_at: 5, .. }, Action::Fetch { .. })
    ));
}

#[test]
fn a_phase_that_points_past_its_edges_ends_as_unavailable() {
    let kind = kind();
    let reading = Phase::ListReading { edges: vec![], next: 0, created_at: 1, records: vec![] };
    assert_eq!(advance(&kind, reading, Event::Payload(titled("x"))), failed(Failure::StoreUnavailable));
    let searching = Phase::UpdateSearching {
        anchors: vec![],
        next: 3,
        id: text("a"),
        tag: text(T1),
        address: text("a"),
        fresh: text("b"),
        payload: titled("x"),
    };
    assert_eq!(advance(&kind, searching, Event::Edges(vec![])), failed(Failure::StoreUnavailable));
}

#[test]
fn rebase_resolves_both_anchors_and_moves_the_link() {
    let kind = kind();
    let Step::Ask(phase, action) = begin_rebase(&kind, text("a"), text("b"), text("entry"), 1) else {
        panic!("rebase ended at once")
    };
    assert_eq!(action, Action::Anchor { anchor_type: text("tasks"), tag: text("a") });
    let Step::Ask(phase, action) = advance(&kind, phase, Event::Address(text("from"))) else {
        panic!("rebase ended after the first anchor")
    };
    assert_eq!(action, Action::Anchor { anchor_type: text("tasks"), tag: text("b") });
    let Step::Ask(phase, action) = advance(&kind, phase, Event::Address(text("to"))) else {
        panic!("rebase ended after the second anchor")
    };
    assert_eq!(action, Action::Links { base: text("from"), link_type: text("task_link") });
    assert_eq!(advance(&kind, phase.clone(), Event::Edges(vec![])), failed(Failure::NotFound));
    let Step::Ask(phase, action) = advance(&kind, phase, Event::Edges(vec![edge("entry", T1)])) else {
        panic!("rebase ended after the links")
    };
    assert_eq!(
        action,
        Action::Unlink { base: text("from"), target: text("entry"), link_type: text("task_link"), tag: text(T1) }
    );
    let Step::Ask(phase, action) = advance(&kind, phase, Event::Done) else {
        panic!("rebase ended after the unlink")
    };
    assert_eq!(
        action,
        Action::Link { base: text("to"), target: text("entry"), link_type: text("task_link"), tag: text(T1) }
    );
    assert_eq!(advance(&kind, phase, Event::Done), Step::Finished(Outcome::Address(text("entry"))));
}

#[test]
fn update_searches_the_anchors_and_links_the_new_version_twice() {
    let kind = kind();
    let Step::Ask(phase, action) = begin_update(&kind, text("old"), 1, text("old"), titled("y")) else {
        panic!("update ended at once")
    };
    assert_eq!(action, Action::Commit { kind: text("task"), payload: titled("y") });
    let Step::Ask(phase, action) = advance(&kind, phase, Event::Address(text("new"))) else {
        panic!("update ended after the write")
    };
    assert_eq!(action, Action::Anchors { anchor_type: text("tasks") });
    let anchors = vec![text("one"), text("two")];
    let Step::Ask(phase, action) = advance(&kind, phase, Event::Addresses(anchors)) else {
        panic!("update ended after the anchors")
    };
    assert_eq!(action, Action::Links { base: text("one"), link_type: text("task_link") });
    let Step::Ask(phase, action) = advance(&kind, phase, Event::Edges(vec![edge("else", T1)])) else {
        panic!("update ended after the first anchor")
    };
    assert_eq!(action, Action::Links { base: text("two"), link_type: text("task_link") });
    let Step::Ask(phase, action) = advance(&kind, phase, Event::Edges(vec![edge("old", T1)])) else {
        panic!("update ended after the second anchor")
    };
    assert_eq!(
        action,
        Action::Unlink { base: text("two"), target: text("old"), link_type: text("task_link"), tag: text(T1) }
    );
    let Step::Ask(phase, action) = advance(&kind, phase, Event::Done) else {
        panic!("update ended after the unlink")
    };
    assert_eq!(action, Action::Now);
    let Step::Ask(phase, action) = advance(&kind, phase, Event::Time(2)) else {
        panic!("update ended after the clock")
    };
    let t2 = "1970-01-01T00:00:00.000002Z";
    assert_eq!(
        action,
        Action::Link { base: text("two"), target: text("new"), link_type: text("task_link"), tag: text(t2) }
    );
    let Step::Ask(phase, action) = advance(&kind, phase, Event::Done) else {
        panic!("update ended after the index link")
    };
    assert_eq!(
        action,
        Action::Link { base: text("old"), target: text("new"), link_type: text("task_revision"), tag: text(t2) }
    );
    assert_eq!(
        advance(&kind, phase, Event::Done),
        Step::Finished(Outcome::Record(Record {
            id: text("new"),
            created_at: 2,
            address: text("new"),
            payload: titled("y"),
        }))
    );
}

#[test]
fn update_is_not_found_when_no_anchor_holds_the_handle() {
    let kind = kind();
    let listing = Phase::UpdateListing {
        id: text("old"),
        tag: text(T1),
        address: text("old"),
        fresh: text("new"),
        payload: titled("y"),
    };
    assert_eq!(advance(&kind, listing.clone(), Event::Addresses(vec![])), failed(Failure::NotFound));
    let Step::Ask(phase, _) = advance(&kind, listing, Event::Addresses(vec![text("one")])) else {
        panic!("update ended after the anchors")
    };
    assert_eq!(advance(&kind, phase, Event::Edges(vec![])), failed(Failure::NotFound));
}

#[test]
fn a_time_that_does_not_read_back_ends_the_indexing() {
    let kind = kind();
    let stamping = Phase::Stamping {
        anchor: text("anchor"),
        origin: None,
        address: text("entry"),
        payload: titled("x"),
    };
    assert_eq!(advance(&kind, stamping, Event::Time(i64::MAX)), failed(Failure::StoreUnavailable));
    let refused = stamp_with(&kind, text("anchor"), None, text("entry"), titled("x"), 1, text(T1), Some(2));
    assert_eq!(refused, failed(Failure::StoreUnavailable));
    let unread = stamp_with(&kind, text("anchor"), None, text("entry"), titled("x"), 1, text(T1), None);
    assert_eq!(unread, failed(Failure::StoreUnavailable));
    let taken = stamp_with(&kind, text("anchor"), None, text("entry"), titled("x"), 1, text(T1), Some(1));
    assert!(matches!(taken, Step::Ask(Phase::Indexing { .. }, Action::Link { .. })));
}

#[test]
fn an_answer_that_fits_no_request_ends_the_operation_as_unavailable() {
    let kind = kind();
    let phases = vec![
        Phase::Committing { base: text("b"), payload: titled("x") },
        Phase::Anchoring { address: text("a"), payload: titled("x") },
        Phase::Stamping { anchor: text("a"), origin: None, address: text("a"), payload: titled("x") },
        Phase::DeleteAnchoring { id: text("a"), tag: text(T1), address: text("a") },
        Phase::DeleteLooking { anchor: text("a"), id: text("a"), tag: text(T1), address: text("a") },
        Phase::ListAnchoring,
        Phase::ListLooking,
        Phase::RebaseFrom { base_to: text("b"), id: text("a"), tag: text(T1) },
        Phase::RebaseTo { from: text("a"), id: text("a"), tag: text(T1) },
        Phase::RebaseLooking { from: text("a"), to: text("b"), id: text("a"), tag: text(T1) },
        Phase::UpdateCommitting { id: text("a"), tag: text(T1), address: text("a"), payload: titled("x") },
    ];
    for phase in phases {
        assert_eq!(advance(&kind, phase.clone(), Event::Done), failed(Failure::StoreUnavailable));
        assert_eq!(advance(&kind, phase.clone(), Event::Missing), failed(Failure::StoreUnavailable));
        assert_eq!(advance(&kind, phase, Event::Unavailable), failed(Failure::StoreUnavailable));
    }
    let waiting = vec![
        Phase::DeleteUnlinking { address: text("a") },
        Phase::RebaseUnlinking { to: text("b"), id: text("a"), tag: text(T1) },
        Phase::RebaseLinking { id: text("a") },
        Phase::UpdateUnlinking { anchor: text("a"), id: text("a"), fresh: text("b"), payload: titled("x") },
    ];
    for phase in waiting {
        assert_eq!(advance(&kind, phase.clone(), Event::Time(1)), failed(Failure::StoreUnavailable));
        assert_eq!(advance(&kind, phase, Event::Unavailable), failed(Failure::StoreUnavailable));
    }
}

#[test]
fn edges_are_found_by_target_and_tag_together() {
    let edges = vec![edge("a", "t1"), edge("b", "t2")];
    assert!(holds_edge(&edges, &text("a"), &text("t1")));
    assert!(holds_edge(&edges, &text("b"), &text("t2")));
    assert!(!holds_edge(&edges, &text("a"), &text("t2")));
    assert!(!holds_edge(&edges, &text("c"), &text("t1")));
    assert!(!holds_edge(&vec![], &text("a"), &text("t1")));
}

#[test]
fn run_carries_an_operation_through_on_a_ledger() {
    let kind = kind();
    let mut ledger = Ledger::new();
    let outcome = run(&mut ledger, &kind, begin_create(&kind, text("project-1"), titled("x")));
    let Outcome::Record(record) = outcome else { panic!("create did not give a record") };
    assert_eq!(record.created_at, 1);
    let listed = run(&mut ledger, &kind, begin_list(&kind, text("project-1")));
    assert_eq!(listed, Outcome::Records(vec![record]));
    let ended = run(&mut ledger, &kind, failed(Failure::NotFound));
    assert_eq!(ended, Outcome::Failed(Failure::NotFound));
}
