//! Further tests: convergence scenarios, working-set behavior, rendering,
//! and the server's optimistic append.

use taskdb::server::{Server, Version, VersionAdd};
use taskdb::storage::InMemoryStorage;
use taskdb::taskdb::{PropertyEquals, TaskDB};
use taskdb::types::{Operation, Uuid};

fn new_uuid() -> (Uuid, uuid::Uuid) {
    let outer = uuid::Uuid::new_v4();
    (Uuid::new(outer.as_u128()), outer)
}

fn newdb() -> TaskDB {
    TaskDB::new(InMemoryStorage::new())
}

#[test]
fn two_replicas_two_tasks_exact_state() {
    // replica A creates u1 and titles it; B creates u2 and titles it; after
    // interleaved syncs both hold exactly the two titled tasks
    let mut server = Server::new();
    let mut a = newdb();
    let mut b = newdb();

    let (u1, _) = new_uuid();
    a.apply(Operation::Create { uuid: u1 }).unwrap();
    a.apply(Operation::Update {
        uuid: u1,
        property: "title".into(),
        value: Some("my first task".into()),
        timestamp: 1,
    })
    .unwrap();

    let (u2, _) = new_uuid();
    b.apply(Operation::Create { uuid: u2 }).unwrap();
    b.apply(Operation::Update {
        uuid: u2,
        property: "title".into(),
        value: Some("my second task".into()),
        timestamp: 2,
    })
    .unwrap();

    a.sync("me", &mut server);
    b.sync("me", &mut server);
    a.sync("me", &mut server);
    b.sync("me", &mut server);
    a.sync("me", &mut server);

    let mut expected = vec![
        (u1, vec![(String::from("title"), String::from("my first task"))]),
        (u2, vec![(String::from("title"), String::from("my second task"))]),
    ];
    expected.sort_by_key(|e| e.0.v);
    assert_eq!(a.sorted_tasks(), expected);
    assert_eq!(b.sorted_tasks(), expected);
}

#[test]
fn same_uuid_create_converges() {
    // both replicas create the same UUID; after the sync dance both hold
    // one empty task
    let mut server = Server::new();
    let mut a = newdb();
    let mut b = newdb();
    let (u, _) = new_uuid();

    a.apply(Operation::Create { uuid: u }).unwrap();
    b.apply(Operation::Create { uuid: u }).unwrap();

    a.sync("me", &mut server);
    b.sync("me", &mut server);
    a.sync("me", &mut server);

    assert_eq!(a.sorted_tasks(), b.sorted_tasks());
    assert_eq!(a.sorted_tasks(), vec![(u, vec![])]);
}

#[test]
fn disjoint_updates_both_survive() {
    // concurrent updates to different properties of a shared task both
    // survive a mutual sync
    let mut server = Server::new();
    let mut a = newdb();
    let mut b = newdb();
    let (u, _) = new_uuid();

    a.apply(Operation::Create { uuid: u }).unwrap();
    a.sync("me", &mut server);
    b.sync("me", &mut server);

    a.apply(Operation::Update {
        uuid: u,
        property: "priority".into(),
        value: Some("H".into()),
        timestamp: 5,
    })
    .unwrap();
    b.apply(Operation::Update {
        uuid: u,
        property: "project".into(),
        value: Some("personal".into()),
        timestamp: 6,
    })
    .unwrap();

    a.sync("me", &mut server);
    b.sync("me", &mut server);
    a.sync("me", &mut server);

    let expected = vec![(
        u,
        vec![
            (String::from("priority"), String::from("H")),
            (String::from("project"), String::from("personal")),
        ],
    )];
    assert_eq!(a.sorted_tasks(), expected);
    assert_eq!(b.sorted_tasks(), expected);
}

#[test]
fn same_property_later_timestamp_wins() {
    let mut server = Server::new();
    let mut a = newdb();
    let mut b = newdb();
    let (u, _) = new_uuid();

    a.apply(Operation::Create { uuid: u }).unwrap();
    a.sync("me", &mut server);
    b.sync("me", &mut server);

    a.apply(Operation::Update {
        uuid: u,
        property: "title".into(),
        value: Some("earlier".into()),
        timestamp: 10,
    })
    .unwrap();
    b.apply(Operation::Update {
        uuid: u,
        property: "title".into(),
        value: Some("later".into()),
        timestamp: 20,
    })
    .unwrap();

    a.sync("me", &mut server);
    b.sync("me", &mut server);
    a.sync("me", &mut server);

    let expected = vec![(u, vec![(String::from("title"), String::from("later"))])];
    assert_eq!(a.sorted_tasks(), expected);
    assert_eq!(b.sorted_tasks(), expected);
}

#[test]
fn same_property_tie_keeps_first_pushed() {
    // on an exact timestamp tie, the write that reached the server first
    // wins on every replica
    let mut server = Server::new();
    let mut a = newdb();
    let mut b = newdb();
    let (u, _) = new_uuid();

    a.apply(Operation::Create { uuid: u }).unwrap();
    a.sync("me", &mut server);
    b.sync("me", &mut server);

    a.apply(Operation::Update {
        uuid: u,
        property: "title".into(),
        value: Some("from a".into()),
        timestamp: 7,
    })
    .unwrap();
    b.apply(Operation::Update {
        uuid: u,
        property: "title".into(),
        value: Some("from b".into()),
        timestamp: 7,
    })
    .unwrap();

    a.sync("me", &mut server);
    b.sync("me", &mut server);
    a.sync("me", &mut server);

    let expected = vec![(u, vec![(String::from("title"), String::from("from a"))])];
    assert_eq!(a.sorted_tasks(), expected);
    assert_eq!(b.sorted_tasks(), expected);
}

#[test]
fn add_to_working_set_is_idempotent() {
    let mut db = TaskDB::new_inmemory();
    let (u, _) = new_uuid();
    db.apply(Operation::Create { uuid: u }).unwrap();

    let i1 = db.add_to_working_set(&u);
    let i2 = db.add_to_working_set(&u);
    assert_eq!(i1, 1);
    assert_eq!(i1, i2);
    assert_eq!(db.working_set(), vec![None, Some(u)]);
}

#[test]
fn rebuild_empty_database() {
    let mut db = TaskDB::new_inmemory();
    db.rebuild_working_set(&PropertyEquals {
        property: "status".into(),
        value: "pending".into(),
    });
    assert_eq!(db.working_set(), vec![None]);
}

#[test]
fn update_overwrites_same_property() {
    let mut db = TaskDB::new_inmemory();
    let (u, _) = new_uuid();
    db.apply(Operation::Create { uuid: u }).unwrap();
    db.apply(Operation::Update {
        uuid: u,
        property: "title".into(),
        value: Some("one".into()),
        timestamp: 1,
    })
    .unwrap();
    db.apply(Operation::Update {
        uuid: u,
        property: "title".into(),
        value: Some("two".into()),
        timestamp: 2,
    })
    .unwrap();

    assert_eq!(
        db.sorted_tasks(),
        vec![(u, vec![(String::from("title"), String::from("two"))])]
    );
}

#[test]
fn properties_come_out_sorted_by_name() {
    let mut db = TaskDB::new_inmemory();
    let (u, _) = new_uuid();
    db.apply(Operation::Create { uuid: u }).unwrap();
    for (i, name) in ["beta", "alpha", "gamma"].iter().enumerate() {
        db.apply(Operation::Update {
            uuid: u,
            property: (*name).into(),
            value: Some("x".into()),
            timestamp: i as u64,
        })
        .unwrap();
    }
    assert_eq!(
        db.sorted_tasks(),
        vec![(
            u,
            vec![
                (String::from("alpha"), String::from("x")),
                (String::from("beta"), String::from("x")),
                (String::from("gamma"), String::from("x")),
            ]
        )]
    );
}

#[test]
fn get_task_and_uuids() {
    let mut db = TaskDB::new_inmemory();
    let (u, _) = new_uuid();
    let (absent, _) = new_uuid();
    db.apply(Operation::Create { uuid: u }).unwrap();
    db.apply(Operation::Update {
        uuid: u,
        property: "title".into(),
        value: Some("here".into()),
        timestamp: 1,
    })
    .unwrap();

    let task = db.get_task(&u).unwrap();
    assert_eq!(task.get("title"), Some(String::from("here")));
    assert_eq!(task.get("missing"), None);
    if u != absent {
        assert!(db.get_task(&absent).is_none());
    }
    assert_eq!(db.all_task_uuids(), vec![u]);
}

#[test]
fn uuid_rendering_matches_reference() {
    let fixed = uuid::Uuid::parse_str("83a2f9ef-f455-4195-b92e-a54c161eebfc").unwrap();
    let ours = Uuid::new(fixed.as_u128());
    assert_eq!(taskdb::display::uuid_string(&ours), fixed.to_string());

    let random = uuid::Uuid::new_v4();
    let ours2 = Uuid::new(random.as_u128());
    assert_eq!(taskdb::display::uuid_string(&ours2), random.to_string());
}

#[test]
fn server_rejects_out_of_order_version() {
    let mut server = Server::new();
    let v1 = Version {
        version: 2,
        operations: vec![],
    };
    assert_eq!(server.add_version("me", v1), VersionAdd::Conflict);
    let v2 = Version {
        version: 1,
        operations: vec![],
    };
    assert_eq!(server.add_version("me", v2), VersionAdd::Accepted);
    assert_eq!(server.get_versions("me", 0).len(), 1);
    assert_eq!(server.get_versions("me", 1).len(), 0);
}

#[test]
fn mixed_sequences_converge() {
    // a fixed interleaving of creates, updates, deletes and syncs on one
    // shared UUID across three replicas; rejected operations are ignored,
    // and a final round of syncs brings every replica to the same state
    let mut server = Server::new();
    let mut dbs = [newdb(), newdb(), newdb()];
    let u = Uuid::new(0x83a2f9ef_f455_4195_b92e_a54c161eebfc_u128);
    let actions = vec![
        ('C', 0),
        ('U', 1),
        ('C', 1),
        ('D', 0),
        ('C', 2),
        ('U', 0),
        ('S', 0),
        ('S', 1),
        ('U', 2),
        ('S', 2),
        ('D', 1),
        ('S', 0),
        ('S', 1),
        ('S', 2),
        ('S', 0),
        ('S', 1),
    ];
    let mut ts: u64 = 0;
    for (action, i) in actions {
        let db = &mut dbs[i];
        match action {
            'C' => {
                let _ = db.apply(Operation::Create { uuid: u });
            }
            'U' => {
                ts += 1;
                let _ = db.apply(Operation::Update {
                    uuid: u,
                    property: "title".into(),
                    value: Some("foo".into()),
                    timestamp: ts,
                });
            }
            'D' => {
                let _ = db.apply(Operation::Delete { uuid: u });
            }
            _ => db.sync("me", &mut server),
        }
    }
    assert_eq!(dbs[0].sorted_tasks(), dbs[1].sorted_tasks());
    assert_eq!(dbs[1].sorted_tasks(), dbs[2].sorted_tasks());
}
