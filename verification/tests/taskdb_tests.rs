//! Tests of validated mutation, the working set, and synchronization.

use taskdb::server::Server;
use taskdb::storage::InMemoryStorage;
use taskdb::taskdb::{PropertyEquals, TaskDB};
use taskdb::types::{Operation, Uuid};

fn new_uuid() -> (Uuid, uuid::Uuid) {
    let outer = uuid::Uuid::new_v4();
    (Uuid::new(outer.as_u128()), outer)
}

fn newdb() -> TaskDB {
    TaskDB::new(InMemoryStorage::new())
}

#[test]
fn test_apply_create() {
    let mut db = TaskDB::new_inmemory();
    let (uuid, _) = new_uuid();
    let op = Operation::Create { uuid };
    db.apply(op.clone()).unwrap();

    assert_eq!(db.sorted_tasks(), vec![(uuid, vec![])]);
    assert_eq!(db.operations(), vec![op]);
}

#[test]
fn test_apply_create_exists() {
    let mut db = TaskDB::new_inmemory();
    let (uuid, outer) = new_uuid();
    let op = Operation::Create { uuid };
    db.apply(op.clone()).unwrap();
    assert_eq!(
        db.apply(op.clone()).err().unwrap().message(),
        format!("Task Database Error: Task {} already exists", outer)
    );

    assert_eq!(db.sorted_tasks(), vec![(uuid, vec![])]);
    assert_eq!(db.operations(), vec![op]);
}

#[test]
fn test_apply_create_update() {
    let mut db = TaskDB::new_inmemory();
    let (uuid, _) = new_uuid();
    let op1 = Operation::Create { uuid };
    db.apply(op1.clone()).unwrap();
    let op2 = Operation::Update {
        uuid,
        property: String::from("title"),
        value: Some("my task".into()),
        timestamp: 1,
    };
    db.apply(op2.clone()).unwrap();

    assert_eq!(
        db.sorted_tasks(),
        vec![(uuid, vec![("title".into(), "my task".into())])]
    );
    assert_eq!(db.operations(), vec![op1, op2]);
}

#[test]
fn test_apply_create_update_delete_prop() {
    let mut db = TaskDB::new_inmemory();
    let (uuid, _) = new_uuid();
    let op1 = Operation::Create { uuid };
    db.apply(op1.clone()).unwrap();

    let op2 = Operation::Update {
        uuid,
        property: String::from("title"),
        value: Some("my task".into()),
        timestamp: 1,
    };
    db.apply(op2.clone()).unwrap();

    let op3 = Operation::Update {
        uuid,
        property: String::from("priority"),
        value: Some("H".into()),
        timestamp: 2,
    };
    db.apply(op3.clone()).unwrap();

    let op4 = Operation::Update {
        uuid,
        property: String::from("title"),
        value: None,
        timestamp: 3,
    };
    db.apply(op4.clone()).unwrap();

    assert_eq!(
        db.sorted_tasks(),
        vec![(uuid, vec![("priority".into(), "H".into())])]
    );
    assert_eq!(db.operations(), vec![op1, op2, op3, op4]);
}

#[test]
fn test_apply_update_does_not_exist() {
    let mut db = TaskDB::new_inmemory();
    let (uuid, outer) = new_uuid();
    let op = Operation::Update {
        uuid,
        property: String::from("title"),
        value: Some("my task".into()),
        timestamp: 1,
    };
    assert_eq!(
        db.apply(op).err().unwrap().message(),
        format!("Task Database Error: Task {} does not exist", outer)
    );

    assert_eq!(db.sorted_tasks(), vec![]);
    assert_eq!(db.operations(), vec![]);
}

#[test]
fn test_apply_create_delete() {
    let mut db = TaskDB::new_inmemory();
    let (uuid, _) = new_uuid();
    let op1 = Operation::Create { uuid };
    db.apply(op1.clone()).unwrap();

    let op2 = Operation::Delete { uuid };
    db.apply(op2.clone()).unwrap();

    assert_eq!(db.sorted_tasks(), vec![]);
    assert_eq!(db.operations(), vec![op1, op2]);
}

#[test]
fn test_apply_delete_not_present() {
    let mut db = TaskDB::new_inmemory();
    let (uuid, outer) = new_uuid();

    let op1 = Operation::Delete { uuid };
    assert_eq!(
        db.apply(op1).err().unwrap().message(),
        format!("Task Database Error: Task {} does not exist", outer)
    );

    assert_eq!(db.sorted_tasks(), vec![]);
    assert_eq!(db.operations(), vec![]);
}

#[test]
fn rebuild_working_set() {
    let mut db = TaskDB::new_inmemory();
    let uuids = vec![
        new_uuid().0, // 0: pending, not already in working set
        new_uuid().0, // 1: pending, already in working set
        new_uuid().0, // 2: not pending, not already in working set
        new_uuid().0, // 3: not pending, already in working set
        new_uuid().0, // 4: pending, already in working set
    ];

    // add everything to the TaskDB
    for uuid in &uuids {
        db.apply(Operation::Create { uuid: *uuid }).unwrap();
    }
    for i in &[0usize, 1, 4] {
        db.apply(Operation::Update {
            uuid: uuids[*i],
            property: String::from("status"),
            value: Some("pending".into()),
            timestamp: (*i + 1) as u64,
        })
        .unwrap();
    }

    // set the existing working set as we want it
    {
        db.storage.clear_working_set();
        for i in &[1usize, 3, 4] {
            db.storage.add_to_working_set(&uuids[*i]);
        }
    }

    assert_eq!(
        db.working_set(),
        vec![None, Some(uuids[1]), Some(uuids[3]), Some(uuids[4])]
    );

    db.rebuild_working_set(&PropertyEquals {
        property: "status".into(),
        value: "pending".into(),
    });

    // uuids[1] and uuids[4] are already in the working set, so are
    // compressed to the top, and then uuids[0] is added.
    assert_eq!(
        db.working_set(),
        vec![None, Some(uuids[1]), Some(uuids[4]), Some(uuids[0])]
    );
}

#[test]
fn test_sync() {
    let mut server = Server::new();

    let mut db1 = newdb();
    db1.sync("me", &mut server);

    let mut db2 = newdb();
    db2.sync("me", &mut server);

    // make some changes in parallel to db1 and db2..
    let (uuid1, _) = new_uuid();
    db1.apply(Operation::Create { uuid: uuid1 }).unwrap();
    db1.apply(Operation::Update {
        uuid: uuid1,
        property: "title".into(),
        value: Some("my first task".into()),
        timestamp: 1,
    })
    .unwrap();

    let (uuid2, _) = new_uuid();
    db2.apply(Operation::Create { uuid: uuid2 }).unwrap();
    db2.apply(Operation::Update {
        uuid: uuid2,
        property: "title".into(),
        value: Some("my second task".into()),
        timestamp: 2,
    })
    .unwrap();

    // and synchronize those around
    db1.sync("me", &mut server);
    db2.sync("me", &mut server);
    db1.sync("me", &mut server);
    assert_eq!(db1.sorted_tasks(), db2.sorted_tasks());

    // now make updates to the same task on both sides
    db1.apply(Operation::Update {
        uuid: uuid2,
        property: "priority".into(),
        value: Some("H".into()),
        timestamp: 3,
    })
    .unwrap();
    db2.apply(Operation::Update {
        uuid: uuid2,
        property: "project".into(),
        value: Some("personal".into()),
        timestamp: 4,
    })
    .unwrap();

    // and synchronize those around
    db1.sync("me", &mut server);
    db2.sync("me", &mut server);
    db1.sync("me", &mut server);
    assert_eq!(db1.sorted_tasks(), db2.sorted_tasks());
}

#[test]
fn test_sync_create_delete() {
    let mut server = Server::new();

    let mut db1 = newdb();
    db1.sync("me", &mut server);

    let mut db2 = newdb();
    db2.sync("me", &mut server);

    // create and update a task..
    let (uuid, _) = new_uuid();
    db1.apply(Operation::Create { uuid }).unwrap();
    db1.apply(Operation::Update {
        uuid,
        property: "title".into(),
        value: Some("my first task".into()),
        timestamp: 1,
    })
    .unwrap();

    // and synchronize those around
    db1.sync("me", &mut server);
    db2.sync("me", &mut server);
    db1.sync("me", &mut server);
    assert_eq!(db1.sorted_tasks(), db2.sorted_tasks());

    // delete and re-create the task on db1
    db1.apply(Operation::Delete { uuid }).unwrap();
    db1.apply(Operation::Create { uuid }).unwrap();
    db1.apply(Operation::Update {
        uuid,
        property: "title".into(),
        value: Some("my second task".into()),
        timestamp: 2,
    })
    .unwrap();

    // and on db2, update a property of the task
    db2.apply(Operation::Update {
        uuid,
        property: "project".into(),
        value: Some("personal".into()),
        timestamp: 3,
    })
    .unwrap();

    db1.sync("me", &mut server);
    db2.sync("me", &mut server);
    db1.sync("me", &mut server);
    assert_eq!(db1.sorted_tasks(), db2.sorted_tasks());
}
