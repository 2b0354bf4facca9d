use todo_server::store::TodoApp;

#[test]
fn create_assigns_increasing_ids() {
    let mut app = TodoApp::new();
    let t1 = app.create_task(String::from("a"));
    let t2 = app.create_task(String::from("b"));
    let t3 = app.create_task(String::from("c"));
    assert_eq!(t1.id, 1);
    assert_eq!(t2.id, 2);
    assert_eq!(t3.id, 3);
    assert!(t1.id < t2.id && t2.id < t3.id);
}

#[test]
fn round_trip_create_then_list() {
    let mut app = TodoApp::new();
    let t = app.create_task(String::from("buy milk"));
    assert_eq!(t.completed, false);
    assert_eq!(t.description, "buy milk");
    let all = app.get_all_tasks();
    assert_eq!(all.len(), 1);
    assert_eq!(all[0].id, t.id);
    assert_eq!(all[0].description, "buy milk");
    assert_eq!(all[0].completed, false);
}

#[test]
fn many_creates_give_distinct_ids() {
    let mut app = TodoApp::new();
    let mut ids = Vec::new();
    for i in 0..20 {
        let t = app.create_task(format!("task {}", i));
        ids.push(t.id);
    }
    assert_eq!(app.get_all_tasks().len(), 20);
    for i in 0..ids.len() {
        for j in 0..ids.len() {
            if i != j {
                assert_ne!(ids[i], ids[j]);
            }
        }
    }
}

#[test]
fn deleted_id_is_never_reused() {
    let mut app = TodoApp::new();
    let t1 = app.create_task(String::from("one"));
    let _t2 = app.create_task(String::from("two"));
    let removed = app.delete_task(t1.id).expect("task one should be there");
    assert_eq!(removed.id, t1.id);
    assert_eq!(removed.description, "one");
    let listed: Vec<u32> = app.get_all_tasks().iter().map(|t| t.id).collect();
    assert!(!listed.contains(&t1.id));
    let t3 = app.create_task(String::from("three"));
    assert_ne!(t3.id, t1.id);
    let listed: Vec<u32> = app.get_all_tasks().iter().map(|t| t.id).collect();
    assert!(!listed.contains(&t1.id));
}

#[test]
fn delete_missing_returns_none() {
    let mut app = TodoApp::new();
    assert!(app.delete_task(99).is_none());
    assert_eq!(app.get_all_tasks().len(), 0);
}

#[test]
fn update_only_completed_keeps_description() {
    let mut app = TodoApp::new();
    let t = app.create_task(String::from("write tests"));
    let u = app.update_task(t.id, None, Some(true)).expect("task should be there");
    assert_eq!(u.description, "write tests");
    assert_eq!(u.completed, true);
}

#[test]
fn update_only_description_keeps_completed() {
    let mut app = TodoApp::new();
    let t = app.create_task(String::from("old text"));
    app.update_task(t.id, None, Some(true)).unwrap();
    let u = app.update_task(t.id, Some(String::from("new text")), None).unwrap();
    assert_eq!(u.description, "new text");
    assert_eq!(u.completed, true);
}

#[test]
fn update_with_neither_field_returns_record_unchanged() {
    let mut app = TodoApp::new();
    let t = app.create_task(String::from("keep me"));
    let u = app.update_task(t.id, None, None).expect("task should be there");
    assert_eq!(u.id, t.id);
    assert_eq!(u.description, "keep me");
    assert_eq!(u.completed, false);
    let all = app.get_all_tasks();
    assert_eq!(all.len(), 1);
    assert_eq!(all[0].description, "keep me");
}

#[test]
fn update_missing_returns_none() {
    let mut app = TodoApp::new();
    assert!(app.update_task(7, Some(String::from("x")), Some(true)).is_none());
    assert_eq!(app.get_all_tasks().len(), 0);
}
