use xai_gork_telegram::notes::{chrono_lite_now, Note, NoteQueue};

#[test]
fn enqueue_pop() {
    let mut q = NoteQueue::new();
    let n = q.enqueue("hello".to_string(), Some("s1".into()), None, false);
    assert_eq!(q.count(), 1);
    let p = q.pop_next().unwrap();
    assert_eq!(p.id, n.id);
    assert_eq!(q.count(), 0);
}

fn note(id: &str, text: &str) -> Note {
    Note {
        id: id.to_string(),
        text: text.to_string(),
        session_id: None,
        created_at: "0".to_string(),
        media_path: None,
        is_image: false,
    }
}

#[test]
fn queue_is_first_in_first_out() {
    let mut q = NoteQueue::new();
    q.push_note("a".into(), "one".into(), None, "1".into(), None, false);
    q.push_note("b".into(), "two".into(), Some("s".into()), "2".into(), Some("/p.jpg".into()), true);
    let listed = q.list();
    assert_eq!(listed.len(), 2);
    assert_eq!(listed[1].media_path.as_deref(), Some("/p.jpg"));
    assert_eq!(q.pop_next().unwrap().text, "one");
    assert_eq!(q.pop_next().unwrap().text, "two");
    assert!(q.pop_next().is_none());
}

#[test]
fn enqueued_note_has_uuid_and_unix_time() {
    let mut q = NoteQueue::new();
    let n = q.enqueue("photo".to_string(), None, Some("/tmp/x.jpg".into()), true);
    assert_eq!(n.id.len(), 36);
    assert_eq!(&n.id[14..15], "4");
    assert_eq!(n.id.matches('-').count(), 4);
    assert!(n.created_at.chars().all(|c| c.is_ascii_digit()));
    assert!(n.created_at.parse::<u64>().unwrap() > 1_600_000_000);
    assert!(n.is_image);
    let m = q.enqueue("again".to_string(), None, None, false);
    assert_ne!(n.id, m.id);
    assert!(chrono_lite_now().parse::<u64>().is_ok());
}

#[test]
fn remove_drops_every_note_with_the_id() {
    let mut q = NoteQueue::from_notes(vec![note("x", "1"), note("y", "2"), note("x", "3")]);
    assert!(q.remove("x"));
    let left = q.list();
    assert_eq!(left.len(), 1);
    assert_eq!(left[0].text, "2");
    assert!(!q.remove("x"));
    assert!(!q.remove("zzz"));
    assert_eq!(q.count(), 1);
}

#[test]
fn clear_reports_how_many() {
    let mut q = NoteQueue::from_notes(vec![note("a", "1"), note("b", "2")]);
    assert_eq!(q.clear(), 2);
    assert_eq!(q.count(), 0);
    assert_eq!(q.clear(), 0);
    assert!(q.into_notes().is_empty());
}

#[test]
fn enqueued_notes_list_in_order() {
    let mut q = NoteQueue::new();
    let a = q.enqueue("a".to_string(), None, None, false);
    let b = q.enqueue("b".to_string(), Some("s".into()), Some("/p.png".into()), true);
    let c = q.enqueue("c".to_string(), None, None, false);
    let listed = q.list();
    assert_eq!(listed.iter().map(|n| n.id.clone()).collect::<Vec<_>>(), vec![a.id, b.id, c.id]);
    assert_eq!(listed.iter().map(|n| n.text.as_str()).collect::<Vec<_>>(), vec!["a", "b", "c"]);
    assert_eq!(q.count(), 3);
    // listing leaves the queue as it is
    assert_eq!(q.list().len(), 3);
    assert_eq!(listed[1].media_path.as_deref(), Some("/p.png"));
    assert!(listed[1].is_image);
}

#[test]
fn enqueue_then_remove_restores_the_queue() {
    let mut q = NoteQueue::new();
    q.enqueue("a".to_string(), None, None, false);
    q.enqueue("b".to_string(), None, None, false);
    let before: Vec<String> = q.list().iter().map(|n| n.id.clone()).collect();
    let n = q.enqueue("c".to_string(), None, None, false);
    assert!(q.remove(&n.id));
    let after: Vec<String> = q.list().iter().map(|n| n.id.clone()).collect();
    assert_eq!(after, before);
}
