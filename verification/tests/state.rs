use koyuki::persistent::{is_user_working, remaining_works, Moment, RemainingWork, UserLastTimes};
use koyuki::remote::CurrentTaskState;
use koyuki::sched::{EventHandler, MessageArena};
use std::cell::RefCell;

struct Collect(RefCell<Vec<Vec<Option<u32>>>>);

impl EventHandler<u32> for Collect {
    fn handle_batch(&self, events: Vec<Option<u32>>) {
        self.0.borrow_mut().push(events);
    }
}

#[test]
fn arena_hands_out_slots_per_time() {
    let mut a: MessageArena<u32> = MessageArena::new();
    assert_eq!(a.next_estimated_time(), None);
    assert_eq!(a.add(100, 1), 0);
    assert_eq!(a.add(100, 2), 1);
    assert_eq!(a.add(50, 3), 0);
    assert_eq!(a.next_estimated_time(), Some(50));
    a.remove(50, 0);
    assert_eq!(a.next_estimated_time(), Some(100));
}

#[test]
fn arena_processes_earliest_batch() {
    let mut a: MessageArena<u32> = MessageArena::new();
    a.add(100, 1);
    a.add(100, 2);
    a.add(200, 3);
    a.remove(100, 0);
    assert_eq!(a.process1(), Some((100, vec![None, Some(2)])));
    assert_eq!(a.next_estimated_time(), Some(200));
    assert_eq!(a.process1(), Some((200, vec![Some(3)])));
    assert_eq!(a.process1(), None);
}

#[test]
fn arena_processes_everything_due() {
    let mut a: MessageArena<u32> = MessageArena::new();
    a.add(300, 1);
    a.add(100, 2);
    a.add(200, 3);
    let h = Collect(RefCell::new(vec![]));
    for (_, batch) in a.process_due(200) {
        h.handle_batch(batch);
    }
    assert_eq!(h.0.borrow().clone(), vec![vec![Some(2)], vec![Some(3)]]);
    assert_eq!(a.next_estimated_time(), Some(300));
    assert!(a.process_due(250).is_empty());
    assert_eq!(a.process_due(300), vec![(300, vec![Some(1)])]);
}

#[test]
fn slot_counts() {
    let mut a: MessageArena<u32> = MessageArena::new();
    assert_eq!(a.slot_count(7), None);
    a.add(7, 1);
    a.add(7, 2);
    assert_eq!(a.slot_count(7), Some(2));
    a.remove(7, 0);
    assert_eq!(a.slot_count(7), Some(2));
}

#[test]
fn cancelling_a_fresh_request_leaves_nothing() {
    let mut a: MessageArena<u32> = MessageArena::new();
    let id = a.add(42, 9);
    a.remove(42, id);
    assert_eq!(a.next_estimated_time(), None);
}

#[test]
fn remaining_work_round_trip() {
    let w = RemainingWork { issue_id: 5, progress: Some((1, 3)) };
    assert_eq!(w.to_repr(), "5:1:3");
    let back = RemainingWork::from_repr(&w.to_repr()).unwrap();
    assert_eq!((back.issue_id, back.progress), (5, Some((1, 3))));
    let plain = RemainingWork { issue_id: 4294967295, progress: None };
    assert_eq!(plain.to_repr(), "4294967295");
    let back2 = RemainingWork::from_repr("4294967295").unwrap();
    assert_eq!((back2.issue_id, back2.progress), (4294967295, None));
}

#[test]
fn remaining_work_parse_edge_cases() {
    assert!(RemainingWork::from_repr("7:1").is_none());
    assert!(RemainingWork::from_repr("x").is_none());
    assert!(RemainingWork::from_repr("").is_none());
    assert!(RemainingWork::from_repr("4294967296").is_none());
    assert!(RemainingWork::from_repr("1:a:2").is_none());
    let extra = RemainingWork::from_repr("1:2:3:4").unwrap();
    assert_eq!((extra.issue_id, extra.progress), (1, Some((2, 3))));
    let plus = RemainingWork::from_repr("+8").unwrap();
    assert_eq!(plus.issue_id, 8);
}

#[test]
fn works_recorded_from_tasks() {
    let t = CurrentTaskState {
        number: 11,
        title: "t".to_string(),
        url: "u".to_string(),
        progress: (2, 5),
        is_pr: false,
        pipeline_stage_name: "Backlog".to_string(),
    };
    let ws = remaining_works(&vec![t]);
    assert_eq!(ws.len(), 1);
    assert_eq!((ws[0].issue_id, ws[0].progress), (11, Some((2, 5))));
}

#[test]
fn working_members() {
    let m = |secs: i64, nanos: u32| Moment { secs, nanos };
    assert!(!is_user_working(&None));
    assert!(is_user_working(&Some(UserLastTimes { itime: m(10, 0), otime: m(5, 0) })));
    assert!(!is_user_working(&Some(UserLastTimes { itime: m(5, 0), otime: m(10, 0) })));
    assert!(is_user_working(&Some(UserLastTimes { itime: m(5, 2), otime: m(5, 1) })));
    assert!(!is_user_working(&Some(UserLastTimes { itime: m(5, 1), otime: m(5, 1) })));
}
