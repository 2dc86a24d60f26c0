use tg_rcore::proc_rel::{ProcRel, ProcRelations, INIT_PID, NO_PARENT, STILL_RUNNING};

#[test]
fn wait_any_reports_running_children() {
    let mut r = ProcRel::new(NO_PARENT);
    assert_eq!(r.wait_any_child(), None);
    r.add_child(3);
    assert_eq!(r.wait_any_child(), Some((STILL_RUNNING, -1)));
    r.del_child(3, 42);
    assert_eq!(r.children, Vec::<usize>::new());
    assert_eq!(r.wait_any_child(), Some((3, 42)));
    assert_eq!(r.wait_any_child(), None);
}

#[test]
fn wait_for_one_child() {
    let mut r = ProcRel::new(0);
    r.add_child(4);
    r.add_child(5);
    assert_eq!(r.wait_child(5), Some((STILL_RUNNING, -1)));
    assert_eq!(r.wait_child(6), None);
    r.del_child(5, 7);
    r.del_child(9, 1);
    assert_eq!(r.dead_children, vec![(5, 7)]);
    assert_eq!(r.wait_child(5), Some((5, 7)));
    assert_eq!(r.wait_child(5), None);
    assert_eq!(r.children, vec![4]);
}

#[test]
fn exit_hands_children_to_init() {
    let mut rels = ProcRelations::new();
    rels.add_process(INIT_PID, NO_PARENT);
    rels.add_process(1, INIT_PID);
    rels.add_process(2, 1);
    rels.add_process(3, 1);
    rels.exit(1, 9);
    assert!(rels.rels.get(&1).is_none());
    let init = rels.rels.get(&INIT_PID).unwrap();
    assert_eq!(init.children, vec![2, 3]);
    assert_eq!(init.dead_children, vec![(1, 9)]);
    assert_eq!(rels.rels.get(&2).unwrap().parent, INIT_PID);
    assert_eq!(rels.wait(INIT_PID, NO_PARENT), Some((1, 9)));
    assert_eq!(rels.wait(INIT_PID, 2), Some((STILL_RUNNING, -1)));
    assert_eq!(rels.wait(77, NO_PARENT), None);
}
