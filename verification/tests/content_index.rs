use oxicloud::content_index::{
    drain_interval_ms, final_deletes, keep_draining, plan_drain, sweep_due, truncate_on_char,
};

#[test]
fn truncates_on_char_boundary() {
    assert_eq!(truncate_on_char("patatas", 4), "pata");
    assert_eq!(truncate_on_char("ñoño", 4), "ño");
    assert_eq!(truncate_on_char("ok", 10), "ok");
}

#[test]
fn truncate_to_zero_and_exact() {
    assert_eq!(truncate_on_char("ñ", 1), "");
    assert_eq!(truncate_on_char("abc", 3), "abc");
    assert_eq!(truncate_on_char("abc", 0), "");
}

#[test]
fn latest_op_per_file_wins() {
    let rows = vec![(1i64, 10u128, true), (2, 11, true), (3, 10, false), (4, 12, false), (5, 12, true)];
    let plan = plan_drain(&rows);
    assert_eq!(plan.drained_ids, vec![1, 2, 3, 4, 5]);
    let mut up = plan.upserts.clone();
    up.sort();
    assert_eq!(up, vec![11, 12]);
    assert_eq!(plan.deletes, vec![10]);
}

#[test]
fn vanished_upserts_become_deletes() {
    let r = final_deletes(&vec![1], &vec![2, 3], &vec![3]);
    let mut r = r;
    r.sort();
    assert_eq!(r, vec![1, 2]);
}

#[test]
fn drain_cadence_rules() {
    assert!(keep_draining(Some(256)));
    assert!(!keep_draining(Some(255)));
    assert!(!keep_draining(Some(0)));
    assert!(!keep_draining(None));
    assert!(sweep_due(0));
    assert!(sweep_due(2400));
    assert!(!sweep_due(2399));
    assert_eq!(drain_interval_ms(50), 200);
    assert_eq!(drain_interval_ms(1500), 1500);
}

#[test]
fn final_deletes_lists_each_file_once() {
    let mut r = final_deletes(&vec![1, 2, 1], &vec![2, 3, 3, 4], &vec![4]);
    r.sort();
    assert_eq!(r, vec![1, 2, 3]);
}
