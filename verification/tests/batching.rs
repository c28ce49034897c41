use vpo_core::progress::{at_report_point, batch_end, final_report_due};

#[test]
fn report_points_every_hundred_matches() {
    assert!(!at_report_point(0));
    assert!(!at_report_point(1));
    assert!(!at_report_point(99));
    assert!(at_report_point(100));
    assert!(!at_report_point(150));
    assert!(at_report_point(200));
}

#[test]
fn final_report_owed_unless_count_already_seen() {
    assert!(final_report_due(0));
    assert!(final_report_due(1));
    assert!(!final_report_due(100));
    assert!(final_report_due(101));
    assert!(!final_report_due(300));
}

#[test]
fn batches_cover_the_input_in_hundreds() {
    assert_eq!(batch_end(250, 0), 100);
    assert_eq!(batch_end(250, 100), 200);
    assert_eq!(batch_end(250, 200), 250);
    assert_eq!(batch_end(50, 0), 50);
    assert_eq!(batch_end(100, 0), 100);
}
