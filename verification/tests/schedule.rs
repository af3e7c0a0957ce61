use nn::data::Data;
use nn::train::{report_threshold, train_report, Report, TrainUntil};

#[test]
fn threshold_is_a_hundredth_and_at_least_one() {
    assert_eq!(report_threshold(10000), 100);
    assert_eq!(report_threshold(250), 2);
    assert_eq!(report_threshold(99), 1);
    assert_eq!(report_threshold(0), 1);
}

#[test]
fn report_schedule_for_ten_thousand_epochs() {
    assert_eq!(train_report(1000, 10000), Report::Loss);
    assert_eq!(train_report(2000, 10000), Report::Loss);
    assert_eq!(train_report(100, 10000), Report::Epoch);
    assert_eq!(train_report(900, 10000), Report::Epoch);
    assert_eq!(train_report(50, 10000), Report::Quiet);
    assert_eq!(train_report(1, 10000), Report::Quiet);
}

#[test]
fn report_schedule_for_few_epochs() {
    assert_eq!(train_report(10, 50), Report::Loss);
    assert_eq!(train_report(3, 50), Report::Epoch);
    assert_eq!(train_report(20, 50), Report::Loss);
}

#[test]
fn until_stops_when_target_reached() {
    let mut t = TrainUntil::new();
    let d = t.step(7, true, true);
    assert!(d.stop);
    assert!(!d.report);
    assert_eq!(t.force_break(), 0);
}

#[test]
fn until_checks_every_hundred_epochs() {
    let mut t = TrainUntil::new();
    let d = t.step(99, false, true);
    assert!(!d.stop && !d.report && !d.stalled);
    let d = t.step(100, false, false);
    assert!(!d.stop && d.report && !d.stalled);
    assert_eq!(t.force_break(), 0);
    let d = t.step(200, false, true);
    assert!(!d.stop && d.report && d.stalled);
    assert_eq!(t.force_break(), 1);
}

#[test]
fn until_gives_up_after_ten_stalls() {
    let mut t = TrainUntil::new();
    for k in 1..10 {
        let d = t.step(100 * k, false, true);
        assert!(!d.stop);
    }
    assert_eq!(t.force_break(), 9);
    // a stall between checks does not count
    let d = t.step(1050, false, true);
    assert!(!d.stop);
    let d = t.step(1100, false, true);
    assert!(d.stop && d.report && d.stalled);
    assert_eq!(t.force_break(), 10);
}

#[test]
fn data_views_and_chunks() {
    static S: [f64; 5] = [1.0, 2.0, 3.0, 4.0, 5.0];
    let d = Data::Static(&S);
    assert_eq!(d.len(), 5);
    assert_eq!(*d.index(2), 3.0);
    let c = d.chunks(2);
    assert_eq!(c.len(), 3);
    assert_eq!(c[0], &[1.0, 2.0]);
    assert_eq!(c[1], &[3.0, 4.0]);
    assert_eq!(c[2], &[5.0]);
    let b: Data<f64> = Data::Box(vec![1.0, 2.0, 3.0, 4.0]);
    let c = b.chunks(2);
    assert_eq!(c.len(), 2);
    assert_eq!(b.data(), &[1.0, 2.0, 3.0, 4.0]);
    let e: Data<f64> = Data::default();
    assert!(matches!(e, Data::Box(_)));
    assert_eq!(e.len(), 0);
    assert_eq!(e.chunks(3).len(), 0);
}
