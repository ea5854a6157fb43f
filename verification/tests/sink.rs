use statusbar::sink::{after_delivery, reports, Disposition, SinkFailure};

#[test]
fn a_delivery_that_worked_goes_on_silently() {
    assert_eq!(after_delivery(Ok(())), Disposition::Continue);
    assert!(!reports(Ok(())));
}

#[test]
fn a_transient_failure_is_reported_and_the_loop_goes_on() {
    assert_eq!(after_delivery(Err(SinkFailure::Transient)), Disposition::Continue);
    assert!(reports(Err(SinkFailure::Transient)));
}

#[test]
fn a_broken_channel_is_reported_and_stops_the_loop() {
    assert_eq!(after_delivery(Err(SinkFailure::Broken)), Disposition::Terminate);
    assert!(reports(Err(SinkFailure::Broken)));
}
