use rapidarchive::units::HRDuration;
use std::time::Duration;


#[test]
fn time_hours() {
    let my_time = Duration::new(12*60*60 + 30*60 + 14, 0);
    let fmtd = HRDuration::from(my_time).to_string();
    
    assert_eq!(fmtd, "12h30m14s");
}

#[test]
fn time_days() {
    let my_time = Duration::new(14*24*60*60 + 12*60*60 + 30*60 + 14, 0);
    let fmtd = HRDuration::from(my_time).to_string();
    
    assert_eq!(fmtd, "14d12h30m14s");
}

#[test]
fn time_nanos() {
    let my_time = Duration::new(30*60 + 14, 123);
    let fmtd = HRDuration::from(my_time).to_string();
    
    assert_eq!(fmtd, "30m14s123ns");
}
