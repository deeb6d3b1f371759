use tokenz::{Progress, Report};

#[test]
fn test_run_ok() {
    assert_eq!(2, 2);
}

#[test]
fn rate_of_tokens_per_second() {
    let mut p = Progress::new();
    assert_eq!(p.tokens_per_second(500_000_000), 0);
    assert_eq!(p.update(5, 500_000_000), Report::Nothing);
    assert_eq!(p.line_count, 1);
    assert_eq!(p.token_count, 5);
    assert_eq!(p.tokens_per_second(500_000_000), 10);
    assert_eq!(p.tokens_per_second(0), 0);
    assert_eq!(p.finish(500_000_000), Report::Rate { tokens: 5, per_second: 10 });
    assert_eq!(p.finish(0), Report::Done);
}

#[test]
fn report_every_interval() {
    let mut p = Progress::new();
    p.update_interval = 2;
    assert_eq!(p.update(3, 1_000), Report::Nothing);
    assert_eq!(p.update(1, 1_000), Report::Rate { tokens: 4, per_second: 4_000_000 });
    assert_eq!(p.update(0, 0), Report::Nothing);
    assert_eq!(p.update(0, 0), Report::Tick);
}
