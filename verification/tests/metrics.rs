use crowdcontrol::metrics::Counter;
use crowdcontrol::metrics::Gauge;
use crowdcontrol::metrics::SharedCounter;
use crowdcontrol::metrics::SharedGauge;
use crowdcontrol::metrics::SimpleCounter;
use crowdcontrol::metrics::SimpleGauge;

#[test]
fn test_counters() {
    let mut counters = Vec::<Box<dyn Counter>>::new();
    counters.push(Box::new(SimpleCounter::new(0i64)));
    counters.push(Box::new(SharedCounter::new(0i64)));

    for mut c in counters {
        assert_eq!(c.get(), 0);
        c.inc(1);
        assert_eq!(c.get(), 1);
        c.dec(1);
        assert_eq!(c.get(), 0);

        c.dec(-1);
        assert_eq!(c.get(), 1);
        c.inc(-1);
        assert_eq!(c.get(), 0);
    }
}

#[test]
fn test_gauge() {
    let mut gauges = Vec::<Box<dyn Gauge<i64>>>::new();
    gauges.push(Box::new(SimpleGauge::new(Some(0i64))));
    gauges.push(Box::new(SharedGauge::new(Some(0i64))));

    for mut g in gauges {
        assert_eq!(g.get(), Some(0));
        g.set(Some(5));
        assert_eq!(g.get(), Some(5))
    }
}

#[test]
fn gauge_can_be_cleared() {
    let mut gauge = SharedGauge::new(Some(3i64));
    gauge.set(None);
    assert_eq!(gauge.get(), None);
    let mut simple: SimpleGauge<i64> = SimpleGauge::new(None);
    assert_eq!(simple.get(), None);
    simple.set(Some(7));
    assert_eq!(simple.get(), Some(7));
}
