use concurrency::metrics::Metrics;

fn key(s: &str) -> String {
    s.to_string()
}

#[test]
fn new_store_is_empty() {
    let m = Metrics::new();
    assert_eq!(m.snapshot(), Vec::<(String, i64)>::new());
    assert_eq!(m.get(&key("any")), 0);
    assert_eq!(m.to_string(), "{}");
    let d = Metrics::default();
    assert_eq!(d.snapshot(), Vec::<(String, i64)>::new());
}

#[test]
fn inc_counts_up_from_zero() {
    let mut m = Metrics::new();
    m.inc(key("req"));
    assert_eq!(m.get(&key("req")), 1);
    m.inc(key("req"));
    m.inc(key("req"));
    assert_eq!(m.get(&key("req")), 3);
    assert_eq!(m.get(&key("other")), 0);
}

#[test]
fn dec_counts_down_from_zero() {
    let mut m = Metrics::new();
    m.dec(key("conn"));
    assert_eq!(m.get(&key("conn")), -1);
    m.dec(key("conn"));
    assert_eq!(m.get(&key("conn")), -2);
    assert_eq!(m.snapshot(), vec![(key("conn"), -2)]);
}

#[test]
fn snapshot_lists_each_key_once() {
    let mut m = Metrics::new();
    m.inc(key("a"));
    m.inc(key("b"));
    m.inc(key("a"));
    m.dec(key("c"));
    let mut snap = m.snapshot();
    snap.sort();
    assert_eq!(snap, vec![(key("a"), 2), (key("b"), 1), (key("c"), -1)]);
}

#[test]
fn snapshot_is_a_copy() {
    let mut m = Metrics::new();
    m.inc(key("a"));
    let snap = m.snapshot();
    m.inc(key("a"));
    m.inc(key("b"));
    assert_eq!(snap, vec![(key("a"), 1)]);
    assert_eq!(m.get(&key("a")), 2);
}

#[test]
fn balanced_calls_leave_the_count_as_it_was() {
    let mut m = Metrics::new();
    m.inc(key("active"));
    m.inc(key("active"));
    let before = m.get(&key("active"));
    let orders: Vec<Vec<bool>> = vec![
        vec![true, false, true, false, true, false],
        vec![true, true, true, false, false, false],
        vec![false, false, false, true, true, true],
        vec![false, true, true, false, false, true],
    ];
    for order in orders {
        for up in order {
            if up {
                m.inc(key("active"));
            } else {
                m.dec(key("active"));
            }
            m.inc(key("noise"));
        }
        assert_eq!(m.get(&key("active")), before);
    }
    assert_eq!(m.get(&key("noise")), 24);
}

#[test]
fn store_is_written_out_in_order_of_first_use() {
    let mut m = Metrics::new();
    m.inc(key("req"));
    m.dec(key("err"));
    m.inc(key("req"));
    assert_eq!(m.to_string(), "{req: 2, err: -1}");
}

#[test]
fn count_back_at_zero_keeps_its_key() {
    let mut m = Metrics::new();
    m.inc(key("k"));
    m.dec(key("k"));
    assert_eq!(m.get(&key("k")), 0);
    assert_eq!(m.snapshot(), vec![(key("k"), 0)]);
    assert_eq!(m.to_string(), "{k: 0}");
}

#[test]
fn inc_and_dec_cancel_on_a_key_and_leave_others() {
    let mut m = Metrics::new();
    m.inc(key("a"));
    m.inc(key("b"));
    m.dec(key("a"));
    m.dec(key("a"));
    m.inc(key("a"));
    assert_eq!(m.get(&key("a")), 0);
    assert_eq!(m.get(&key("b")), 1);
    assert_eq!(m.snapshot(), vec![(key("a"), 0), (key("b"), 1)]);
}

#[test]
fn store_can_be_shown_for_debugging() {
    let mut m = Metrics::new();
    m.inc(key("req"));
    let shown = format!("{:?}", m);
    assert!(shown.contains("Metrics"));
    assert!(shown.contains("req"));
}
