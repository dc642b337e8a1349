use fmusim_gui::{LiveSeries, SeriesMap, MAX_SERIES_POINTS, SERIES_DROP};

#[test]
fn series_push_and_clear() {
    let mut s: LiveSeries<f64> = LiveSeries::default();
    s.push(0.0, 1.5);
    s.push(0.1, 2.5);
    assert_eq!(s.time, vec![0.0, 0.1]);
    assert_eq!(s.value, vec![1.5, 2.5]);
    s.clear();
    assert!(s.time.is_empty());
    assert!(s.value.is_empty());
}

#[test]
fn full_series_drops_oldest_tenth() {
    assert_eq!(SERIES_DROP, 10_000);
    let mut s: LiveSeries<f64> = LiveSeries::new();
    for i in 0..MAX_SERIES_POINTS {
        s.push(i as f64, -(i as f64));
    }
    assert_eq!(s.time.len(), MAX_SERIES_POINTS);
    s.push(1.0e6, 7.0);
    assert_eq!(s.time.len(), MAX_SERIES_POINTS - SERIES_DROP + 1);
    assert_eq!(s.value.len(), s.time.len());
    assert_eq!(s.time[0], SERIES_DROP as f64);
    assert_eq!(s.value[0], -(SERIES_DROP as f64));
    assert_eq!(*s.time.last().unwrap(), 1.0e6);
    assert_eq!(*s.value.last().unwrap(), 7.0);
    for _ in 0..3 * MAX_SERIES_POINTS {
        s.push(0.0, 0.0);
        assert!(s.time.len() <= MAX_SERIES_POINTS);
    }
}

#[test]
fn series_map_entries() {
    let mut m: SeriesMap<f64> = SeriesMap::new();
    let a = "a".to_string();
    let b = "b".to_string();
    assert_eq!(m.len(), 0);
    assert!(m.get(&a).is_none());
    m.ensure(&a);
    m.ensure(&a);
    assert_eq!(m.len(), 1);
    assert!(m.get(&a).unwrap().time.is_empty());
    m.push(&b, 1.0, 2.0);
    m.push(&a, 0.5, 3.0);
    m.push(&a, 0.75, 4.0);
    assert_eq!(m.len(), 2);
    assert_eq!(m.get(&a).unwrap().time, vec![0.5, 0.75]);
    assert_eq!(m.get(&a).unwrap().value, vec![3.0, 4.0]);
    assert_eq!(m.get(&b).unwrap().value, vec![2.0]);
    m.clear_all();
    assert_eq!(m.len(), 2);
    assert!(m.get(&a).unwrap().time.is_empty());
    assert!(m.get(&b).unwrap().value.is_empty());
    m.ensure_all(&vec!["c".to_string(), a.clone()]);
    assert_eq!(m.len(), 3);
    m.clear();
    assert_eq!(m.len(), 0);
    assert!(m.get(&b).is_none());
}
