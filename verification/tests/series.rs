use bybit::kline::Kline;
use bybit::series::{dedup_by_start_time, sort_and_dedup, sort_by_start_time};

fn bar(start: u64, tag: &str) -> Kline {
    Kline {
        start_time: start,
        open_price: tag.to_string(),
        high_price: "2".to_string(),
        low_price: "0.5".to_string(),
        close_price: "1.5".to_string(),
        volume: "10".to_string(),
        turnover: "15".to_string(),
    }
}

fn marks(series: &[Kline]) -> Vec<(u64, String)> {
    series.iter().map(|k| (k.start_time, k.open_price.clone())).collect()
}

fn mark(start: u64, tag: &str) -> (u64, String) {
    (start, tag.to_string())
}

#[test]
fn sort_puts_bars_in_order_of_start_time() {
    let sorted = sort_by_start_time(vec![bar(30, "c"), bar(10, "a"), bar(20, "b")]);
    assert_eq!(marks(&sorted), vec![mark(10, "a"), mark(20, "b"), mark(30, "c")]);
}

#[test]
fn sort_keeps_the_order_of_bars_with_one_start_time() {
    let sorted = sort_by_start_time(vec![
        bar(20, "first"),
        bar(10, "x"),
        bar(20, "second"),
        bar(5, "y"),
        bar(20, "third"),
    ]);
    assert_eq!(
        marks(&sorted),
        vec![
            mark(5, "y"),
            mark(10, "x"),
            mark(20, "first"),
            mark(20, "second"),
            mark(20, "third")
        ]
    );
}

#[test]
fn sort_agrees_with_the_standard_stable_sort() {
    let mut seed: u64 = 0x2545_f491_4f6c_dd1d;
    for round in 0..200 {
        let mut bars = Vec::new();
        for at in 0..(round % 23) {
            seed ^= seed << 13;
            seed ^= seed >> 7;
            seed ^= seed << 17;
            bars.push(bar(seed % 7, &format!("{}", at)));
        }
        let mut expected = bars.clone();
        expected.sort_by_key(|k| k.start_time);
        assert_eq!(sort_by_start_time(bars), expected);
    }
}

#[test]
fn sort_leaves_a_series_in_order_as_it_is() {
    let series = vec![bar(1, "a"), bar(2, "b"), bar(2, "c"), bar(9, "d")];
    assert_eq!(sort_by_start_time(series.clone()), series);
    assert_eq!(sort_by_start_time(Vec::new()), Vec::new());
}

#[test]
fn sort_handles_a_page_that_comes_newest_first() {
    let page: Vec<Kline> = (0..1000u64).rev().map(|i| bar(i * 60_000, "p")).collect();
    let sorted = sort_by_start_time(page);
    assert_eq!(sorted.len(), 1000);
    for (at, kline) in sorted.iter().enumerate() {
        assert_eq!(kline.start_time, at as u64 * 60_000);
    }
}

#[test]
fn dedup_keeps_the_first_of_neighbours_with_one_start_time() {
    let kept = dedup_by_start_time(vec![
        bar(10, "a"),
        bar(10, "b"),
        bar(20, "c"),
        bar(30, "d"),
        bar(30, "e"),
        bar(30, "f"),
    ]);
    assert_eq!(marks(&kept), vec![mark(10, "a"), mark(20, "c"), mark(30, "d")]);
}

#[test]
fn dedup_looks_at_neighbours_only() {
    let kept = dedup_by_start_time(vec![bar(10, "a"), bar(20, "b"), bar(10, "c")]);
    assert_eq!(marks(&kept), vec![mark(10, "a"), mark(20, "b"), mark(10, "c")]);
}

#[test]
fn dedup_agrees_with_the_standard_dedup() {
    let mut seed: u64 = 0x9e37_79b9_7f4a_7c15;
    for round in 0..200 {
        let mut bars = Vec::new();
        for at in 0..(round % 17) {
            seed ^= seed << 13;
            seed ^= seed >> 7;
            seed ^= seed << 17;
            bars.push(bar(seed % 3, &format!("{}", at)));
        }
        let mut expected = bars.clone();
        expected.dedup_by_key(|k| k.start_time);
        assert_eq!(dedup_by_start_time(bars), expected);
    }
}

#[test]
fn sort_and_dedup_gives_one_bar_for_each_start_time() {
    let series = sort_and_dedup(vec![
        bar(30, "late"),
        bar(10, "first ten"),
        bar(20, "twenty"),
        bar(10, "second ten"),
        bar(30, "later"),
    ]);
    assert_eq!(
        marks(&series),
        vec![mark(10, "first ten"), mark(20, "twenty"), mark(30, "late")]
    );
}

#[test]
fn sort_and_dedup_is_strictly_increasing() {
    let mut seed: u64 = 88172645463325252;
    let mut bars = Vec::new();
    for at in 0..500 {
        seed ^= seed << 13;
        seed ^= seed >> 7;
        seed ^= seed << 17;
        bars.push(bar(seed % 100, &format!("{}", at)));
    }
    let series = sort_and_dedup(bars.clone());
    assert!(series.len() <= bars.len());
    for pair in series.windows(2) {
        assert!(pair[0].start_time < pair[1].start_time);
    }
    for kline in &bars {
        let found: Vec<&Kline> =
            series.iter().filter(|k| k.start_time == kline.start_time).collect();
        assert_eq!(found.len(), 1);
    }
    for kline in &series {
        let first = bars.iter().find(|k| k.start_time == kline.start_time).unwrap();
        assert_eq!(kline, first);
    }
}

#[test]
fn sort_and_dedup_twice_is_sort_and_dedup_once() {
    let bars = vec![bar(3, "a"), bar(1, "b"), bar(3, "c"), bar(2, "d"), bar(1, "e")];
    let once = sort_and_dedup(bars);
    let twice = sort_and_dedup(once.clone());
    assert_eq!(once, twice);
    assert_eq!(marks(&once), vec![mark(1, "b"), mark(2, "d"), mark(3, "a")]);
}

#[test]
fn sort_and_dedup_of_nothing_is_nothing() {
    assert_eq!(sort_and_dedup(Vec::new()), Vec::new());
}
