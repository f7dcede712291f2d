use bybit::client::BybitClient;
use bybit::date::{parse_date, window_bound};
use bybit::error::BybitError;
use bybit::event::{BarterCandle, BarterMarketEvent, Venue};
use bybit::kline::Kline;

fn bar(start: u64) -> Kline {
    Kline {
        start_time: start,
        open_price: "27000.5".to_string(),
        high_price: "27100".to_string(),
        low_price: "26900.25".to_string(),
        close_price: "27050".to_string(),
        volume: "12.5".to_string(),
        turnover: "337500.75".to_string(),
    }
}

#[test]
fn venue_follows_the_category() {
    assert_eq!(Venue::for_category("spot"), Venue::BybitSpot);
    assert_eq!(Venue::for_category("linear"), Venue::BybitPerpetualsUsd);
    assert_eq!(Venue::for_category("inverse"), Venue::BybitPerpetualsUsd);
}

#[test]
fn venue_of_an_unknown_category_is_spot() {
    for category in ["", "option", "Linear", "INVERSE", "linear ", "spot2"] {
        assert_eq!(Venue::for_category(category), Venue::BybitSpot, "category {:?}", category);
    }
}

#[test]
fn venue_names_are_the_consumers() {
    assert_eq!(Venue::BybitSpot.name(), "bybit_spot");
    assert_eq!(Venue::BybitPerpetualsUsd.name(), "bybit_perpetuals_usd");
}

#[test]
fn event_closes_one_interval_after_the_bar_opens() {
    let event = bar(1_700_000_000_000).to_barter_event_at(3, 900_000, "linear", 1_700_000_123_456);
    assert_eq!(
        event,
        BarterMarketEvent {
            time_exchange: 1_700_000_000_000,
            time_received: 1_700_000_123_456,
            exchange: Venue::BybitPerpetualsUsd,
            instrument: 3,
            candle: BarterCandle {
                close_time: 1_700_000_900_000,
                open: "27000.5".to_string(),
                high: "27100".to_string(),
                low: "26900.25".to_string(),
                close: "27050".to_string(),
                volume: "12.5".to_string(),
                trade_count: 0,
            },
        }
    );
}

#[test]
fn event_counts_no_trades() {
    let event = bar(0).to_barter_event_at(0, 60_000, "spot", -5);
    assert_eq!(event.candle.trade_count, 0);
    assert_eq!(event.candle.close_time, 60_000);
    assert_eq!(event.time_exchange, 0);
    assert_eq!(event.time_received, -5);
    assert_eq!(event.exchange, Venue::BybitSpot);
}

#[test]
fn event_reaches_the_last_millisecond() {
    let event = bar(u64::MAX - 60_000).to_barter_event_at(0, 60_000, "inverse", 0);
    assert_eq!(event.candle.close_time, u64::MAX);
    assert_eq!(event.exchange, Venue::BybitPerpetualsUsd);
}

#[test]
fn event_made_now_is_stamped_by_the_clock() {
    let kline = bar(1_700_000_000_000);
    let event = kline.to_barter_event(7, 3_600_000, "option");
    // The clock of any machine that runs this stands after the year 2020.
    assert!(event.time_received > 1_577_836_800_000);
    assert_eq!(event, kline.to_barter_event_at(7, 3_600_000, "option", event.time_received));
    assert_eq!(event.candle.close_time, 1_700_003_600_000);
    assert_eq!(event.instrument, 7);
    assert_eq!(event.exchange, Venue::BybitSpot);
}

#[test]
fn dates_are_midnights_in_milliseconds() {
    assert_eq!(parse_date("1970/01/01"), Ok(0));
    assert_eq!(parse_date("1970/01/02"), Ok(86_400_000));
    assert_eq!(parse_date("2024/01/01"), Ok(1_704_067_200_000));
    assert_eq!(parse_date("2024/02/29"), Ok(1_709_164_800_000));
    assert_eq!(parse_date("2023/12/31"), Ok(1_703_980_800_000));
}

#[test]
fn dates_that_are_no_days_are_refused_with_their_text() {
    for text in ["", "2024-01-01", "2024/02/30", "2023/02/29", "2024/13/01", "2024/00/10", "01/02", "yesterday", "2024/01/01 12:00"] {
        assert_eq!(
            parse_date(text),
            Err(BybitError::DateParseError(text.to_string())),
            "text {:?}",
            text
        );
    }
}

#[test]
fn dates_before_the_epoch_wrap_around() {
    assert_eq!(parse_date("1969/12/31"), Ok((-86_400_000i64) as u64));
    assert_eq!(parse_date("1969/12/31"), Ok(u64::MAX - 86_400_000 + 1));
}

#[test]
fn window_bound_maps_what_was_read() {
    assert_eq!(window_bound("2024/01/01", Some(1_704_067_200_000)), Ok(1_704_067_200_000));
    assert_eq!(window_bound("x", Some(0)), Ok(0));
    assert_eq!(window_bound("x", Some(-1)), Ok(u64::MAX));
    assert_eq!(window_bound("x", Some(i64::MIN)), Ok(1u64 << 63));
    assert_eq!(window_bound("x", Some(i64::MAX)), Ok(i64::MAX as u64));
    assert_eq!(
        window_bound("some day", None),
        Err(BybitError::DateParseError("some day".to_string()))
    );
}

#[test]
fn client_picks_the_service() {
    assert_eq!(BybitClient::new(false).base_url, "https://api.bybit.com");
    assert_eq!(BybitClient::new(true).base_url, "https://api-testnet.bybit.com");
}

#[test]
fn client_asks_the_bar_endpoint() {
    assert_eq!(BybitClient::new(false).kline_url(), "https://api.bybit.com/v5/market/kline");
    assert_eq!(
        BybitClient::new(true).kline_url(),
        "https://api-testnet.bybit.com/v5/market/kline"
    );
}
