use bybit::error::{BybitError, RowField};
use bybit::kline::{normalize_page, Kline};
use bybit::response::{BybitResponse, KlineResult};

fn row(fields: &[&str]) -> Vec<String> {
    fields.iter().map(|f| f.to_string()).collect()
}

fn good_row(start: &str) -> Vec<String> {
    row(&[start, "27000.5", "27100", "26900.25", "27050", "12.5", "337500.75"])
}

fn malformed(field: RowField) -> BybitError {
    BybitError::MalformedRecord { field }
}

#[test]
fn from_vec_reads_the_seven_fields_in_order() {
    let kline = Kline::from_vec(good_row("1700000000000")).unwrap();
    assert_eq!(kline.start_time, 1_700_000_000_000);
    assert_eq!(kline.open_price, "27000.5");
    assert_eq!(kline.high_price, "27100");
    assert_eq!(kline.low_price, "26900.25");
    assert_eq!(kline.close_price, "27050");
    assert_eq!(kline.volume, "12.5");
    assert_eq!(kline.turnover, "337500.75");
}

#[test]
fn from_vec_keeps_the_numbers_that_the_texts_denote() {
    let kline = Kline::from_vec(row(&["100", "1.5", "2e3", ".25", "-0.5", "1.", "inf"])).unwrap();
    assert_eq!(kline.start_time, 100);
    assert_eq!(kline.open_price.parse::<f64>(), Ok(1.5));
    assert_eq!(kline.high_price.parse::<f64>(), Ok(2000.0));
    assert_eq!(kline.low_price.parse::<f64>(), Ok(0.25));
    assert_eq!(kline.close_price.parse::<f64>(), Ok(-0.5));
    assert_eq!(kline.volume.parse::<f64>(), Ok(1.0));
    assert_eq!(kline.turnover.parse::<f64>(), Ok(f64::INFINITY));
}

#[test]
fn from_vec_ignores_fields_after_the_seventh() {
    let mut data = good_row("5");
    data.push("not a number".to_string());
    data.push(String::new());
    let kline = Kline::from_vec(data).unwrap();
    assert_eq!(kline.start_time, 5);
    assert_eq!(kline.turnover, "337500.75");
}

#[test]
fn from_vec_refuses_a_row_that_is_too_short() {
    assert_eq!(Kline::from_vec(row(&["100"])), Err(malformed(RowField::Arity)));
    assert_eq!(Kline::from_vec(Vec::new()), Err(malformed(RowField::Arity)));
    assert_eq!(
        Kline::from_vec(row(&["100", "1", "2", "3", "4", "5"])),
        Err(malformed(RowField::Arity))
    );
}

#[test]
fn from_vec_checks_the_length_before_the_fields() {
    assert_eq!(Kline::from_vec(row(&["abc"])), Err(malformed(RowField::Arity)));
    assert_eq!(
        Kline::from_vec(row(&["abc", "x", "y", "z", "u", "v"])),
        Err(malformed(RowField::Arity))
    );
}

#[test]
fn from_vec_names_the_field_that_is_no_number() {
    let fields = [
        RowField::StartTime,
        RowField::OpenPrice,
        RowField::HighPrice,
        RowField::LowPrice,
        RowField::ClosePrice,
        RowField::Volume,
        RowField::Turnover,
    ];
    for (at, field) in fields.iter().enumerate() {
        let mut data = good_row("100");
        data[at] = "oops".to_string();
        assert_eq!(Kline::from_vec(data), Err(malformed(*field)), "field {}", at);
    }
}

#[test]
fn from_vec_names_the_first_of_several_bad_fields() {
    let data = row(&["100", "1", "bad", "3", "worse", "5", ""]);
    assert_eq!(Kline::from_vec(data), Err(malformed(RowField::HighPrice)));
    let data = row(&["-1", "bad", "bad", "bad", "bad", "bad", "bad"]);
    assert_eq!(Kline::from_vec(data), Err(malformed(RowField::StartTime)));
}

#[test]
fn from_vec_wants_a_whole_unsigned_start_time() {
    for start in ["", "-1", "1.5", "1e3", " 1", "18446744073709551616"] {
        assert_eq!(
            Kline::from_vec(good_row(start)),
            Err(malformed(RowField::StartTime)),
            "start {:?}",
            start
        );
    }
    assert_eq!(
        Kline::from_vec(good_row("18446744073709551615")).unwrap().start_time,
        u64::MAX
    );
}

#[test]
fn from_row_reads_what_from_vec_reads() {
    let data = good_row("42");
    assert_eq!(Kline::from_row(&data), Kline::from_vec(data.clone()));
    let data = row(&["42", "x"]);
    assert_eq!(Kline::from_row(&data), Kline::from_vec(data.clone()));
}

#[test]
fn normalize_page_keeps_the_order_of_the_page() {
    let rows = vec![good_row("300"), good_row("100"), good_row("200"), good_row("100")];
    let klines = normalize_page(&rows).unwrap();
    let starts: Vec<u64> = klines.iter().map(|k| k.start_time).collect();
    assert_eq!(starts, vec![300, 100, 200, 100]);
}

#[test]
fn normalize_page_of_no_rows_is_no_bars() {
    assert_eq!(normalize_page(&Vec::new()), Ok(Vec::new()));
}

#[test]
fn normalize_page_fails_on_the_first_malformed_row() {
    let rows = vec![
        good_row("100"),
        row(&["200", "1", "2", "3", "bad", "5", "6"]),
        row(&["300"]),
    ];
    assert_eq!(normalize_page(&rows), Err(malformed(RowField::ClosePrice)));
    let rows = vec![row(&["300"]), row(&["200", "1", "2", "3", "bad", "5", "6"])];
    assert_eq!(normalize_page(&rows), Err(malformed(RowField::Arity)));
}

fn answer(ret_code: i32, ret_msg: &str, list: Option<Vec<Vec<String>>>) -> BybitResponse {
    BybitResponse {
        ret_code,
        ret_msg: ret_msg.to_string(),
        result: list.map(|list| KlineResult {
            symbol: "BTCUSDT".to_string(),
            category: "linear".to_string(),
            list,
        }),
        time: 1_700_000_000_123,
    }
}

#[test]
fn a_refusal_carries_the_providers_message() {
    let refused = answer(10001, "params error: symbol invalid", None);
    assert_eq!(
        refused.into_klines(),
        Err(BybitError::DomainRejection { msg: "params error: symbol invalid".to_string() })
    );
}

#[test]
fn a_refusal_wins_over_a_payload() {
    let refused = answer(-1, "Too many visits!", Some(vec![good_row("100")]));
    assert_eq!(
        refused.clone().into_rows(),
        Err(BybitError::DomainRejection { msg: "Too many visits!".to_string() })
    );
    assert_eq!(
        refused.into_klines(),
        Err(BybitError::DomainRejection { msg: "Too many visits!".to_string() })
    );
}

#[test]
fn a_success_without_payload_is_rejected() {
    let hollow = answer(0, "OK", None);
    assert_eq!(
        hollow.into_klines(),
        Err(BybitError::DomainRejection { msg: "No result data".to_string() })
    );
}

#[test]
fn a_success_hands_out_its_rows_and_bars() {
    let rows = vec![good_row("200"), good_row("100")];
    let ok = answer(0, "OK", Some(rows.clone()));
    assert_eq!(ok.clone().into_rows(), Ok(rows));
    let klines = ok.into_klines().unwrap();
    assert_eq!(klines.len(), 2);
    assert_eq!(klines[0].start_time, 200);
    assert_eq!(klines[1].start_time, 100);
}

#[test]
fn a_success_with_an_empty_page_is_no_error() {
    assert_eq!(answer(0, "OK", Some(Vec::new())).into_klines(), Ok(Vec::new()));
}

#[test]
fn a_success_with_a_malformed_row_names_the_defect() {
    let ok = answer(0, "OK", Some(vec![good_row("100"), row(&["100"])]));
    assert_eq!(ok.into_klines(), Err(malformed(RowField::Arity)));
}
