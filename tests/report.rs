use cost_report::amount::Amount;
use cost_report::billing::{cost_entry, read_forecast, read_month_to_date, read_rate, service_entries, CostError};
use cost_report::calendar::{day_earlier, forecast_window, month_to_date_window, service_cost_window, Date};
use cost_report::ranking::CostEntry;
use cost_report::report::{build_report, build_service_ranking, compose_report, run_report};

fn entry(label: &str, cost: &str) -> CostEntry {
    cost_entry(Some(label.to_string()), Some(cost.to_string()))
}

fn sample() -> Vec<CostEntry> {
    vec![entry("EC2", "10.00"), entry("S3", "25.50"), entry("Lambda", "0.75")]
}

fn rate150() -> Amount {
    Amount { units: 15_000_000_000 }
}

fn line(label: &str, cost: &str) -> String {
    format!("{:<50}:  {}\n", label, cost)
}

#[test]
fn ranking_shows_two_most_expensive_services() {
    let r = build_service_ranking(sample(), rate150(), 2);
    let expected = format!("```\n{}{}\n```", line("S3", "3825円($25.5)"), line("EC2", "1500円($10)"));
    assert_eq!(r, expected);
    assert!(!r.contains("Lambda"));
}

#[test]
fn ranking_block_has_one_line_per_ranked_entry() {
    for n in 0..5usize {
        let r = build_service_ranking(sample(), rate150(), n);
        assert_eq!(r.matches('\n').count(), n.min(3) + 2);
        assert_eq!(r.lines().count(), n.min(3) + 3);
    }
}

#[test]
fn ranking_skips_entries_without_label_or_cost() {
    let v = vec![
        cost_entry(None, Some("5".to_string())),
        cost_entry(Some("NoCost".to_string()), None),
        entry("EC2", "1"),
    ];
    let r = build_service_ranking(v, rate150(), 5);
    assert_eq!(r, format!("```\n{}\n```", line("EC2", "150円($1)")));
    assert_eq!(build_service_ranking(Vec::new(), rate150(), 5), "```\n\n```");
}

#[test]
fn report_template_is_exact_and_repeatable() {
    let a = build_report("1円($0.01)", "2円($0.02)", "3円($0.03)", "```\n\n```");
    let b = build_report("1円($0.01)", "2円($0.02)", "3円($0.03)", "```\n\n```");
    assert_eq!(a, b);
    assert_eq!(
        a,
        "前々日料金:1円($0.01)\n--------------\n現時点料金:2円($0.02)\n今月の予測:3円($0.03)\n■前々日の料金ランキング\n```\n\n```\n"
    );
}

#[test]
fn compose_report_for_sample() {
    let month = Amount { units: 10_000_000_000 };
    let forecast = Amount { units: 20_000_000_000 };
    let r = compose_report(rate150(), sample(), month, forecast).unwrap();
    let ranking = build_service_ranking(sample(), rate150(), 5);
    let expected = build_report("5438円($36.25)", "15000円($100)", "30000円($200)", &ranking);
    assert_eq!(r, expected);
}

#[test]
fn compose_report_total_out_of_range() {
    let v = vec![entry("a", "92233720368"), entry("b", "92233720368")];
    let r = compose_report(rate150(), v, Amount { units: 0 }, Amount { units: 0 });
    assert_eq!(r, Err(CostError::AmountOutOfRange));
}

#[test]
fn no_time_bucket_is_no_data() {
    assert_eq!(service_entries(Vec::new()).map(|v| v.len()), Err(CostError::NoData));
    assert_eq!(service_entries(vec![None]).map(|v| v.len()), Err(CostError::NoData));
    assert_eq!(service_entries(vec![Some(Vec::new()), Some(sample())]).map(|v| v.len()), Err(CostError::NoData));
    let ok = service_entries(vec![Some(sample()), None]).unwrap();
    assert_eq!(ok.len(), 3);
}

#[test]
fn run_aborts_on_missing_service_data() {
    let services = service_entries(Vec::new());
    let r = run_report(Ok(rate150()), services, Ok(Amount { units: 0 }), Ok(Amount { units: 0 }));
    assert_eq!(r, Err(CostError::NoData));
}

#[test]
fn missing_rate_field_is_rate_unavailable() {
    assert_eq!(read_rate(None), Err(CostError::RateUnavailable));
    assert_eq!(read_rate(Some("n/a".to_string())), Err(CostError::RateUnavailable));
    assert_eq!(read_rate(Some("149.5".to_string())), Ok(Amount { units: 14_950_000_000 }));
    let r = run_report(
        read_rate(None),
        Err(CostError::NoData),
        Err(CostError::ForecastUnavailable),
        Ok(Amount { units: 0 }),
    );
    assert_eq!(r, Err(CostError::RateUnavailable));
}

#[test]
fn forecast_and_month_errors() {
    assert_eq!(read_forecast(None), Err(CostError::ForecastUnavailable));
    assert_eq!(read_forecast(Some("12.3".to_string())), Ok(Amount { units: 1_230_000_000 }));
    assert_eq!(read_month_to_date(Some("x".to_string())), Err(CostError::MonthToDateUnavailable));
    let r = run_report(
        Ok(rate150()),
        Ok(sample()),
        read_forecast(None),
        read_month_to_date(None),
    );
    assert_eq!(r, Err(CostError::ForecastUnavailable));
    let r = run_report(Ok(rate150()), Ok(sample()), Ok(Amount { units: 0 }), read_month_to_date(None));
    assert_eq!(r, Err(CostError::MonthToDateUnavailable));
}

#[test]
fn run_produces_report_when_all_fetches_succeed() {
    let month = Amount { units: 10_000_000_000 };
    let forecast = Amount { units: 20_000_000_000 };
    let r = run_report(Ok(rate150()), Ok(sample()), Ok(forecast), Ok(month));
    assert_eq!(r, compose_report(rate150(), sample(), month, forecast));
    assert!(r.unwrap().starts_with("前々日料金:5438円($36.25)\n"));
}

fn date(y: i32, m: u32, d: u32) -> Date {
    Date::new(y, m, d).unwrap()
}

#[test]
fn dates_are_validated() {
    assert!(Date::new(2024, 2, 29).is_some());
    assert!(Date::new(2023, 2, 29).is_none());
    assert!(Date::new(1900, 2, 29).is_none());
    assert!(Date::new(2000, 2, 29).is_some());
    assert!(Date::new(2024, 4, 31).is_none());
    assert!(Date::new(0, 1, 1).is_none());
    assert!(Date::new(2024, 13, 1).is_none());
}

#[test]
fn service_window_is_the_day_before_yesterday() {
    let w = service_cost_window(date(2024, 3, 1)).unwrap();
    assert_eq!(w.start.to_iso(), "2024-02-28");
    assert_eq!(w.end.to_iso(), "2024-02-29");
    let w = service_cost_window(date(2025, 1, 2)).unwrap();
    assert_eq!(w.start.to_iso(), "2024-12-31");
    assert_eq!(w.end.to_iso(), "2025-01-01");
    assert_eq!(service_cost_window(date(1, 1, 2)), Err(CostError::DateComputationFailure));
    assert_eq!(day_earlier(date(1, 1, 1)), Err(CostError::DateComputationFailure));
}

#[test]
fn month_windows_end_on_first_of_next_month() {
    let w = forecast_window(date(2024, 12, 15)).unwrap();
    assert_eq!(w.start.to_iso(), "2024-12-15");
    assert_eq!(w.end.to_iso(), "2025-01-01");
    let w = month_to_date_window(date(2024, 1, 31)).unwrap();
    assert_eq!(w.start.to_iso(), "2024-01-01");
    assert_eq!(w.end.to_iso(), "2024-02-01");
    assert_eq!(forecast_window(date(9999, 12, 1)), Err(CostError::DateComputationFailure));
    assert_eq!(date(999, 7, 4).to_iso(), "0999-07-04");
}
