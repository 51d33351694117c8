use weather_history::date::Date;
use weather_history::error::WeatherError;
use weather_history::label::{infer_date, strip_degree};
use weather_history::scrape::{predictions_from_cards, scrape_info};
use weather_history::store::{
    csv_content, store_text_or_empty, DateHistory, Prediction, SavedPredictions, TempPrediction,
};

fn june_5() -> Date {
    Date { year: 2024, month: 6, day: 5 }
}

fn ymd(year: i32, month: u32, day: u32) -> Date {
    Date { year, month, day }
}

fn card(label: &str, high: &str, low: &str) -> String {
    format!(
        "<div data-testid=\"DetailsSummary\"><h3 data-testid=\"daypartName\">{}</h3>\
         <div><span data-testid=\"TemperatureValue\">{}</span></div>\
         <div data-testid=\"lowTempValue\"><span data-testid=\"TemperatureValue\">{}</span></div></div>",
        label, high, low
    )
}

fn three_cards() -> String {
    format!(
        "<section>{}{}{}</section>",
        card("Tonight", "--", "55°"),
        card("Thu 06", "68°", "54°"),
        card("Fri 07", "70°", "56°")
    )
}

fn temp(made_at: &str, low: &str, high: &str) -> TempPrediction {
    TempPrediction { made_at: made_at.to_string(), low: low.to_string(), high: high.to_string() }
}

fn entries(store: &SavedPredictions) -> Vec<(String, Vec<(String, String, String)>)> {
    store
        .histories()
        .iter()
        .map(|h| {
            (
                h.for_date.clone(),
                h.temps.iter().map(|t| (t.made_at.clone(), t.low.clone(), t.high.clone())).collect(),
            )
        })
        .collect()
}

#[test]
fn label_later_day_is_this_month() {
    assert_eq!(infer_date("Fri 07", &june_5()), Ok(ymd(2024, 6, 7)));
}

#[test]
fn label_earlier_day_rolls_to_next_month() {
    assert_eq!(infer_date("Tue 03", &june_5()), Ok(ymd(2024, 7, 3)));
}

#[test]
fn label_without_day_is_today() {
    assert_eq!(infer_date("Tonight", &june_5()), Ok(june_5()));
    assert_eq!(infer_date("Today", &ymd(2023, 12, 31)), Ok(ymd(2023, 12, 31)));
    assert_eq!(infer_date("", &june_5()), Ok(june_5()));
}

#[test]
fn label_same_day_is_today() {
    assert_eq!(infer_date("Wed 05", &june_5()), Ok(june_5()));
}

#[test]
fn label_in_december_rolls_to_january() {
    assert_eq!(infer_date("Mon 02", &ymd(2024, 12, 28)), Ok(ymd(2025, 1, 2)));
}

#[test]
fn label_extra_spaces_are_ignored() {
    assert_eq!(infer_date("  Fri \t 07  ", &june_5()), Ok(ymd(2024, 6, 7)));
    assert_eq!(infer_date("Fri +07", &june_5()), Ok(ymd(2024, 6, 7)));
}

#[test]
fn label_day_missing_from_month_is_invalid() {
    assert_eq!(infer_date("Fri 31", &june_5()), Err(WeatherError::InvalidDate));
    assert_eq!(infer_date("Fri 30", &ymd(2023, 1, 31)), Err(WeatherError::InvalidDate));
    assert_eq!(infer_date("Thu 29", &ymd(2024, 1, 31)), Ok(ymd(2024, 2, 29)));
}

#[test]
fn label_unreadable_day_is_invalid() {
    assert_eq!(infer_date("Fri xx", &june_5()), Err(WeatherError::InvalidDate));
    assert_eq!(infer_date("Fri 0", &june_5()), Err(WeatherError::InvalidDate));
    assert_eq!(infer_date("Fri -7", &june_5()), Err(WeatherError::InvalidDate));
    assert_eq!(infer_date("Fri 4294967296", &june_5()), Err(WeatherError::InvalidDate));
}

#[test]
fn date_validity_follows_the_calendar() {
    assert_eq!(Date::new(2024, 2, 29), Some(ymd(2024, 2, 29)));
    assert_eq!(Date::new(2023, 2, 29), None);
    assert_eq!(Date::new(1900, 2, 29), None);
    assert_eq!(Date::new(2000, 2, 29), Some(ymd(2000, 2, 29)));
    assert_eq!(Date::new(2024, 13, 1), None);
    assert_eq!(Date::new(2024, 4, 31), None);
    assert_eq!(Date::new(400000, 1, 1), None);
}

#[test]
fn date_text_is_iso() {
    assert_eq!(ymd(2024, 6, 7).to_iso_string(), "2024-06-07");
    assert_eq!(ymd(999, 1, 2).to_iso_string(), "0999-01-02");
    assert_eq!(ymd(-1, 12, 31).to_iso_string(), "-0001-12-31");
    assert_eq!(ymd(12345, 10, 11).to_iso_string(), "+12345-10-11");
}

#[test]
fn degree_signs_are_stripped() {
    assert_eq!(strip_degree("68°"), "68");
    assert_eq!(strip_degree("°6°8°"), "°6°8");
    assert_eq!(strip_degree("7°2"), "7°2");
    assert_eq!(strip_degree("70°°"), "70");
    assert_eq!(strip_degree("--"), "--");
    assert_eq!(strip_degree(""), "");
}

#[test]
fn scrape_reads_each_card() {
    let ps = scrape_info(&three_cards(), &june_5()).unwrap();
    let got: Vec<(String, String, String, String)> = ps
        .iter()
        .map(|p| (p.for_date.clone(), p.temp.made_at.clone(), p.temp.low.clone(), p.temp.high.clone()))
        .collect();
    let want = vec![
        ("2024-06-05", "2024-06-05", "55", "--"),
        ("2024-06-06", "2024-06-05", "54", "68"),
        ("2024-06-07", "2024-06-05", "56", "70"),
    ];
    let want: Vec<(String, String, String, String)> = want
        .into_iter()
        .map(|(a, b, c, d)| (a.to_string(), b.to_string(), c.to_string(), d.to_string()))
        .collect();
    assert_eq!(got, want);
}

#[test]
fn scrape_without_cards_is_empty() {
    assert_eq!(scrape_info("<p>nothing</p>", &june_5()).unwrap().len(), 0);
}

#[test]
fn scrape_card_without_low_is_missing_field() {
    let html = "<div data-testid=\"DetailsSummary\"><h3 data-testid=\"daypartName\">Fri 07</h3>\
                <span data-testid=\"TemperatureValue\">70°</span></div>";
    assert_eq!(scrape_info(html, &june_5()).err(), Some(WeatherError::MissingField));
}

#[test]
fn scrape_bad_day_is_invalid_date() {
    let html = card("Fri 31", "70°", "56°");
    assert_eq!(scrape_info(&html, &june_5()).err(), Some(WeatherError::InvalidDate));
}

#[test]
fn cards_missing_label_is_missing_field() {
    let cards = vec![vec![None, Some("1".to_string()), Some("2".to_string())]];
    assert_eq!(predictions_from_cards(&cards, &june_5()).err(), Some(WeatherError::MissingField));
}

#[test]
fn cards_first_error_wins() {
    let cards = vec![
        vec![Some("Fri 31".to_string()), Some("1".to_string()), Some("2".to_string())],
        vec![None, None, None],
    ];
    assert_eq!(predictions_from_cards(&cards, &june_5()).err(), Some(WeatherError::InvalidDate));
}

#[test]
fn first_scrape_fills_an_empty_store() {
    let mut store = SavedPredictions::new();
    let ps = scrape_info(&three_cards(), &june_5()).unwrap();
    store.merge(&ps);
    let e = entries(&store);
    assert_eq!(e.len(), 3);
    for (_, temps) in &e {
        assert_eq!(temps.len(), 1);
    }
    let files = store.export_files();
    assert_eq!(files.len(), 3);
    let names: Vec<String> = files.iter().map(|f| f.0.clone()).collect();
    assert_eq!(names, vec!["2024-06-05.csv", "2024-06-06.csv", "2024-06-07.csv"]);
    assert_eq!(files[1].1, "at date\tlow\thigh\n2024-06-05\t54\t68\n");
}

#[test]
fn second_scrape_same_day_changes_nothing() {
    let mut store = SavedPredictions::new();
    let ps = scrape_info(&three_cards(), &june_5()).unwrap();
    store.merge(&ps);
    let before = entries(&store);
    let files_before = store.export_files();
    store.merge(&ps);
    assert_eq!(entries(&store), before);
    assert_eq!(store.export_files(), files_before);
}

#[test]
fn later_scrape_appends_a_reading() {
    let mut store = SavedPredictions::new();
    store.merge(&scrape_info(&three_cards(), &june_5()).unwrap());
    let next_day = format!("<section>{}{}</section>", card("Tonight", "--", "57°"), card("Fri 07", "72°", "58°"));
    store.merge(&scrape_info(&next_day, &ymd(2024, 6, 6)).unwrap());
    let e = entries(&store);
    assert_eq!(e.len(), 3);
    assert_eq!(e[1].1.len(), 2);
    assert_eq!(e[1].1[1], ("2024-06-06".to_string(), "57".to_string(), "--".to_string()));
    assert_eq!(e[2].1.len(), 2);
    assert_eq!(
        csv_content(&store.histories()[2].temps),
        "at date\tlow\thigh\n2024-06-05\t56\t70\n2024-06-06\t58\t72\n"
    );
}

#[test]
fn merge_checks_only_the_last_reading() {
    let mut store = SavedPredictions::new();
    let p = |made_at: &str| Prediction { for_date: "2024-06-07".to_string(), temp: temp(made_at, "1", "2") };
    store.merge(&vec![p("2024-06-05"), p("2024-06-06"), p("2024-06-05"), p("2024-06-05")]);
    let e = entries(&store);
    assert_eq!(e.len(), 1);
    let days: Vec<String> = e[0].1.iter().map(|t| t.0.clone()).collect();
    assert_eq!(days, vec!["2024-06-05", "2024-06-06", "2024-06-05"]);
}

#[test]
fn csv_of_no_readings_is_the_header() {
    assert_eq!(csv_content(&vec![]), "at date\tlow\thigh\n");
}

#[test]
fn store_with_a_date_twice_is_corrupt() {
    let h = |d: &str| DateHistory { for_date: d.to_string(), temps: vec![temp("2024-06-05", "1", "2")] };
    let r = SavedPredictions::from_histories(vec![h("2024-06-05"), h("2024-06-06"), h("2024-06-05")]);
    assert_eq!(r.err().map(|_| ()), Some(()));
    assert!(matches!(
        SavedPredictions::from_histories(vec![h("2024-06-05"), h("2024-06-05")]),
        Err(WeatherError::StoreCorrupt)
    ));
    let ok = SavedPredictions::from_histories(vec![h("2024-06-05"), h("2024-06-06")]).unwrap();
    assert_eq!(ok.into_histories().len(), 2);
}

#[test]
fn empty_store_file_is_an_empty_history() {
    assert_eq!(store_text_or_empty(String::new()), "{\"predictions\":{}}");
    assert_eq!(store_text_or_empty("{\"predictions\":{\"a\":[]}}".to_string()), "{\"predictions\":{\"a\":[]}}");
}

#[test]
fn date_range_ends_where_chrono_ends() {
    assert_eq!(Date::new(262142, 12, 31), Some(ymd(262142, 12, 31)));
    assert_eq!(Date::new(262143, 1, 1), None);
    assert_eq!(Date::new(-262143, 1, 1), Some(ymd(-262143, 1, 1)));
    assert_eq!(Date::new(-262144, 12, 31), None);
}

#[test]
fn rollover_past_the_last_year_is_invalid() {
    assert_eq!(infer_date("Mon 01", &ymd(262142, 12, 31)), Err(WeatherError::InvalidDate));
    assert_eq!(infer_date("Fri 31", &ymd(262142, 12, 30)), Ok(ymd(262142, 12, 31)));
}

#[test]
fn merge_keeps_dates_in_order() {
    let mut store = SavedPredictions::new();
    let p = |d: &str| Prediction { for_date: d.to_string(), temp: temp("2024-06-05", "1", "2") };
    store.merge(&vec![p("2024-06-07"), p("2024-06-05"), p("2024-06-10"), p("2024-06-06"), p("2024-06-05")]);
    let dates: Vec<String> = entries(&store).into_iter().map(|e| e.0).collect();
    assert_eq!(dates, vec!["2024-06-05", "2024-06-06", "2024-06-07", "2024-06-10"]);
    let names: Vec<String> = store.export_files().into_iter().map(|f| f.0).collect();
    assert_eq!(names, vec!["2024-06-05.csv", "2024-06-06.csv", "2024-06-07.csv", "2024-06-10.csv"]);
}

#[test]
fn store_out_of_date_order_is_corrupt() {
    let h = |d: &str| DateHistory { for_date: d.to_string(), temps: vec![] };
    assert!(matches!(
        SavedPredictions::from_histories(vec![h("2024-06-06"), h("2024-06-05")]),
        Err(WeatherError::StoreCorrupt)
    ));
    assert!(SavedPredictions::from_histories(vec![h("2024-06-05"), h("2024-06-05x"), h("2024-06-06")]).is_ok());
}
