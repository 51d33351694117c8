//! Turns a forecast page into dated readings.

use vstd::prelude::*;
use crate::date::Date;
use crate::error::WeatherError;
use crate::label::{infer_date, inferred_date, strip_degree, without_degree};
use crate::store::{predictions_view, Prediction, Reading, TempPrediction};

verus! {

/// The element that holds one day's forecast.
pub const CARD_SELECTOR: &'static str = "[data-testid=\"DetailsSummary\"]";

/// Inside a card: the day label.
pub const LABEL_SELECTOR: &'static str = "[data-testid=\"daypartName\"]";

/// Inside a card: the predicted low.
pub const LOW_SELECTOR: &'static str = "[data-testid=\"lowTempValue\"] > [data-testid=\"TemperatureValue\"]";

/// Inside a card: the predicted high (the first temperature of the card).
pub const HIGH_SELECTOR: &'static str = "[data-testid=\"TemperatureValue\"]";

/// What the page's cards hold: for each card that `card` matches, in document
/// order, and for each of `fields`, the first text of the first element in
/// the card that the field selector matches; `None` when a selector does not
/// parse.
pub uninterp spec fn card_texts(html: Seq<char>, card: Seq<char>, fields: Seq<Seq<char>>) -> Option<
    Seq<Seq<Option<Seq<char>>>>,
>;

pub open spec fn text_of(o: Option<String>) -> Option<Seq<char>> {
    match o {
        Some(s) => Some(s@),
        None => None,
    }
}

pub open spec fn cards_view(cards: Seq<Vec<Option<String>>>) -> Seq<Seq<Option<Seq<char>>>> {
    cards.map_values(|row: Vec<Option<String>>| row@.map_values(|o: Option<String>| text_of(o)))
}

pub open spec fn selector_texts(fields: Seq<&str>) -> Seq<Seq<char>> {
    fields.map_values(|f: &str| f@)
}

/// Relies on scraper: `Html::parse_fragment` parses the page, `Selector::parse`
/// each selector, `Html::select` and `ElementRef::select` find the cards and
/// the fields in them, and `ElementRef::text` gives an element's texts. The
/// result depends on its arguments alone; each row has one entry per field.
#[verifier::external_body]
fn select_card_texts(html: &str, card: &str, fields: &Vec<&str>) -> (r: Option<
    Vec<Vec<Option<String>>>,
>)
    ensures
        (match r {
            Some(rows) => card_texts(html@, card@, selector_texts(fields@)) == Some(
                cards_view(rows@),
            ),
            None => card_texts(html@, card@, selector_texts(fields@)) is None,
        }),
        r matches Some(rows) ==> forall|i: int| 0 <= i < rows@.len() ==> #[trigger] rows@[i]@.len() == fields@.len(),
{
    let page = scraper::Html::parse_fragment(html);
    let card = scraper::Selector::parse(card).ok()?;
    let fields = fields.iter().map(|f| scraper::Selector::parse(f).ok()).collect::<Option<Vec<_>>>()?;
    Some(page.select(&card).map(|c| fields.iter().map(|f| c.select(f).next().and_then(|e| e.text().next()).map(String::from)).collect()).collect())
}

/// The reading of one card: its date from the label (a missing label, then a
/// bad date, then a missing temperature is the error), its low and high
/// without degree signs, taken `today`.
pub open spec fn card_prediction(row: Seq<Option<Seq<char>>>, today: Date) -> Result<
    (Seq<char>, Reading),
    WeatherError,
> {
    match row[0] {
        None => Err(WeatherError::MissingField),
        Some(label) => match inferred_date(label, today) {
            Err(e) => Err(e),
            Ok(d) => match (row[1], row[2]) {
                (Some(low), Some(high)) => Ok(
                    (
                        d.text(),
                        Reading {
                            made_at: today.text(),
                            low: without_degree(low),
                            high: without_degree(high),
                        },
                    ),
                ),
                _ => Err(WeatherError::MissingField),
            },
        },
    }
}

/// The readings of all cards in order, or the error of the first card that
/// has one.
pub open spec fn cards_predictions(rows: Seq<Seq<Option<Seq<char>>>>, today: Date) -> Result<
    Seq<(Seq<char>, Reading)>,
    WeatherError,
>
    decreases rows.len(),
{
    if rows.len() == 0 {
        Ok(Seq::empty())
    } else {
        match cards_predictions(rows.drop_last(), today) {
            Err(e) => Err(e),
            Ok(ps) => match card_prediction(rows.last(), today) {
                Err(e) => Err(e),
                Ok(p) => Ok(ps.push(p)),
            },
        }
    }
}

proof fn lemma_error_persists(rows: Seq<Seq<Option<Seq<char>>>>, k: int, today: Date)
    requires
        0 <= k <= rows.len(),
        cards_predictions(rows.take(k), today) is Err,
    ensures
        cards_predictions(rows, today) == cards_predictions(rows.take(k), today),
    decreases rows.len() - k,
{
    if k == rows.len() {
        assert(rows.take(k) =~= rows);
    } else {
        assert(rows.take(k + 1).drop_last() =~= rows.take(k));
        lemma_error_persists(rows, k + 1, today);
    }
}

pub open spec fn result_view(r: Result<Vec<Prediction>, WeatherError>) -> Result<
    Seq<(Seq<char>, Reading)>,
    WeatherError,
> {
    match r {
        Ok(v) => Ok(predictions_view(v@)),
        Err(e) => Err(e),
    }
}

/// The readings that the texts of the cards give, each row holding a card's
/// label, low and high.
pub fn predictions_from_cards(cards: &Vec<Vec<Option<String>>>, today: &Date) -> (r: Result<
    Vec<Prediction>,
    WeatherError,
>)
    requires
        today.wf(),
        forall|i: int| 0 <= i < cards@.len() ==> #[trigger] cards@[i]@.len() == 3,
    ensures
        result_view(r) == cards_predictions(cards_view(cards@), *today),
{
    let ghost rows = cards_view(cards@);
    let made_at = today.to_iso_string();
    let mut out: Vec<Prediction> = Vec::new();
    let n = cards.len();
    let mut i: usize = 0;
    assert(rows.take(0) =~= Seq::<Seq<Option<Seq<char>>>>::empty());
    assert(predictions_view(out@) =~= Seq::<(Seq<char>, Reading)>::empty());
    while i < n
        invariant
            today.wf(),
            n == cards@.len(),
            rows == cards_view(cards@),
            forall|j: int| 0 <= j < cards@.len() ==> #[trigger] cards@[j]@.len() == 3,
            made_at@ == today.text(),
            i <= n,
            cards_predictions(rows.take(i as int), *today) == Ok::<_, WeatherError>(predictions_view(out@)),
        decreases n - i,
    {
        assert(rows.take(i + 1).drop_last() =~= rows.take(i as int));
        assert(rows.take(i + 1).last() == rows[i as int]);
        let row = &cards[i];
        assert(row@.len() == 3);
        assert(rows[i as int] =~= row@.map_values(|o: Option<String>| text_of(o)));
        let label = match &row[0] {
            Some(s) => s,
            None => {
                proof {
                    lemma_error_persists(rows, i + 1, *today);
                }
                return Err(WeatherError::MissingField);
            },
        };
        let date = match infer_date(label.as_str(), today) {
            Ok(d) => d,
            Err(e) => {
                proof {
                    lemma_error_persists(rows, i + 1, *today);
                }
                return Err(e);
            },
        };
        let (low, high) = match (&row[1], &row[2]) {
            (Some(low), Some(high)) => (low, high),
            _ => {
                proof {
                    lemma_error_persists(rows, i + 1, *today);
                }
                return Err(WeatherError::MissingField);
            },
        };
        let p = Prediction {
            for_date: date.to_iso_string(),
            temp: TempPrediction {
                made_at: made_at.clone(),
                low: strip_degree(low.as_str()),
                high: strip_degree(high.as_str()),
            },
        };
        let ghost before = out@;
        out.push(p);
        assert(predictions_view(out@) =~= predictions_view(before).push(p@));
        i = i + 1;
    }
    assert(rows.take(n as int) =~= rows);
    Ok(out)
}

/// The readings on a forecast page, taken `today`: one for each card, in
/// document order.
pub fn scrape_info(html: &str, today: &Date) -> (r: Result<Vec<Prediction>, WeatherError>)
    requires
        today.wf(),
    ensures
        (match card_texts(
            html@,
            CARD_SELECTOR@,
            seq![LABEL_SELECTOR@, LOW_SELECTOR@, HIGH_SELECTOR@],
        ) {
            None => r == Err::<Vec<Prediction>, WeatherError>(WeatherError::MissingField),
            Some(rows) => result_view(r) == cards_predictions(rows, *today),
        }),
{
    let fields = vec![LABEL_SELECTOR, LOW_SELECTOR, HIGH_SELECTOR];
    assert(selector_texts(fields@) =~= seq![LABEL_SELECTOR@, LOW_SELECTOR@, HIGH_SELECTOR@]);
    match select_card_texts(html, CARD_SELECTOR, &fields) {
        None => Err(WeatherError::MissingField),
        Some(cards) => predictions_from_cards(&cards, today),
    }
}

} // verus!
