//! The history store: for each forecast date, the readings taken for it on
//! successive days, in the order they were taken.

use vstd::prelude::*;
use vstd::string::{StrSliceExecFns, StringExecFns};
use crate::error::WeatherError;

verus! {

/// One reading of a forecast, as text.
pub struct Reading {
    pub made_at: Seq<char>,
    pub low: Seq<char>,
    pub high: Seq<char>,
}

/// What the store holds: forecast date and its readings, one entry per date.
pub type History = Seq<(Seq<char>, Seq<Reading>)>;

/// A predicted low and high, and the day the prediction was read.
#[derive(Debug)]
pub struct TempPrediction {
    pub made_at: String,
    pub low: String,
    pub high: String,
}

impl View for TempPrediction {
    type V = Reading;

    open spec fn view(&self) -> Reading {
        Reading { made_at: self.made_at@, low: self.low@, high: self.high@ }
    }
}

/// A reading together with the date it is about.
#[derive(Debug)]
pub struct Prediction {
    pub for_date: String,
    pub temp: TempPrediction,
}

impl View for Prediction {
    type V = (Seq<char>, Reading);

    open spec fn view(&self) -> (Seq<char>, Reading) {
        (self.for_date@, self.temp@)
    }
}

pub open spec fn readings_of(temps: Seq<TempPrediction>) -> Seq<Reading> {
    temps.map_values(|t: TempPrediction| t@)
}

pub open spec fn predictions_view(ps: Seq<Prediction>) -> Seq<(Seq<char>, Reading)> {
    ps.map_values(|p: Prediction| p@)
}

/// The readings of one forecast date.
#[derive(Debug)]
pub struct DateHistory {
    pub for_date: String,
    pub temps: Vec<TempPrediction>,
}

impl View for DateHistory {
    type V = (Seq<char>, Seq<Reading>);

    open spec fn view(&self) -> (Seq<char>, Seq<Reading>) {
        (self.for_date@, readings_of(self.temps@))
    }
}

pub open spec fn histories_view(hs: Seq<DateHistory>) -> History {
    hs.map_values(|h: DateHistory| h@)
}

pub open spec fn keys_unique(h: History) -> bool {
    forall|i: int, j: int| 0 <= i < h.len() && 0 <= j < h.len() && i != j ==> h[i].0 != h[j].0
}

pub open spec fn has_key(h: History, k: Seq<char>) -> bool {
    exists|i: int| 0 <= i < h.len() && h[i].0 == k
}

pub open spec fn key_index(h: History, k: Seq<char>) -> int {
    choose|i: int| 0 <= i < h.len() && h[i].0 == k
}

/// `a` comes before `b`, comparing characters by code point from index `i`
/// on (for text, the order of `String`'s `Ord`).
pub open spec fn text_lt_from(a: Seq<char>, b: Seq<char>, i: int) -> bool
    decreases a.len() - i,
{
    if a.len() <= i {
        i < b.len()
    } else if b.len() <= i {
        false
    } else if a[i] != b[i] {
        (a[i] as int) < (b[i] as int)
    } else {
        text_lt_from(a, b, i + 1)
    }
}

pub open spec fn text_lt(a: Seq<char>, b: Seq<char>) -> bool {
    text_lt_from(a, b, 0)
}

/// Each date comes before the next one.
pub open spec fn keys_ascending(h: History) -> bool {
    forall|i: int| #![trigger h[i]] 0 < i < h.len() ==> text_lt(h[i - 1].0, h[i].0)
}

/// The first index at or after `i` whose date does not come before `k`.
pub open spec fn first_not_below(h: History, k: Seq<char>, i: int) -> int
    decreases h.len() - i,
{
    if 0 <= i < h.len() && text_lt(h[i].0, k) {
        first_not_below(h, k, i + 1)
    } else {
        i
    }
}

proof fn lemma_text_lt_total(a: Seq<char>, b: Seq<char>, i: int)
    requires
        0 <= i <= a.len(),
        i <= b.len(),
        forall|j: int| 0 <= j < i ==> a[j] == b[j],
        a != b,
    ensures
        text_lt_from(a, b, i) || text_lt_from(b, a, i),
    decreases a.len() - i,
{
    if i == a.len() {
        if i == b.len() {
            assert(a =~= b);
        }
    } else if i < b.len() && a[i] == b[i] {
        lemma_text_lt_total(a, b, i + 1);
    }
}

proof fn lemma_first_not_below(h: History, k: Seq<char>, i: int)
    requires
        0 <= i <= h.len(),
    ensures
        i <= first_not_below(h, k, i) <= h.len(),
        forall|j: int| i <= j < first_not_below(h, k, i) ==> text_lt(#[trigger] h[j].0, k),
        first_not_below(h, k, i) < h.len() ==> !text_lt(h[first_not_below(h, k, i)].0, k),
    decreases h.len() - i,
{
    if i < h.len() && text_lt(h[i].0, k) {
        lemma_first_not_below(h, k, i + 1);
    }
}

/// Adds one reading under its date, unless the last reading stored for that
/// date was taken on the same day.
pub open spec fn merge_one(h: History, p: (Seq<char>, Reading)) -> History {
    if has_key(h, p.0) {
        let i = key_index(h, p.0);
        let temps = h[i].1;
        if temps.len() > 0 && temps.last().made_at == p.1.made_at {
            h
        } else {
            h.update(i, (p.0, temps.push(p.1)))
        }
    } else {
        h.insert(first_not_below(h, p.0, 0), (p.0, seq![p.1]))
    }
}

/// Adds the readings one after the other, in order.
pub open spec fn merge_all(h: History, ps: Seq<(Seq<char>, Reading)>) -> History
    decreases ps.len(),
{
    if ps.len() == 0 {
        h
    } else {
        merge_one(merge_all(h, ps.drop_last()), ps.last())
    }
}

/// Readings of one date in `ps` were all taken on the same day.
pub open spec fn same_day_per_date(ps: Seq<(Seq<char>, Reading)>) -> bool {
    forall|i: int, j: int|
        0 <= i < ps.len() && 0 <= j < ps.len() && ps[i].0 == ps[j].0 ==> ps[i].1.made_at
            == ps[j].1.made_at
}

/// Each date of `ps` has readings in `h`, the last of them taken on the day
/// of the reading in `ps`.
pub open spec fn last_reading_matches(h: History, ps: Seq<(Seq<char>, Reading)>) -> bool {
    forall|j: int|
        0 <= j < ps.len() ==> {
            let k = #[trigger] ps[j].0;
            &&& has_key(h, k)
            &&& h[key_index(h, k)].1.len() > 0
            &&& h[key_index(h, k)].1.last().made_at == ps[j].1.made_at
        }
}

proof fn lemma_key_index(h: History, k: Seq<char>, i: int)
    requires
        keys_unique(h),
        0 <= i < h.len(),
        h[i].0 == k,
    ensures
        has_key(h, k),
        key_index(h, k) == i,
{
    assert(h[i].0 == k);
}

proof fn lemma_merge_one(h: History, p: (Seq<char>, Reading))
    requires
        keys_unique(h),
    ensures
        ({
            let m = merge_one(h, p);
            &&& keys_unique(m)
            &&& has_key(m, p.0)
            &&& m[key_index(m, p.0)].1.len() > 0
            &&& m[key_index(m, p.0)].1.last().made_at == p.1.made_at
            &&& forall|k: Seq<char>|
                k != p.0 && #[trigger] has_key(h, k) ==> has_key(m, k) && m[key_index(m, k)].1
                    == h[key_index(h, k)].1
        }),
{
    let m = merge_one(h, p);
    if has_key(h, p.0) {
        let i = key_index(h, p.0);
        assert(m.len() == h.len());
        assert(forall|j: int| 0 <= j < h.len() ==> m[j].0 == h[j].0);
        lemma_key_index(m, p.0, i);
        assert forall|k: Seq<char>| k != p.0 && #[trigger] has_key(h, k) implies has_key(m, k)
            && m[key_index(m, k)].1 == h[key_index(h, k)].1 by {
            let c = key_index(h, k);
            lemma_key_index(m, k, c);
        }
    } else {
        let at = first_not_below(h, p.0, 0);
        lemma_first_not_below(h, p.0, 0);
        h.insert_ensures(at, (p.0, seq![p.1]));
        assert(keys_unique(m)) by {
            assert forall|i: int, j: int|
                0 <= i < m.len() && 0 <= j < m.len() && i != j implies m[i].0 != m[j].0 by {
                if i != at && j != at {
                    let hi = if i < at { i } else { i - 1 };
                    let hj = if j < at { j } else { j - 1 };
                    assert(m[i] == h[hi] && m[j] == h[hj]);
                } else if i == at {
                    let hj = if j < at { j } else { j - 1 };
                    assert(m[j] == h[hj]);
                } else {
                    let hi = if i < at { i } else { i - 1 };
                    assert(m[i] == h[hi]);
                }
            }
        }
        lemma_key_index(m, p.0, at);
        assert forall|k: Seq<char>| k != p.0 && #[trigger] has_key(h, k) implies has_key(m, k)
            && m[key_index(m, k)].1 == h[key_index(h, k)].1 by {
            let c = key_index(h, k);
            let mc = if c < at { c } else { c + 1 };
            assert(m[mc] == h[c]);
            lemma_key_index(m, k, mc);
        }
    }
}

proof fn lemma_merge_one_ascending(h: History, p: (Seq<char>, Reading))
    requires
        keys_unique(h),
        keys_ascending(h),
    ensures
        keys_ascending(merge_one(h, p)),
{
    let m = merge_one(h, p);
    if has_key(h, p.0) {
        assert(forall|j: int| 0 <= j < h.len() ==> m[j].0 == h[j].0);
    } else {
        let at = first_not_below(h, p.0, 0);
        lemma_first_not_below(h, p.0, 0);
        h.insert_ensures(at, (p.0, seq![p.1]));
        assert forall|i: int| #![trigger m[i]] 0 < i < m.len() implies text_lt(m[i - 1].0, m[i].0) by {
            if i < at {
                assert(m[i - 1] == h[i - 1] && m[i] == h[i]);
            } else if i == at {
                assert(m[i - 1] == h[i - 1]);
            } else if i == at + 1 {
                assert(m[i] == h[at]);
                assert(h[at].0 != p.0);
                lemma_text_lt_total(h[at].0, p.0, 0);
            } else {
                assert(m[i - 1] == h[i - 2] && m[i] == h[i - 1]);
            }
        }
    }
}

proof fn lemma_merge_sets_last(h: History, ps: Seq<(Seq<char>, Reading)>)
    requires
        keys_unique(h),
        same_day_per_date(ps),
    ensures
        keys_unique(merge_all(h, ps)),
        last_reading_matches(merge_all(h, ps), ps),
    decreases ps.len(),
{
    if ps.len() > 0 {
        let pre = ps.drop_last();
        let p = ps.last();
        assert(same_day_per_date(pre)) by {
            assert(forall|i: int| 0 <= i < pre.len() ==> pre[i] == ps[i]);
        }
        lemma_merge_sets_last(h, pre);
        let m = merge_all(h, pre);
        lemma_merge_one(m, p);
        let r = merge_all(h, ps);
        assert forall|j: int| 0 <= j < ps.len() implies {
            let k = #[trigger] ps[j].0;
            &&& has_key(r, k)
            &&& r[key_index(r, k)].1.len() > 0
            &&& r[key_index(r, k)].1.last().made_at == ps[j].1.made_at
        } by {
            let k = ps[j].0;
            if k == p.0 {
                assert(ps[ps.len() - 1] == p);
            } else {
                assert(j < pre.len());
                assert(pre[j] == ps[j]);
                assert(has_key(m, k));
            }
        }
    }
}

proof fn lemma_merge_unchanged(h: History, ps: Seq<(Seq<char>, Reading)>)
    requires
        last_reading_matches(h, ps),
    ensures
        merge_all(h, ps) == h,
    decreases ps.len(),
{
    if ps.len() > 0 {
        let pre = ps.drop_last();
        assert(last_reading_matches(h, pre)) by {
            assert forall|j: int| 0 <= j < pre.len() implies {
                let k = #[trigger] pre[j].0;
                &&& has_key(h, k)
                &&& h[key_index(h, k)].1.len() > 0
                &&& h[key_index(h, k)].1.last().made_at == pre[j].1.made_at
            } by {
                assert(pre[j] == ps[j]);
            }
        }
        lemma_merge_unchanged(h, pre);
        let last = ps.len() - 1;
        assert(ps[last] == ps.last());
        assert(has_key(h, ps[last].0));
    }
}

/// Merging a batch a second time changes nothing, when the readings that the
/// batch holds for any one date were all taken on the same day (as they are
/// when the batch comes from one scrape).
pub proof fn merge_is_idempotent(h: History, ps: Seq<(Seq<char>, Reading)>)
    requires
        keys_unique(h),
        same_day_per_date(ps),
    ensures
        merge_all(merge_all(h, ps), ps) == merge_all(h, ps),
{
    lemma_merge_sets_last(h, ps);
    lemma_merge_unchanged(merge_all(h, ps), ps);
}

/// The first line of an export file.
pub open spec fn csv_header() -> Seq<char> {
    "at date\tlow\thigh\n"@
}

/// One line of an export file: when the reading was taken, its low, its high.
pub open spec fn csv_row(r: Reading) -> Seq<char> {
    r.made_at + seq!['\t'] + r.low + seq!['\t'] + r.high + seq!['\n']
}

pub open spec fn csv_rows(rs: Seq<Reading>) -> Seq<char>
    decreases rs.len(),
{
    if rs.len() == 0 {
        Seq::empty()
    } else {
        csv_rows(rs.drop_last()) + csv_row(rs.last())
    }
}

/// The export file of one forecast date: the header, then a line per reading.
pub open spec fn csv_text(rs: Seq<Reading>) -> Seq<char> {
    csv_header() + csv_rows(rs)
}

/// The name of the export file of a forecast date.
pub open spec fn csv_name(for_date: Seq<char>) -> Seq<char> {
    for_date + ".csv"@
}

/// What an empty history file stands for.
pub open spec fn empty_store_text() -> Seq<char> {
    "{\"predictions\":{}}"@
}

/// The text of the history file to read: an empty file is a new, empty history.
pub fn store_text_or_empty(contents: String) -> (r: String)
    ensures
        r@ == if contents@.len() == 0 { empty_store_text() } else { contents@ },
{
    if contents.unicode_len() == 0 {
        String::from_str("{\"predictions\":{}}")
    } else {
        contents
    }
}

/// The export file of one forecast date.
pub fn csv_content(temps: &Vec<TempPrediction>) -> (r: String)
    ensures
        r@ == csv_text(readings_of(temps@)),
{
    let ghost rs = readings_of(temps@);
    let mut out = String::from_str("at date\tlow\thigh\n");
    let n = temps.len();
    let mut i: usize = 0;
    while i < n
        invariant
            n == temps@.len(),
            rs == readings_of(temps@),
            i <= n,
            out@ == csv_header() + csv_rows(rs.take(i as int)),
        decreases n - i,
    {
        assert(rs.take(i + 1).drop_last() =~= rs.take(i as int));
        let t = &temps[i];
        out.append(t.made_at.as_str());
        out.append("\t");
        out.append(t.low.as_str());
        out.append("\t");
        out.append(t.high.as_str());
        out.append("\n");
        proof {
            reveal_strlit("\t");
            reveal_strlit("\n");
            assert(rs.take(i + 1).last() == t@);
        }
        assert(out@ =~= csv_header() + csv_rows(rs.take(i + 1)));
        i = i + 1;
    }
    assert(rs.take(n as int) =~= rs);
    out
}

/// Whether `a` comes before `b`.
fn text_less(a: &String, b: &String) -> (r: bool)
    ensures
        r == text_lt(a@, b@),
{
    let (x, y) = (a.as_str(), b.as_str());
    let (alen, blen) = (x.unicode_len(), y.unicode_len());
    let mut i: usize = 0;
    loop
        invariant
            x@ == a@,
            y@ == b@,
            alen == a@.len(),
            blen == b@.len(),
            i <= alen,
            i <= blen,
            text_lt_from(a@, b@, i as int) == text_lt(a@, b@),
        decreases alen - i,
    {
        if i == alen {
            return i < blen;
        }
        if i == blen {
            return false;
        }
        let (ca, cb) = (x.get_char(i), y.get_char(i));
        if ca != cb {
            return (ca as u32) < (cb as u32);
        }
        i = i + 1;
    }
}

/// The whole history: each forecast date at most once, in ascending order.
#[derive(Debug)]
pub struct SavedPredictions {
    histories: Vec<DateHistory>,
}

impl View for SavedPredictions {
    type V = History;

    closed spec fn view(&self) -> History {
        histories_view(self.histories@)
    }
}

impl SavedPredictions {
    pub open spec fn wf(&self) -> bool {
        keys_unique(self@) && keys_ascending(self@)
    }

    /// An empty history.
    pub fn new() -> (r: SavedPredictions)
        ensures
            r.wf(),
            r@ == Seq::<(Seq<char>, Seq<Reading>)>::empty(),
    {
        SavedPredictions { histories: Vec::new() }
    }

    /// A history from its entries, which must come in ascending date order as
    /// the history file holds them; a store that names a date twice, or out
    /// of order, is corrupt.
    pub fn from_histories(histories: Vec<DateHistory>) -> (r: Result<SavedPredictions, WeatherError>)
        ensures
            r is Ok <==> keys_unique(histories_view(histories@)) && keys_ascending(
                histories_view(histories@),
            ),
            r matches Ok(s) ==> s@ == histories_view(histories@) && s.wf(),
            r matches Err(e) ==> e == WeatherError::StoreCorrupt,
    {
        let n = histories.len();
        let ghost h = histories_view(histories@);
        let mut i: usize = 0;
        while i < n
            invariant
                n == histories@.len(),
                h == histories_view(histories@),
                i <= n,
                forall|a: int, b: int| 0 <= a < i && 0 <= b < n && a != b ==> h[a].0 != h[b].0,
            decreases n - i,
        {
            let mut j: usize = 0;
            while j < n
                invariant
                    n == histories@.len(),
                    h == histories_view(histories@),
                    i < n,
                    j <= n,
                    forall|a: int, b: int| 0 <= a < i && 0 <= b < n && a != b ==> h[a].0 != h[b].0,
                    forall|b: int| 0 <= b < j && b != i ==> h[i as int].0 != h[b].0,
                decreases n - j,
            {
                if j != i && histories[i].for_date == histories[j].for_date {
                    assert(h[i as int].0 == h[j as int].0);
                    return Err(WeatherError::StoreCorrupt);
                }
                j = j + 1;
            }
            i = i + 1;
        }
        let mut k: usize = 1;
        while k < n
            invariant
                n == histories@.len(),
                h == histories_view(histories@),
                1 <= k,
                forall|a: int| #![trigger h[a]] 0 < a < k && a < n ==> text_lt(h[a - 1].0, h[a].0),
            decreases n - k,
        {
            if !text_less(&histories[k - 1].for_date, &histories[k].for_date) {
                assert(!text_lt(h[k - 1].0, h[k as int].0));
                return Err(WeatherError::StoreCorrupt);
            }
            k = k + 1;
        }
        Ok(SavedPredictions { histories })
    }

    /// The entries, one per forecast date, in ascending date order.
    pub fn histories(&self) -> (r: &Vec<DateHistory>)
        ensures
            histories_view(r@) == self@,
    {
        &self.histories
    }

    /// Gives up the entries, one per forecast date, in ascending date order.
    pub fn into_histories(self) -> (r: Vec<DateHistory>)
        ensures
            histories_view(r@) == self@,
    {
        self.histories
    }

    /// Adds each prediction under its date, in order, unless the last reading
    /// stored for that date was taken on the same day as the prediction.
    pub fn merge(&mut self, predictions: &Vec<Prediction>)
        requires
            old(self).wf(),
        ensures
            final(self).wf(),
            final(self)@ == merge_all(old(self)@, predictions_view(predictions@)),
    {
        let n = predictions.len();
        let ghost ps = predictions_view(predictions@);
        let mut k: usize = 0;
        while k < n
            invariant
                n == predictions@.len(),
                ps == predictions_view(predictions@),
                k <= n,
                self.wf(),
                self@ == merge_all(old(self)@, ps.take(k as int)),
            decreases n - k,
        {
            assert(ps.take(k + 1).drop_last() =~= ps.take(k as int));
            self.merge_prediction(&predictions[k]);
            k = k + 1;
        }
        assert(ps.take(n as int) =~= ps);
    }

    fn merge_prediction(&mut self, p: &Prediction)
        requires
            old(self).wf(),
        ensures
            final(self).wf(),
            final(self)@ == merge_one(old(self)@, p@),
    {
        proof {
            lemma_merge_one(self@, p@);
            lemma_merge_one_ascending(self@, p@);
        }
        let t = TempPrediction {
            made_at: p.temp.made_at.clone(),
            low: p.temp.low.clone(),
            high: p.temp.high.clone(),
        };
        assert(t@ == p.temp@);
        match self.find(&p.for_date) {
            Some(i) => {
                let n = self.histories[i].temps.len();
                if n == 0 || self.histories[i].temps[n - 1].made_at != t.made_at {
                    let ghost before = self.histories@;
                    self.histories[i].temps.push(t);
                    assert(readings_of(self.histories@[i as int].temps@) =~= readings_of(
                        before[i as int].temps@,
                    ).push(p.temp@));
                    assert(forall|j: int| 0 <= j < before.len() && j != i ==> self.histories@[j] == before[j]);
                    assert(self@ =~= old(self)@.update(i as int, (p.for_date@, old(self)@[i as int].1.push(p.temp@))));
                }
            },
            None => {
                let at = self.insert_position(&p.for_date);
                proof {
                    lemma_first_not_below(self@, p.for_date@, 0);
                }
                let mut temps = Vec::new();
                temps.push(t);
                assert(readings_of(temps@) =~= seq![p.temp@]);
                self.histories.insert(at, DateHistory { for_date: p.for_date.clone(), temps });
                assert(self@ =~= old(self)@.insert(at as int, (p.for_date@, seq![p.temp@])));
            },
        }
    }

    /// Each forecast date's export file: its name and its text, in the order
    /// of the entries.
    pub fn export_files(&self) -> (r: Vec<(String, String)>)
        ensures
            r@.len() == self@.len(),
            forall|i: int|
                0 <= i < r@.len() ==> (#[trigger] r@[i]).0@ == csv_name(self@[i].0) && r@[i].1@
                    == csv_text(self@[i].1),
    {
        let n = self.histories.len();
        let mut out: Vec<(String, String)> = Vec::new();
        let mut i: usize = 0;
        while i < n
            invariant
                n == self@.len(),
                i <= n,
                out@.len() == i,
                forall|j: int|
                    0 <= j < i ==> (#[trigger] out@[j]).0@ == csv_name(self@[j].0) && out@[j].1@
                        == csv_text(self@[j].1),
            decreases n - i,
        {
            let h = &self.histories[i];
            let mut name = h.for_date.clone();
            name.append(".csv");
            out.push((name, csv_content(&h.temps)));
            i = i + 1;
        }
        out
    }

    /// Where an entry for `key` belongs: after every date that comes before it.
    fn insert_position(&self, key: &String) -> (r: usize)
        ensures
            r == first_not_below(self@, key@, 0),
    {
        let n = self.histories.len();
        let mut i: usize = 0;
        while i < n && text_less(&self.histories[i].for_date, key)
            invariant
                n == self@.len(),
                i <= n,
                first_not_below(self@, key@, i as int) == first_not_below(self@, key@, 0),
            decreases n - i,
        {
            i = i + 1;
        }
        i
    }

    /// The index of the entry for `key`, if there is one.
    fn find(&self, key: &String) -> (r: Option<usize>)
        requires
            self.wf(),
        ensures
            r is Some <==> has_key(self@, key@),
            r matches Some(i) ==> i == key_index(self@, key@) && i < self@.len(),
    {
        let n = self.histories.len();
        let mut i: usize = 0;
        while i < n
            invariant
                self.wf(),
                n == self@.len(),
                i <= n,
                forall|j: int| 0 <= j < i ==> self@[j].0 != key@,
            decreases n - i,
        {
            if self.histories[i].for_date == *key {
                assert(self@[i as int].0 == key@);
                assert(has_key(self@, key@));
                let ghost c = key_index(self@, key@);
                assert(0 <= c < self@.len() && self@[c].0 == key@);
                return Some(i);
            }
            i = i + 1;
        }
        None
    }
}

} // verus!
