//! The environment engine: the calendar- and noise-driven index
//! `epsilon` that scales every price, with its per-second memoization.
//!
//! The Gaussian noise term is a plain micro-unit input: the surrounding
//! service samples it (the library has no randomness), and the index the
//! engine returns is an exact function of the date, the configuration,
//! the holiday table and that sample — always clamped to the hard floor.

use vstd::prelude::*;
use vstd::string::StrSliceExecFns;
use vstd::string::StringExecFns;

use crate::models::{AppConfig, EnvCache, MonthDay, ENV_FLOOR, ENV_LIMIT};

verus! {

/// The calendar facts one environment computation reads: the date, the
/// weekday (Monday = 1 through Sunday = 7) and the unix second it was
/// taken at.
#[derive(Clone, Copy, Debug)]
pub struct DateInfo {
    pub year: i32,
    pub month: u8,
    pub day: u8,
    pub weekday: u8,
    pub secs: i64,
}

impl DateInfo {
    pub open spec fn wf(self) -> bool {
        &&& 1 <= self.month <= 12
        &&& 1 <= self.day <= 31
        &&& 1 <= self.weekday <= 7
    }

    /// Order-preserving encoding of the full date, the holiday table's
    /// key.
    pub open spec fn spec_key(self) -> int {
        self.year * 10000 + self.month * 100 + self.day
    }

    /// The day within the year, for the seasonal ranges.
    pub open spec fn spec_month_day(self) -> MonthDay {
        MonthDay { month: self.month, day: self.day }
    }

    /// Encoding of the full date as the holiday table keys it.
    pub fn key(&self) -> (k: i64)
        ensures
            k == self.spec_key(),
    {
        (self.year as i64) * 10000 + (self.month as i64) * 100 + (self.day as i64)
    }
}

/// The holiday calendar: full-date keys mapped to whether the day is off
/// (`true`) or an explicitly compensated workday (`false`).
#[derive(Debug)]
pub struct HolidayTable {
    pub entries: Vec<(i64, bool)>,
}

/// First match of `key` in the entry sequence.
pub open spec fn spec_lookup_seq(s: Seq<(i64, bool)>, key: int) -> Option<bool>
    decreases s.len(),
{
    if s.len() == 0 {
        None
    } else if s.first().0 == key {
        Some(s.first().1)
    } else {
        spec_lookup_seq(s.drop_first(), key)
    }
}

impl HolidayTable {
    /// Keys are unique, so the first match is the only one.
    pub open spec fn wf(self) -> bool {
        forall|i: int, j: int|
            0 <= i < j < self.entries@.len() ==> (#[trigger] self.entries@[i]).0 != (
            #[trigger] self.entries@[j]).0
    }

    pub open spec fn spec_lookup(self, key: int) -> Option<bool> {
        spec_lookup_seq(self.entries@, key)
    }

    pub fn new() -> (t: Self)
        ensures
            t.wf(),
            t.entries@.len() == 0,
    {
        HolidayTable { entries: Vec::new() }
    }

    /// Number of days the table knows.
    pub fn len(&self) -> (n: usize)
        ensures
            n == self.entries@.len(),
    {
        self.entries.len()
    }

    /// What the calendar says about the day under `key`, if anything.
    pub fn lookup(&self, key: i64) -> (r: Option<bool>)
        ensures
            r == self.spec_lookup(key as int),
    {
        let n = self.entries.len();
        let mut i: usize = 0;
        proof {
            assert(self.entries@.skip(0) =~= self.entries@);
        }
        while i < n
            invariant
                0 <= i <= n,
                n == self.entries@.len(),
                spec_lookup_seq(self.entries@, key as int) == spec_lookup_seq(
                    self.entries@.skip(i as int),
                    key as int,
                ),
            decreases n - i,
        {
            proof {
                assert(self.entries@.skip(i as int).first() == self.entries@[i as int]);
                assert(self.entries@.skip(i as int).drop_first() =~= self.entries@.skip(i + 1));
            }
            if self.entries[i].0 == key {
                return Some(self.entries[i].1);
            }
            i = i + 1;
        }
        proof {
            assert(self.entries@.skip(n as int) =~= Seq::<(i64, bool)>::empty());
        }
        None
    }

    /// Records what the calendar says about one day, replacing any
    /// earlier word on it.
    pub fn insert(&mut self, key: i64, is_off: bool)
        requires
            old(self).wf(),
        ensures
            final(self).wf(),
            final(self).spec_lookup(key as int) == Some(is_off),
            forall|k: int|
                k != key ==> final(self).spec_lookup(k) == old(self).spec_lookup(k),
    {
        let n = self.entries.len();
        let mut i: usize = 0;
        while i < n
            invariant
                0 <= i <= n,
                n == self.entries@.len(),
                self.wf(),
                self == old(self),
                forall|j: int| 0 <= j < i ==> (#[trigger] self.entries@[j]).0 != key,
            decreases n - i,
        {
            if self.entries[i].0 == key {
                self.entries.set(i, (key, is_off));
                proof {
                    lemma_lookup_set(old(self).entries@, self.entries@, i as int, key as int);
                }
                return ;
            }
            i = i + 1;
        }
        self.entries.push((key, is_off));
        proof {
            lemma_lookup_push(old(self).entries@, key, is_off);
        }
    }
}

/// Replacing the entry at the unique index holding `key` rewrites that
/// key's lookup and no other.
proof fn lemma_lookup_set(olds: Seq<(i64, bool)>, news: Seq<(i64, bool)>, at: int, key: int)
    requires
        0 <= at < olds.len(),
        news.len() == olds.len(),
        olds[at].0 == key,
        forall|j: int| 0 <= j < olds.len() && j != at ==> #[trigger] news[j] == olds[j],
        news[at].0 == key,
        forall|i: int, j: int|
            0 <= i < j < olds.len() ==> (#[trigger] olds[i]).0 != (#[trigger] olds[j]).0,
    ensures
        spec_lookup_seq(news, key) == Some(news[at].1),
        forall|k: int| k != key ==> spec_lookup_seq(news, k) == spec_lookup_seq(olds, k),
    decreases olds.len(),
{
    if at == 0 {
        assert(news.first().0 == key);
        assert(spec_lookup_seq(news, key) == Some(news.first().1));
        assert forall|k: int| k != key implies spec_lookup_seq(news, k) == spec_lookup_seq(
            olds,
            k,
        ) by {
            assert(news.drop_first() =~= olds.drop_first());
            assert(spec_lookup_seq(news, k) == spec_lookup_seq(news.drop_first(), k));
            assert(spec_lookup_seq(olds, k) == spec_lookup_seq(olds.drop_first(), k));
        }
    } else {
        lemma_lookup_set(olds.drop_first(), news.drop_first(), at - 1, key);
        assert(news.first() == olds.first());
        assert(olds.first().0 != key);
        assert(news[at] == news.drop_first()[at - 1]);
        assert forall|k: int| k != key implies spec_lookup_seq(news, k) == spec_lookup_seq(
            olds,
            k,
        ) by {
            if news.first().0 == k {
                assert(spec_lookup_seq(news, k) == Some(news.first().1));
                assert(spec_lookup_seq(olds, k) == Some(olds.first().1));
            } else {
                assert(spec_lookup_seq(news, k) == spec_lookup_seq(news.drop_first(), k));
                assert(spec_lookup_seq(olds, k) == spec_lookup_seq(olds.drop_first(), k));
            }
        }
    }
}

/// Appending a fresh key answers for it and leaves the rest alone.
proof fn lemma_lookup_push(olds: Seq<(i64, bool)>, key: i64, is_off: bool)
    requires
        forall|j: int| 0 <= j < olds.len() ==> (#[trigger] olds[j]).0 != key,
    ensures
        spec_lookup_seq(olds.push((key, is_off)), key as int) == Some(is_off),
        forall|k: int|
            k != key ==> spec_lookup_seq(olds.push((key, is_off)), k) == spec_lookup_seq(olds, k),
    decreases olds.len(),
{
    let news = olds.push((key, is_off));
    assert(news[olds.len() as int] == (key, is_off));
    if olds.len() == 0 {
        assert(news.first() == (key, is_off));
        assert(news.drop_first() =~= Seq::<(i64, bool)>::empty());
        assert forall|k: int| k != key implies spec_lookup_seq(news, k) == spec_lookup_seq(
            olds,
            k,
        ) by {
            assert(spec_lookup_seq(news, k) == spec_lookup_seq(news.drop_first(), k));
            assert(spec_lookup_seq(news.drop_first(), k) == None::<bool>);
            assert(spec_lookup_seq(olds, k) == None::<bool>);
        }
    } else {
        lemma_lookup_push(olds.drop_first(), key, is_off);
        assert(news.first() == olds.first());
        assert(news.drop_first() =~= olds.drop_first().push((key, is_off)));
        assert(olds.first().0 != key);
        assert(spec_lookup_seq(news, key as int) == Some(is_off));
        assert forall|k: int| k != key implies spec_lookup_seq(news, k) == spec_lookup_seq(
            olds,
            k,
        ) by {
            if news.first().0 == k {
                assert(spec_lookup_seq(news, k) == Some(news.first().1));
                assert(spec_lookup_seq(olds, k) == Some(olds.first().1));
            } else {
                assert(spec_lookup_seq(news, k) == spec_lookup_seq(news.drop_first(), k));
                assert(spec_lookup_seq(olds, k) == spec_lookup_seq(olds.drop_first(), k));
            }
        }
    }
}

pub open spec fn spec_is_digit(c: char) -> bool {
    48 <= c as u32 <= 57
}

pub open spec fn spec_digit(c: char) -> int {
    c as u32 - 48
}

/// The month-day a five-character `MM-DD` spelling denotes, if the
/// spelling is digits around a dash.
pub open spec fn spec_month_day_of(s: Seq<char>) -> Option<MonthDay> {
    if s.len() == 5 && spec_is_digit(s[0]) && spec_is_digit(s[1]) && s[2] == '-' && spec_is_digit(
        s[3],
    ) && spec_is_digit(s[4]) {
        Some(
            MonthDay {
                month: (spec_digit(s[0]) * 10 + spec_digit(s[1])) as u8,
                day: (spec_digit(s[3]) * 10 + spec_digit(s[4])) as u8,
            },
        )
    } else {
        None
    }
}

/// Parses a season boundary such as `07-01`.
pub fn month_day_from_str(s: &str) -> (r: Option<MonthDay>)
    ensures
        r == spec_month_day_of(s@),
{
    if s.unicode_len() != 5 {
        return None;
    }
    let c0 = s.get_char(0);
    let c1 = s.get_char(1);
    let c2 = s.get_char(2);
    let c3 = s.get_char(3);
    let c4 = s.get_char(4);
    if !(is_digit(c0) && is_digit(c1) && c2 == '-' && is_digit(c3) && is_digit(c4)) {
        return None;
    }
    Some(
        MonthDay {
            month: (digit_value(c0) * 10 + digit_value(c1)) as u8,
            day: (digit_value(c3) * 10 + digit_value(c4)) as u8,
        },
    )
}

/// The holiday-table key a ten-character `YYYY-MM-DD` spelling denotes,
/// if the spelling is digits around two dashes.
pub open spec fn spec_date_key_of(s: Seq<char>) -> Option<i64> {
    if s.len() == 10 && spec_is_digit(s[0]) && spec_is_digit(s[1]) && spec_is_digit(s[2])
        && spec_is_digit(s[3]) && s[4] == '-' && spec_is_digit(s[5]) && spec_is_digit(s[6]) && s[7]
        == '-' && spec_is_digit(s[8]) && spec_is_digit(s[9]) {
        Some(
            ((spec_digit(s[0]) * 1000 + spec_digit(s[1]) * 100 + spec_digit(s[2]) * 10
                + spec_digit(s[3])) * 10000 + (spec_digit(s[5]) * 10 + spec_digit(s[6])) * 100 + (
            spec_digit(s[8]) * 10 + spec_digit(s[9]))) as i64,
        )
    } else {
        None
    }
}

/// Parses a full holiday date such as `2024-05-01` into its table key.
pub fn date_key_from_str(s: &str) -> (r: Option<i64>)
    ensures
        r == spec_date_key_of(s@),
{
    if s.unicode_len() != 10 {
        return None;
    }
    let c0 = s.get_char(0);
    let c1 = s.get_char(1);
    let c2 = s.get_char(2);
    let c3 = s.get_char(3);
    let c4 = s.get_char(4);
    let c5 = s.get_char(5);
    let c6 = s.get_char(6);
    let c7 = s.get_char(7);
    let c8 = s.get_char(8);
    let c9 = s.get_char(9);
    if !(is_digit(c0) && is_digit(c1) && is_digit(c2) && is_digit(c3) && c4 == '-' && is_digit(c5)
        && is_digit(c6) && c7 == '-' && is_digit(c8) && is_digit(c9)) {
        return None;
    }
    let year: i64 = (digit_value(c0) * 1000 + digit_value(c1) * 100 + digit_value(c2) * 10
        + digit_value(c3)) as i64;
    let month: i64 = (digit_value(c5) * 10 + digit_value(c6)) as i64;
    let day: i64 = (digit_value(c8) * 10 + digit_value(c9)) as i64;
    Some(year * 10000 + month * 100 + day)
}

fn is_digit(c: char) -> (r: bool)
    ensures
        r == spec_is_digit(c),
{
    let u = c as u32;
    48 <= u && u <= 57
}

fn digit_value(c: char) -> (r: u32)
    requires
        spec_is_digit(c),
    ensures
        r == spec_digit(c),
        r <= 9,
{
    (c as u32) - 48
}

/// Whether `current` lies in the closed range from `start` to `end`,
/// where a start past the end wraps around the turn of the year.
pub open spec fn spec_date_in_range(current: MonthDay, start: MonthDay, end: MonthDay) -> bool {
    if start.code() <= end.code() {
        start.code() <= current.code() <= end.code()
    } else {
        current.code() >= start.code() || current.code() <= end.code()
    }
}

pub fn is_date_in_range(current: MonthDay, start: MonthDay, end: MonthDay) -> (r: bool)
    ensures
        r == spec_date_in_range(current, start, end),
{
    let c: u16 = (current.month as u16) * 100 + (current.day as u16);
    let s: u16 = (start.month as u16) * 100 + (start.day as u16);
    let e: u16 = (end.month as u16) * 100 + (end.day as u16);
    if s <= e {
        s <= c && c <= e
    } else {
        c >= s || c <= e
    }
}

/// The three penalty decisions of one environment computation.
pub open spec fn spec_is_holiday(status: Option<bool>) -> bool {
    status == Some(true)
}

/// A weekend day is penalized unless the calendar claimed the day — as a
/// holiday or as a compensated workday.
pub open spec fn spec_weekend_penalty(date: DateInfo, status: Option<bool>) -> bool {
    date.weekday >= 6 && status is None
}

pub open spec fn spec_in_winter(config: AppConfig, date: DateInfo) -> bool {
    spec_date_in_range(date.spec_month_day(), config.winter_start, config.winter_end)
}

pub open spec fn spec_in_summer(config: AppConfig, date: DateInfo) -> bool {
    !spec_in_winter(config, date) && spec_date_in_range(
        date.spec_month_day(),
        config.summer_start,
        config.summer_end,
    )
}

/// The raw index before the floor: the base minus each earned penalty,
/// plus the noise sample.
pub open spec fn spec_env_epsilon(
    config: AppConfig,
    date: DateInfo,
    status: Option<bool>,
    noise: int,
) -> int {
    config.base_env_index - (if spec_is_holiday(status) {
        config.public_holiday_factor as int
    } else {
        0
    }) - (if spec_in_winter(config, date) || spec_in_summer(config, date) {
        config.holiday_factor as int
    } else {
        0
    }) - (if spec_weekend_penalty(date, status) {
        config.weekend_factor as int
    } else {
        0
    }) + noise
}

/// The index the engine reports: the raw index, floored.
pub open spec fn spec_env_index(
    config: AppConfig,
    date: DateInfo,
    status: Option<bool>,
    noise: int,
) -> int {
    let eps = spec_env_epsilon(config, date, status, noise);
    if eps >= ENV_FLOOR {
        eps
    } else {
        ENV_FLOOR as int
    }
}

/// A tag appended to a note: tags are joined by `+`.
pub open spec fn spec_join_tag(acc: Seq<char>, tag: Seq<char>) -> Seq<char> {
    if acc.len() == 0 {
        tag
    } else {
        acc + "+"@ + tag
    }
}

/// The note naming the penalties that applied, or `Normal` for none.
pub open spec fn spec_env_note(config: AppConfig, date: DateInfo, status: Option<bool>) -> Seq<
    char,
> {
    let s1: Seq<char> = if spec_is_holiday(status) {
        "Holiday"@
    } else {
        Seq::empty()
    };
    let s2: Seq<char> = if spec_in_winter(config, date) {
        spec_join_tag(s1, "Winter"@)
    } else if spec_in_summer(config, date) {
        spec_join_tag(s1, "Summer"@)
    } else {
        s1
    };
    let s3: Seq<char> = if spec_weekend_penalty(date, status) {
        spec_join_tag(s2, "Weekend"@)
    } else {
        s2
    };
    if s3.len() == 0 {
        "Normal"@
    } else {
        s3
    }
}

/// One full environment computation, memoization aside.
pub fn perform_calculation(
    config: &AppConfig,
    holidays: &HolidayTable,
    date: &DateInfo,
    noise: i64,
) -> (r: (i64, String))
    requires
        config.wf(),
        -ENV_LIMIT <= noise <= ENV_LIMIT,
    ensures
        r.0 == spec_env_index(*config, *date, holidays.spec_lookup(date.spec_key()), noise as int),
        r.1@ == spec_env_note(*config, *date, holidays.spec_lookup(date.spec_key())),
        ENV_FLOOR <= r.0 <= 2 * ENV_LIMIT,
{
    let status = holidays.lookup(date.key());
    let mut eps: i64 = config.base_env_index;
    let mut note = String::new();
    let mut tagged = false;
    proof {
        reveal_strlit("Holiday");
        reveal_strlit("Winter");
        reveal_strlit("Summer");
        reveal_strlit("Weekend");
        reveal_strlit("+");
        assert(note@ =~= Seq::<char>::empty());
    }
    let is_holiday = match status {
        Some(true) => true,
        _ => false,
    };
    if is_holiday {
        eps = eps - config.public_holiday_factor;
        note.append("Holiday");
        tagged = true;
    }
    let md = MonthDay { month: date.month, day: date.day };
    if is_date_in_range(md, config.winter_start, config.winter_end) {
        eps = eps - config.holiday_factor;
        if tagged {
            note.append("+");
        }
        note.append("Winter");
        tagged = true;
    } else if is_date_in_range(md, config.summer_start, config.summer_end) {
        eps = eps - config.holiday_factor;
        if tagged {
            note.append("+");
        }
        note.append("Summer");
        tagged = true;
    }
    let compensated = match status {
        Some(false) => true,
        _ => false,
    };
    if date.weekday >= 6 && !is_holiday && !compensated {
        eps = eps - config.weekend_factor;
        if tagged {
            note.append("+");
        }
        note.append("Weekend");
        tagged = true;
    }
    eps = eps + noise;
    let index: i64 = if eps >= ENV_FLOOR {
        eps
    } else {
        ENV_FLOOR
    };
    if tagged {
        (index, note)
    } else {
        (index, String::from_str("Normal"))
    }
}

/// A cached reading that answers for the given second.
pub open spec fn spec_cache_hit(cache: Option<EnvCache>, secs: int) -> bool {
    match cache {
        Some(c) => c.timestamp == secs,
        None => false,
    }
}

/// An absent cache is fine; a present one must hold a floored index.
pub open spec fn spec_cache_wf(cache: Option<EnvCache>) -> bool {
    match cache {
        Some(c) => c.wf(),
        None => true,
    }
}

pub open spec fn spec_cached_index(cache: Option<EnvCache>) -> int {
    match cache {
        Some(c) => c.index as int,
        None => 0,
    }
}

pub open spec fn spec_cached_note(cache: Option<EnvCache>) -> Seq<char> {
    match cache {
        Some(c) => c.note@,
        None => Seq::empty(),
    }
}

/// The memoized environment reading: within one unix second every caller
/// sees the cached value; past it the engine recomputes and refills the
/// cache.
pub fn calculate_current_env_index(
    config: &AppConfig,
    holidays: &HolidayTable,
    cache: &mut Option<EnvCache>,
    date: &DateInfo,
    noise: i64,
) -> (r: (i64, String))
    requires
        config.wf(),
        -ENV_LIMIT <= noise <= ENV_LIMIT,
        spec_cache_wf(*old(cache)),
    ensures
        ENV_FLOOR <= r.0 <= 2 * ENV_LIMIT,
        spec_cache_wf(*final(cache)),
        spec_cache_hit(*final(cache), date.secs as int),
        spec_cached_index(*final(cache)) == r.0,
        spec_cached_note(*final(cache)) == r.1@,
        spec_cache_hit(*old(cache), date.secs as int) ==> *final(cache) == *old(cache) && r.0
            == spec_cached_index(*old(cache)) && r.1@ == spec_cached_note(*old(cache)),
        !spec_cache_hit(*old(cache), date.secs as int) ==> r.0 == spec_env_index(
            *config,
            *date,
            holidays.spec_lookup(date.spec_key()),
            noise as int,
        ) && r.1@ == spec_env_note(*config, *date, holidays.spec_lookup(date.spec_key())),
{
    let hit: bool = match &*cache {
        Some(c) => c.timestamp == date.secs,
        None => false,
    };
    if hit {
        match &*cache {
            Some(c) => (c.index, c.note.clone()),
            None => (ENV_FLOOR, String::new()),  // unreachable: the hit test saw a value
        }
    } else {
        let (index, note) = perform_calculation(config, holidays, date, noise);
        let stored_note = note.clone();
        *cache = Some(
            EnvCache { index, last_update: date.secs, timestamp: date.secs, note: stored_note },
        );
        (index, note)
    }
}

/// The environment reading for this very moment: takes the calendar
/// facts from the wall clock and memoizes per second. Whatever moment
/// the clock reports, the index comes back floored and bounded and the
/// cache stays well-formed.
pub fn current_env_index(
    config: &AppConfig,
    holidays: &HolidayTable,
    cache: &mut Option<EnvCache>,
    noise: i64,
) -> (r: (i64, String))
    requires
        config.wf(),
        -ENV_LIMIT <= noise <= ENV_LIMIT,
        spec_cache_wf(*old(cache)),
    ensures
        ENV_FLOOR <= r.0 <= 2 * ENV_LIMIT,
        spec_cache_wf(*final(cache)),
        (*final(cache)) is Some,
        spec_cached_index(*final(cache)) == r.0,
        spec_cached_note(*final(cache)) == r.1@,
{
    let date = crate::clock::now_parts();
    calculate_current_env_index(config, holidays, cache, &date, noise)
}

} // verus!
