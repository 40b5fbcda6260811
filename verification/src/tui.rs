//! The terminal dashboard: its state, and the sparklines.

use crate::models::{SERVICE_CLAUDE_CODE, SERVICE_CODEX, SERVICE_OPENROUTER};
use crate::number::{one, zero, Real, ONE_BITS};
use crate::text::{str_eq, title, title_of};
use crate::time::{Timestamp, DAY, HOUR};
use vstd::prelude::*;

verus! {

/// `char::from_u32`: the character of a code point. The contract claims that there is one
/// for every number up to 0x10ffff but the surrogates.
pub assume_specification[ char::from_u32 ](i: u32) -> (r: Option<char>)
    ensures
        r == if i <= 0xd7ff || (0xe000 <= i && i <= 0x10ffff) {
            Some(i as char)
        } else {
            None
        },
;

/// What is shown.
#[derive(Debug, Clone, Copy, PartialEq, Eq, Structural)]
pub enum Page {
    Overview,
    Projects,
}

/// A key.
#[derive(Debug, Clone, Copy, PartialEq, Eq, Structural)]
pub enum Key {
    Char(char),
    Esc,
    Tab,
    Up,
    Down,
    Other,
}

/// What is shown, and the service that is selected.
#[derive(Debug, Clone, Copy, PartialEq, Eq, Structural)]
pub struct Screen {
    pub view: Page,
    pub selected: usize,
}

/// What a key asks for beyond what is shown.
#[derive(Debug, Clone, Copy, PartialEq, Eq, Structural)]
pub enum Action {
    Nothing,
    Quit,
    Refresh,
}

/// The screen and the action after a key, with `services` services to select from.
pub open spec fn after_key(s: Screen, key: Key, services: int) -> (Screen, Action) {
    match key {
        Key::Char('q') | Key::Esc => (s, Action::Quit),
        Key::Char('p') => (Screen { view: Page::Projects, selected: s.selected }, Action::Nothing),
        Key::Char('o') => (Screen { view: Page::Overview, selected: s.selected }, Action::Nothing),
        Key::Down | Key::Tab | Key::Char('j') => (
            Screen {
                view: s.view,
                selected: if services > 0 {
                    ((s.selected + 1) % services) as usize
                } else {
                    s.selected
                },
            },
            Action::Nothing,
        ),
        Key::Up | Key::Char('k') => (
            Screen {
                view: s.view,
                selected: if services > 0 {
                    ((s.selected + services - 1) % services) as usize
                } else {
                    s.selected
                },
            },
            Action::Nothing,
        ),
        Key::Char('r') => (s, Action::Refresh),
        _ => (s, Action::Nothing),
    }
}

/// The screen and the action after a key, with `services` services to select from.
pub fn on_key(s: Screen, key: Key, services: usize) -> (r: (Screen, Action))
    requires
        s.selected < usize::MAX,
        s.selected + services <= usize::MAX,
    ensures
        r == after_key(s, key, services as int),
{
    let mut next = s;
    match key {
        Key::Char('q') | Key::Esc => return (s, Action::Quit),
        Key::Char('p') => {
            next.view = Page::Projects;
        },
        Key::Char('o') => {
            next.view = Page::Overview;
        },
        Key::Down | Key::Tab | Key::Char('j') => {
            if services > 0 {
                next.selected = (s.selected + 1) % services;
            }
        },
        Key::Up | Key::Char('k') => {
            if services > 0 {
                next.selected = (s.selected + services - 1) % services;
            }
        },
        Key::Char('r') => return (s, Action::Refresh),
        _ => {},
    }
    (next, Action::Nothing)
}

/// The selection among `shown` services: the first where it is past the last.
pub fn keep_selected(selected: usize, shown: usize) -> (r: usize)
    ensures
        r == if selected >= shown {
            0
        } else {
            selected as int
        },
{
    if selected >= shown {
        0
    } else {
        selected
    }
}

/// Whether what is shown is to be read anew after this long: more than three seconds.
pub fn refresh_due(secs: u64, nanos: u32) -> (r: bool)
    ensures
        r == (secs > 3 || (secs == 3 && nanos > 0)),
{
    secs > 3 || (secs == 3 && nanos > 0)
}

/// No key leads out of the services: a selection among them stays among them, and up undoes
/// down.
pub proof fn law_selection_stays(s: Screen, key: Key, services: int)
    requires
        0 <= s.selected < services <= usize::MAX,
    ensures
        after_key(s, key, services).0.selected < services,
        after_key(after_key(s, Key::Down, services).0, Key::Up, services).0 == s,
        after_key(after_key(s, Key::Up, services).0, Key::Down, services).0 == s,
        after_key(after_key(s, Key::Tab, services).0, Key::Up, services).0 == s,
{
    let n = services;
    let x = s.selected as int;
    if x + 1 < n {
        vstd::arithmetic::div_mod::lemma_small_mod((x + 1) as nat, n as nat);
    } else {
        vstd::arithmetic::div_mod::lemma_mod_self_0(n);
    }
    if x > 0 {
        vstd::arithmetic::div_mod::lemma_mod_add_multiples_vanish(x - 1, n);
        vstd::arithmetic::div_mod::lemma_small_mod((x - 1) as nat, n as nat);
    } else {
        vstd::arithmetic::div_mod::lemma_small_mod((n - 1) as nat, n as nat);
    }
    vstd::arithmetic::div_mod::lemma_mod_add_multiples_vanish(x, n);
    vstd::arithmetic::div_mod::lemma_small_mod(x as nat, n as nat);
    vstd::arithmetic::div_mod::lemma_mod_self_0(n);
}

/// The name of a service for people.
pub open spec fn label_of(service: Seq<char>) -> Seq<char> {
    if service == SERVICE_CLAUDE_CODE@ || service == SERVICE_CODEX@ {
        title(service)
    } else if service == SERVICE_OPENROUTER@ {
        "OpenRouter"@
    } else {
        service
    }
}

/// The name of a service for people.
pub fn label(service: &str) -> (r: String)
    ensures
        r@ == label_of(service@),
{
    if str_eq(service, SERVICE_CLAUDE_CODE) || str_eq(service, SERVICE_CODEX) {
        title_of(service)
    } else if str_eq(service, SERVICE_OPENROUTER) {
        "OpenRouter".to_owned()
    } else {
        service.to_owned()
    }
}

/// A colour.
#[derive(Debug, Clone, Copy, PartialEq, Eq, Structural)]
pub enum Colour {
    Green,
    Yellow,
    Red,
    Gray,
}

/// The colour of a status.
pub fn status_color(status: &str) -> (r: Colour)
    ensures
        r == if status@ == "green"@ {
            Colour::Green
        } else if status@ == "amber"@ {
            Colour::Yellow
        } else if status@ == "red"@ {
            Colour::Red
        } else {
            Colour::Gray
        },
{
    if str_eq(status, "green") {
        Colour::Green
    } else if str_eq(status, "amber") {
        Colour::Yellow
    } else if str_eq(status, "red") {
        Colour::Red
    } else {
        Colour::Gray
    }
}

/// The number of projects that fit in `height` lines, three each: at least one.
pub fn projects_that_fit(height: u16) -> (r: usize)
    ensures
        r == if height < 3 {
            1
        } else {
            height as int / 3
        },
{
    if height < 3 {
        1
    } else {
        (height / 3) as usize
    }
}

// ---------------------------------------------------------------------------
// The chart
// ---------------------------------------------------------------------------

/// The share that a gauge is filled to: none for an unknown one, and never outside of what a
/// gauge can show.
pub open spec fn ratio_of(pct_now: Option<Real>) -> Real {
    let p = match pct_now {
        Some(x) => x,
        None => zero(),
    };
    if p.spec_lt(zero()) {
        zero()
    } else if one().spec_lt(p) {
        one()
    } else {
        p
    }
}

/// The share that a gauge is filled to.
pub fn gauge_ratio(pct_now: Option<Real>) -> (r: Real)
    ensures
        r == ratio_of(pct_now),
{
    let p = match pct_now {
        Some(x) => x,
        None => Real { bits: 0 },
    };
    if p.lt(Real { bits: 0 }) {
        Real { bits: 0 }
    } else if (Real { bits: ONE_BITS }).lt(p) {
        Real { bits: ONE_BITS }
    } else {
        p
    }
}

/// A line of the chart.
#[derive(Debug, Clone, Copy, PartialEq, Eq, Structural)]
pub enum Series {
    Cap,
    UpperBound,
    LowerBound,
    Projected,
    Observed,
    Readings,
}

/// The lines of the chart, in the order in which they are drawn: the cap always, the others
/// where there is something to draw. What was observed is drawn only against a cap.
pub open spec fn series_of(projected: bool, observed: bool, axis_cap: Option<Real>, readings: bool) -> Seq<
    Series,
> {
    seq![Series::Cap] + (if projected {
        seq![Series::UpperBound, Series::LowerBound, Series::Projected]
    } else {
        Seq::empty()
    }) + (if observed && axis_cap is Some && zero().spec_lt(axis_cap->0) {
        seq![Series::Observed]
    } else {
        Seq::empty()
    }) + (if readings {
        seq![Series::Readings]
    } else {
        Seq::empty()
    })
}

/// The lines of the chart, in the order in which they are drawn.
pub fn chart_series(projected: bool, observed: bool, axis_cap: Option<Real>, readings: bool) -> (r: Vec<
    Series,
>)
    ensures
        r@ == series_of(projected, observed, axis_cap, readings),
{
    let mut v: Vec<Series> = Vec::new();
    v.push(Series::Cap);
    if projected {
        v.push(Series::UpperBound);
        v.push(Series::LowerBound);
        v.push(Series::Projected);
    }
    let scaled = match axis_cap {
        Some(c) => c.positive(),
        None => false,
    };
    if observed && scaled {
        v.push(Series::Observed);
    }
    if readings {
        v.push(Series::Readings);
    }
    assert(v@ =~= series_of(projected, observed, axis_cap, readings));
    v
}

/// The days that begin within a window of whole hours, at least one hour long, after the first.
pub open spec fn whole_days(start: Timestamp, end: Timestamp) -> int {
    let hours = (end.secs - start.secs) / HOUR as int;
    (if hours < 1 {
        1
    } else {
        hours
    }) / 24
}

/// The times that the days of a window are marked at: its start, and each whole day after it.
pub fn day_marks(start: Timestamp, end: Timestamp) -> (r: Vec<Timestamp>)
    requires
        start.wf(),
        end.wf(),
    ensures
        r@.len() == whole_days(start, end) + 1,
        forall|d: int| 0 <= d < r@.len() ==> #[trigger] r@[d] == start.shifted(d * DAY),
        forall|d: int| 0 <= d < r@.len() ==> (#[trigger] r@[d]).wf(),
{
    let span: i64 = end.secs - start.secs;
    let hours: i64 = if span < HOUR {
        1
    } else {
        span / HOUR
    };
    let days: i64 = hours / 24;
    let mut out: Vec<Timestamp> = Vec::new();
    let mut d: i64 = 0;
    while d <= days
        invariant
            start.wf(),
            end.wf(),
            days == whole_days(start, end),
            0 <= days,
            days * DAY <= end.secs - start.secs || days == 0,
            0 <= d <= days + 1,
            out@.len() == d,
            forall|k: int| 0 <= k < d ==> #[trigger] out@[k] == start.shifted(k * DAY),
            forall|k: int| 0 <= k < d ==> (#[trigger] out@[k]).wf(),
        decreases days + 1 - d,
    {
        out.push(start.shift(d * DAY));
        d = d + 1;
    }
    out
}

/// The pattern of a thousand.
pub const THOUSAND: u64 = 0x408f_4000_0000_0000;

/// The pattern of a million.
pub const MILLION: u64 = 0x412e_8480_0000_0000;

/// The pattern of a thousand million.
pub const BILLION: u64 = 0x41cd_cd65_0000_0000;

/// The unit that a number of tokens is written in.
#[derive(Debug, Clone, Copy, PartialEq, Eq, Structural)]
pub enum Scale {
    Billions,
    Millions,
    Thousands,
    Ones,
}

/// The unit that a number of tokens is written in: the largest that it reaches.
pub fn token_scale(n: Real) -> (r: Scale)
    ensures
        r == if (Real { bits: BILLION }).spec_le(n) {
            Scale::Billions
        } else if (Real { bits: MILLION }).spec_le(n) {
            Scale::Millions
        } else if (Real { bits: THOUSAND }).spec_le(n) {
            Scale::Thousands
        } else {
            Scale::Ones
        },
{
    if (Real { bits: BILLION }).le(n) {
        Scale::Billions
    } else if (Real { bits: MILLION }).le(n) {
        Scale::Millions
    } else if (Real { bits: THOUSAND }).le(n) {
        Scale::Thousands
    } else {
        Scale::Ones
    }
}

// ---------------------------------------------------------------------------
// Sparklines
// ---------------------------------------------------------------------------

/// The largest of numbers, zero where none is above it.
pub open spec fn peak(vals: Seq<i128>) -> int
    decreases vals.len(),
{
    if vals.len() == 0 {
        0
    } else {
        let p = peak(vals.drop_last());
        if vals.last() > p {
            vals.last() as int
        } else {
            p
        }
    }
}

/// The height of a column in dots: the share of the peak that the number is, of `rows` dots,
/// rounded to the nearest, halves up. Nothing for a number that is not above zero.
pub open spec fn level(v: int, peak: int, rows: int) -> int {
    if v <= 0 {
        0
    } else {
        (2 * v * rows + peak) / (2 * peak)
    }
}

/// Whether the dot `dot` lines from the top of `rows` is lit in column `col`.
pub open spec fn is_lit(vals: Seq<i128>, col: int, dot: int, rows: int) -> bool {
    0 <= col < vals.len() && level(vals[col] as int, peak(vals), rows) >= rows - dot
}

/// The code of a dot of a braille character that has four lines and two columns.
pub open spec fn dot_code(line: int, right: bool) -> int {
    if !right {
        if line == 0 {
            0x01
        } else if line == 1 {
            0x02
        } else if line == 2 {
            0x04
        } else {
            0x40
        }
    } else {
        if line == 0 {
            0x08
        } else if line == 1 {
            0x10
        } else if line == 2 {
            0x20
        } else {
            0x80
        }
    }
}

/// The code of a dot where it is lit.
pub open spec fn lit_code(vals: Seq<i128>, r: int, c: int, line: int, right: bool, rows: int) -> int {
    let col = if right {
        2 * c + 1
    } else {
        2 * c
    };
    if is_lit(vals, col, 4 * r + line, rows) {
        dot_code(line, right)
    } else {
        0
    }
}

/// The dots of the character in row `r` and column `c`.
pub open spec fn cell_code(vals: Seq<i128>, r: int, c: int, rows: int) -> int {
    lit_code(vals, r, c, 0, false, rows) + lit_code(vals, r, c, 1, false, rows) + lit_code(
        vals,
        r,
        c,
        2,
        false,
        rows,
    ) + lit_code(vals, r, c, 3, false, rows) + lit_code(vals, r, c, 0, true, rows) + lit_code(
        vals,
        r,
        c,
        1,
        true,
        rows,
    ) + lit_code(vals, r, c, 2, true, rows) + lit_code(vals, r, c, 3, true, rows)
}

/// The character in row `r` and column `c`.
pub open spec fn braille_char(vals: Seq<i128>, r: int, c: int, rows: int) -> char {
    (0x2800 + cell_code(vals, r, c, rows)) as char
}

/// Row `r` of the sparkline of numbers.
pub open spec fn braille_row(vals: Seq<i128>, r: int, rows: int) -> Seq<char> {
    Seq::new(((vals.len() + 1) / 2) as nat, |c: int| braille_char(vals, r, c, rows))
}

/// The largest number.
fn find_peak(vals: &Vec<i128>) -> (r: i128)
    ensures
        r == peak(vals@),
        r >= 0,
        forall|i: int| 0 <= i < vals@.len() ==> #[trigger] vals@[i] <= r,
{
    let mut p: i128 = 0;
    assert(vals@.take(0) =~= Seq::empty());
    for i in 0..vals.len()
        invariant
            p == peak(vals@.take(i as int)),
            p >= 0,
            forall|k: int| 0 <= k < i ==> #[trigger] vals@[k] <= p,
    {
        assert(vals@.take(i + 1).drop_last() =~= vals@.take(i as int));
        if vals[i] > p {
            p = vals[i];
        }
    }
    assert(vals@.take(vals@.len() as int) =~= vals@);
    p
}

/// The quotient and the remainder of `v * rows` by `peak`, bit by bit of `rows`, so that the
/// product need not be held.
fn share(v: u128, rows: u128, peak: u128) -> (r: (u128, u128))
    requires
        0 < v <= peak < 0x8000_0000_0000_0000_0000_0000_0000_0000,
        rows < 0x8000_0000_0000_0000_0000_0000_0000_0000,
    ensures
        v * rows == r.0 * peak + r.1,
        r.1 < peak,
        r.0 <= rows,
    decreases rows,
{
    if rows == 0 {
        assert(v * 0 == 0 && 0 * peak == 0);
        return (0, 0);
    }
    let half: u128 = rows / 2;
    let (q, m) = share(v, half, peak);
    let mut whole: u128 = 2 * q;
    let mut rest: u128 = 2 * m;
    if rest >= peak {
        rest = rest - peak;
        whole = whole + 1;
    }
    proof {
        assert(v * (2 * half) == 2 * (v * half)) by (nonlinear_arith);
        assert((2 * q) * peak == 2 * (q * peak)) by (nonlinear_arith);
        assert((2 * q + 1) * peak == 2 * (q * peak) + peak) by (nonlinear_arith);
        assert(v * (2 * half) == whole * peak + rest);
    }
    let ghost before = whole as int;
    if rows % 2 == 1 {
        rest = rest + v;
        if rest >= peak {
            rest = rest - peak;
            whole = whole + 1;
        }
        proof {
            assert(v * (2 * half + 1) == v * (2 * half) + v) by (nonlinear_arith);
            assert((before + 1) * peak == before * peak + peak) by (nonlinear_arith);
        }
    }
    proof {
        assert(v * rows == whole * peak + rest);
        assert(whole <= rows) by (nonlinear_arith)
            requires
                v * rows == whole * peak + rest,
                0 < v <= peak,
                0 <= rest,
        ;
    }
    (whole, rest)
}

/// The height of a column in dots.
fn level_of(v: i128, peak: i128, rows: i128) -> (r: i128)
    requires
        v <= peak,
        0 < rows < 0x1_0000_0000_0000_0000_0000,
        0 <= peak,
    ensures
        r == level(v as int, peak as int, rows as int),
        0 <= r <= rows,
{
    if v <= 0 {
        return 0;
    }
    let (q, m) = share(v as u128, rows as u128, peak as u128);
    let r: u128 = if m >= peak as u128 - m {
        q + 1
    } else {
        q
    };
    proof {
        let (a, b) = (2 * v * rows + peak, 2 * peak as int);
        assert(2 * v * rows == 2 * (v * rows)) by (nonlinear_arith);
        assert(a == 2 * (q * peak) + 2 * m + peak);
        if m >= peak - m {
            assert(a == (q + 1) * b + (2 * m - peak)) by (nonlinear_arith)
                requires
                    a == 2 * (q * peak) + 2 * m + peak,
                    b == 2 * peak,
            ;
            vstd::arithmetic::div_mod::lemma_fundamental_div_mod_converse(a, b, q + 1, 2 * m - peak);
            assert(q + 1 <= rows) by (nonlinear_arith)
                requires
                    v * rows == q * peak + m,
                    0 < v <= peak,
                    m > 0,
            ;
        } else {
            assert(a == q * b + (2 * m + peak)) by (nonlinear_arith)
                requires
                    a == 2 * (q * peak) + 2 * m + peak,
                    b == 2 * peak,
            ;
            vstd::arithmetic::div_mod::lemma_fundamental_div_mod_converse(
                a,
                b,
                q as int,
                2 * m + peak,
            );
        }
    }
    r as i128
}

/// The code of a dot where the column of that height lights it.
fn code_of(levels: &Vec<i128>, col: usize, dot: i128, rows: i128, code: u32) -> (r: u32)
    requires
        0 <= dot < rows,
    ensures
        r == if col < levels@.len() && levels@[col as int] >= rows - dot {
            code
        } else {
            0
        },
{
    if col < levels.len() && levels[col] >= rows - dot {
        code
    } else {
        0
    }
}

/// Numbers as a sparkline of braille characters, `height_chars` rows of them: each character
/// has two columns of four dots, a column for each number, as high as its share of the peak.
pub fn braille_sparkline(vals: &Vec<i128>, height_chars: usize) -> (r: Vec<String>)
    ensures
        r@.len() == height_chars,
        forall|i: int|
            0 <= i < r@.len() ==> (#[trigger] r@[i])@ == braille_row(vals@, i, 4 * height_chars),
{
    let mut out: Vec<String> = Vec::new();
    if height_chars == 0 {
        return out;
    }
    let rows: i128 = 4 * height_chars as i128;
    let top = find_peak(vals);
    let mut levels: Vec<i128> = Vec::new();
    for i in 0..vals.len()
        invariant
            0 < rows < 0x1_0000_0000_0000_0000_0000,
            0 <= top,
            forall|k: int| 0 <= k < vals@.len() ==> #[trigger] vals@[k] <= top,
            levels@.len() == i,
            forall|k: int|
                0 <= k < i ==> #[trigger] levels@[k] == level(vals@[k] as int, top as int, rows as int),
    {
        levels.push(level_of(vals[i], top, rows));
    }
    let width: usize = vals.len() / 2 + vals.len() % 2;
    for r in 0..height_chars
        invariant
            rows == 4 * height_chars,
            top == peak(vals@),
            width == (vals@.len() + 1) / 2,
            vals@.len() <= usize::MAX,
            levels@.len() == vals@.len(),
            forall|k: int|
                0 <= k < vals@.len() ==> #[trigger] levels@[k] == level(
                    vals@[k] as int,
                    top as int,
                    rows as int,
                ),
            out@.len() == r,
            forall|i: int|
                0 <= i < r ==> (#[trigger] out@[i])@ == braille_row(vals@, i, 4 * height_chars),
    {
        let mut line = String::new();
        let base: i128 = 4 * r as i128;
        for c in 0..width
            invariant
                r < height_chars,
                rows == 4 * height_chars,
                base == 4 * r,
                top == peak(vals@),
                    width == (vals@.len() + 1) / 2,
                vals@.len() <= usize::MAX,
                levels@.len() == vals@.len(),
                forall|k: int|
                    0 <= k < vals@.len() ==> #[trigger] levels@[k] == level(
                        vals@[k] as int,
                        top as int,
                        rows as int,
                    ),
                line@ == braille_row(vals@, r as int, rows as int).take(c as int),
        {
            let left: usize = 2 * c;
            let right: usize = 2 * c + 1;
            let code: u32 = code_of(&levels, left, base, rows, 0x01) + code_of(
                &levels,
                left,
                base + 1,
                rows,
                0x02,
            ) + code_of(&levels, left, base + 2, rows, 0x04) + code_of(
                &levels,
                left,
                base + 3,
                rows,
                0x40,
            ) + code_of(&levels, right, base, rows, 0x08) + code_of(
                &levels,
                right,
                base + 1,
                rows,
                0x10,
            ) + code_of(&levels, right, base + 2, rows, 0x20) + code_of(
                &levels,
                right,
                base + 3,
                rows,
                0x80,
            );
            assert(code == cell_code(vals@, r as int, c as int, rows as int));
            let ch = match char::from_u32(0x2800 + code) {
                Some(x) => x,
                None => ' ',
            };
            let ghost whole = braille_row(vals@, r as int, rows as int);
            assert(ch == whole[c as int]);
            line.push(ch);
            assert(whole.take(c + 1) =~= whole.take(c as int).push(ch));
        }
        assert(line@ =~= braille_row(vals@, r as int, rows as int));
        out.push(line);
    }
    out
}

/// The peak is at least zero, no number is above it, and where it is above zero it is one of
/// the numbers.
proof fn lemma_peak(vals: Seq<i128>)
    ensures
        peak(vals) >= 0,
        forall|i: int| 0 <= i < vals.len() ==> #[trigger] vals[i] <= peak(vals),
        peak(vals) > 0 ==> exists|i: int| 0 <= i < vals.len() && #[trigger] vals[i] == peak(vals),
    decreases vals.len(),
{
    if vals.len() > 0 {
        let rest = vals.drop_last();
        lemma_peak(rest);
        assert forall|i: int| 0 <= i < vals.len() implies #[trigger] vals[i] <= peak(vals) by {
            if i < rest.len() {
                assert(rest[i] == vals[i]);
            }
        }
        if peak(vals) > 0 {
            if vals.last() > peak(rest) {
                assert(vals[vals.len() - 1] == peak(vals));
            } else {
                let i = choose|i: int| 0 <= i < rest.len() && #[trigger] rest[i] == peak(rest);
                assert(vals[i] == peak(vals));
            }
        }
    }
}

/// Every character of a sparkline is a braille character.
pub proof fn law_braille_characters(vals: Seq<i128>, r: int, c: int, rows: int)
    ensures
        0x2800 <= braille_char(vals, r, c, rows) as int <= 0x28ff,
{
}

/// Numbers of which none is above zero give blank characters.
pub proof fn law_flat_is_blank(vals: Seq<i128>, r: int, c: int, height: int)
    requires
        forall|i: int| 0 <= i < vals.len() ==> #[trigger] vals[i] <= 0,
        0 <= r < height,
    ensures
        braille_char(vals, r, c, 4 * height) as int == 0x2800,
{
    let rows = 4 * height;
    assert forall|col: int, dot: int| dot < rows implies !(#[trigger] is_lit(vals, col, dot, rows)) by {
        if 0 <= col < vals.len() {
            assert(vals[col] <= 0);
        }
    }
}

/// The column of the peak reaches the top: its highest dot is lit, and so the character there
/// is not blank.
pub proof fn law_peak_reaches_the_top(vals: Seq<i128>, i: int, height: int)
    requires
        0 <= i < vals.len(),
        vals[i] > 0,
        forall|k: int| 0 <= k < vals.len() ==> #[trigger] vals[k] <= vals[i],
        height > 0,
    ensures
        is_lit(vals, i, 0, 4 * height),
        braille_char(vals, 0, i / 2, 4 * height) as int > 0x2800,
{
    lemma_peak(vals);
    let p = peak(vals);
    let rows = 4 * height;
    assert(p == vals[i]);
    let a = 2 * p * rows + p;
    assert(a == rows * (2 * p) + p) by (nonlinear_arith)
        requires
            a == 2 * p * rows + p,
    ;
    vstd::arithmetic::div_mod::lemma_fundamental_div_mod_converse(a, 2 * p, rows, p);
    assert(level(vals[i] as int, p, rows) == rows);
    assert(i == 2 * (i / 2) || i == 2 * (i / 2) + 1);
    assert(lit_code(vals, 0, i / 2, 0, false, rows) + lit_code(vals, 0, i / 2, 0, true, rows) > 0);
}

/// What each key does: two quit, one reads anew, two change the page and nothing else, and the
/// others move the selection one on or one back, around the ends, and nothing else.
pub proof fn law_keys(s: Screen, services: int)
    requires
        0 <= s.selected < services <= usize::MAX,
    ensures
        after_key(s, Key::Char('q'), services) == (s, Action::Quit),
        after_key(s, Key::Esc, services) == (s, Action::Quit),
        after_key(s, Key::Char('r'), services) == (s, Action::Refresh),
        after_key(s, Key::Char('p'), services).0.view == Page::Projects,
        after_key(s, Key::Char('o'), services).0.view == Page::Overview,
        after_key(s, Key::Char('p'), services).0.selected == s.selected,
        after_key(s, Key::Char('o'), services).0.selected == s.selected,
        after_key(s, Key::Down, services).0.view == s.view,
        after_key(s, Key::Up, services).0.view == s.view,
        s.selected + 1 < services ==> after_key(s, Key::Down, services).0.selected == s.selected + 1,
        s.selected + 1 == services ==> after_key(s, Key::Down, services).0.selected == 0,
        s.selected > 0 ==> after_key(s, Key::Up, services).0.selected == s.selected - 1,
        s.selected == 0 ==> after_key(s, Key::Up, services).0.selected == services - 1,
        after_key(s, Key::Tab, services) == after_key(s, Key::Down, services),
        after_key(s, Key::Char('j'), services) == after_key(s, Key::Down, services),
        after_key(s, Key::Char('k'), services) == after_key(s, Key::Up, services),
        after_key(s, Key::Down, services).1 == Action::Nothing,
        after_key(s, Key::Up, services).1 == Action::Nothing,
        after_key(s, Key::Char('p'), services).1 == Action::Nothing,
        after_key(s, Key::Char('o'), services).1 == Action::Nothing,
{
    law_selection_stays(s, Key::Down, services);
    let n = services;
    let x = s.selected as int;
    if x + 1 < n {
        vstd::arithmetic::div_mod::lemma_small_mod((x + 1) as nat, n as nat);
    } else {
        vstd::arithmetic::div_mod::lemma_mod_self_0(n);
    }
    if x > 0 {
        vstd::arithmetic::div_mod::lemma_mod_add_multiples_vanish(x - 1, n);
        vstd::arithmetic::div_mod::lemma_small_mod((x - 1) as nat, n as nat);
    } else {
        vstd::arithmetic::div_mod::lemma_small_mod((n - 1) as nat, n as nat);
    }
}

/// Without services no key moves the selection.
pub proof fn law_nothing_to_select(s: Screen, key: Key)
    ensures
        after_key(s, key, 0).0.selected == s.selected,
{
}

/// The logs are called by the words of their names, the credits by the name of the company, and
/// every other service by its own name.
pub proof fn law_labels(service: Seq<char>)
    ensures
        label_of(SERVICE_OPENROUTER@) == "OpenRouter"@,
        label_of(SERVICE_CODEX@) == title(SERVICE_CODEX@),
        label_of(SERVICE_CLAUDE_CODE@) == title(SERVICE_CLAUDE_CODE@),
        service != SERVICE_CLAUDE_CODE@ && service != SERVICE_CODEX@ && service != SERVICE_OPENROUTER@
            ==> label_of(service) == service,
{
    crate::models::law_service_names();
}

/// A name for people differs from the name by capitals at the start of words and by spaces for
/// underscores, and by nothing else.
pub proof fn law_title(name: Seq<char>, i: int)
    requires
        0 <= i < name.len(),
    ensures
        title(name).len() == name.len(),
        name[i] == '_' ==> title(name)[i] == ' ',
        name[i] != '_' && i > 0 && name[i - 1] != '_' ==> title(name)[i] == name[i],
        name[i] != '_' && (i == 0 || name[i - 1] == '_') ==> {
            &&& 97 <= name[i] as int <= 122 ==> title(name)[i] as int == name[i] as int - 32
            &&& !(97 <= name[i] as int <= 122) ==> title(name)[i] == name[i]
        },
{
}

/// A gauge shows the share that is used where a gauge can, and its nearer end otherwise; an
/// unknown share as nothing.
pub proof fn law_gauge(p: Real)
    ensures
        zero().spec_le(p) && p.spec_le(one()) ==> ratio_of(Some(p)) == p,
        p.spec_lt(zero()) ==> ratio_of(Some(p)) == zero(),
        one().spec_lt(p) ==> ratio_of(Some(p)) == one(),
        ratio_of(None) == zero(),
{
}

/// The cap is always drawn, a projection with both its bounds, the readings where there are
/// any, and what was observed where there is an axis to draw it on.
pub proof fn law_chart(projected: bool, observed: bool, axis_cap: Option<Real>, readings: bool)
    ensures
        ({
            let s = series_of(projected, observed, axis_cap, readings);
            &&& s[0] == Series::Cap
            &&& s.contains(Series::Projected) <==> projected
            &&& s.contains(Series::UpperBound) <==> projected
            &&& s.contains(Series::LowerBound) <==> projected
            &&& s.contains(Series::Readings) <==> readings
            &&& s.contains(Series::Observed) <==> observed && axis_cap is Some && zero().spec_lt(
                axis_cap->0,
            )
        }),
{
    let s = series_of(projected, observed, axis_cap, readings);
    let drawn = observed && axis_cap is Some && zero().spec_lt(axis_cap->0);
    if projected {
        assert(s[1] == Series::UpperBound && s[2] == Series::LowerBound && s[3] == Series::Projected);
    }
    if drawn {
        assert(s[if projected {
            4int
        } else {
            1
        }] == Series::Observed);
    }
    if readings {
        assert(s[s.len() - 1] == Series::Readings);
    }
}

/// A day is marked for every whole day of the window, to the hour.
pub proof fn law_whole_days(start: Timestamp, end: Timestamp)
    requires
        start.secs + HOUR <= end.secs,
    ensures
        whole_days(start, end) * 86_400 <= end.secs - start.secs < whole_days(start, end) * 86_400
            + 86_400 + HOUR,
        whole_days(start, end) >= 0,
{
}

/// The peak is the largest of the numbers, and zero where none is above it.
pub proof fn law_peak(vals: Seq<i128>)
    ensures
        forall|i: int| 0 <= i < vals.len() ==> #[trigger] vals[i] <= peak(vals),
        peak(vals) == 0 || exists|i: int| 0 <= i < vals.len() && #[trigger] vals[i] == peak(vals),
        peak(vals) >= 0,
    decreases vals.len(),
{
    if vals.len() > 0 {
        let rest = vals.drop_last();
        law_peak(rest);
        assert forall|i: int| 0 <= i < vals.len() implies #[trigger] vals[i] <= peak(vals) by {
            if i < rest.len() {
                assert(vals[i] == rest[i]);
            }
        }
        if peak(vals) != 0 {
            if vals.last() > peak(rest) {
                assert(vals[vals.len() - 1] == peak(vals));
            } else {
                let i = choose|i: int| 0 <= i < rest.len() && #[trigger] rest[i] == peak(rest);
                assert(vals[i] == peak(vals));
            }
        }
    }
}

/// A column is as high as its share of the peak, to the nearest dot, and a column that is not
/// above zero has no dots. Its dots stand on the bottom without a gap.
pub proof fn law_column(vals: Seq<i128>, col: int, dot: int, rows: int)
    requires
        0 <= col < vals.len(),
        0 <= dot < rows,
    ensures
        ({
            let (p, v) = (peak(vals), vals[col] as int);
            let h = level(v, p, rows);
            &&& v <= 0 ==> h == 0 && !is_lit(vals, col, dot, rows)
            &&& v > 0 ==> 2 * p * h - p <= 2 * v * rows < 2 * p * h + p
            &&& is_lit(vals, col, dot, rows) <==> rows - dot <= h
            &&& is_lit(vals, col, dot, rows) && dot + 1 < rows ==> is_lit(vals, col, dot + 1, rows)
        }),
{
    law_peak(vals);
    let (p, v) = (peak(vals), vals[col] as int);
    if v > 0 {
        let a = 2 * v * rows + p;
        vstd::arithmetic::div_mod::lemma_fundamental_div_mod(a, 2 * p);
        vstd::arithmetic::div_mod::lemma_mod_bound(a, 2 * p);
        let h = level(v, p, rows);
        assert(a == 2 * p * h + a % (2 * p));
    }
}

/// The dots of a braille character are where Unicode has them: three lines on either side in
/// turn, and the fourth line behind them.
pub proof fn law_dots(line: int)
    ensures
        dot_code(0, false) == 1 && dot_code(1, false) == 2 && dot_code(2, false) == 4,
        dot_code(0, true) == 8 && dot_code(1, true) == 16 && dot_code(2, true) == 32,
        dot_code(3, false) == 64 && dot_code(3, true) == 128,
        0 <= line < 3 ==> dot_code(line, true) == 8 * dot_code(line, false),
{
}

/// A dot of a character is lit exactly where the column it stands for reaches its line: the left
/// half shows the even columns, the right half the odd ones, four lines to a row.
pub proof fn law_cells(vals: Seq<i128>, r: int, c: int, line: int, rows: int)
    requires
        0 <= line < 4,
    ensures
        lit_code(vals, r, c, line, false, rows) != 0 <==> is_lit(vals, 2 * c, 4 * r + line, rows),
        lit_code(vals, r, c, line, true, rows) != 0 <==> is_lit(vals, 2 * c + 1, 4 * r + line, rows),
        is_lit(vals, 2 * c, 4 * r + line, rows) ==> lit_code(vals, r, c, line, false, rows) == dot_code(
            line,
            false,
        ),
        is_lit(vals, 2 * c + 1, 4 * r + line, rows) ==> lit_code(vals, r, c, line, true, rows)
            == dot_code(line, true),
        2 * braille_row(vals, r, rows).len() == vals.len() || 2 * braille_row(vals, r, rows).len()
            == vals.len() + 1,
{
}

/// In the code of a cell every dot has a binary digit of its own, which tells whether it is lit.
pub proof fn law_dots_of_a_cell(vals: Seq<i128>, r: int, c: int, line: int, right: bool, rows: int)
    requires
        0 <= line < 4,
    ensures
        0 <= cell_code(vals, r, c, rows) < 256,
        cell_code(vals, r, c, rows) / dot_code(line, right) % 2 == 1 <==> is_lit(
            vals,
            if right {
                2 * c + 1
            } else {
                2 * c
            },
            4 * r + line,
            rows,
        ),
{
}

} // verus!
