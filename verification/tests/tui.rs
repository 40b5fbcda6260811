use metoks::number::Real;
use metoks::time::{parse_dt, Timestamp};
use metoks::tui::{
    braille_sparkline, chart_series, day_marks, gauge_ratio, keep_selected, label, on_key,
    projects_that_fit, refresh_due, status_color, token_scale, Action, Colour, Key, Page, Scale,
    Screen, Series, BILLION, MILLION, THOUSAND,
};

fn num(x: f64) -> Real {
    Real { bits: x.to_bits() }
}

fn dt(s: &str) -> Timestamp {
    parse_dt(s).unwrap()
}

#[test]
fn braille_sparkline_shape_and_growth() {
    let s = braille_sparkline(&vec![0, 1, 2, 4], 2);
    assert_eq!(s.len(), 2); // two rows
    // Every cell is a braille glyph (U+2800..=U+28FF).
    for line in &s {
        for ch in line.chars() {
            assert!((0x2800..=0x28FF).contains(&(ch as u32)), "non-braille: {ch:?}");
        }
    }
    // A flat-zero series renders empty braille (all blanks), a peak does not.
    let flat = braille_sparkline(&vec![0, 0, 0, 0], 2);
    let peak = braille_sparkline(&vec![0, 0, 0, 9], 2);
    assert!(flat.join("").chars().all(|c| c as u32 == 0x2800));
    assert!(peak.join("").chars().any(|c| c as u32 != 0x2800));
}

/// The sparkline computed with doubles, dot by dot.
fn sparkline_by_doubles(vals: &[i128], height: usize) -> Vec<String> {
    let rows = height * 4;
    let max = vals.iter().map(|v| *v as f64).fold(0.0_f64, f64::max).max(1e-9);
    (0..height)
        .map(|line| {
            vals.chunks(2)
                .map(|pair| {
                    let mut bits = 0u32;
                    for (side, v) in pair.iter().enumerate() {
                        let level = ((*v as f64 / max) * rows as f64).round() as usize;
                        for within in 0..4 {
                            let from_below = rows - 1 - (line * 4 + within);
                            if from_below < level {
                                bits |= [[0x01, 0x02, 0x04, 0x40], [0x08, 0x10, 0x20, 0x80]][side][within];
                            }
                        }
                    }
                    char::from_u32(0x2800 + bits).unwrap()
                })
                .collect()
        })
        .collect()
}

#[test]
fn sparkline_is_that_of_doubles() {
    let series: Vec<Vec<i128>> = vec![
        vec![0, 1, 2, 4],
        vec![1, 5, 2, 8, 3],
        vec![7],
        vec![0, 0, 4, 1, 0],
        (0..57).map(|i| (i * i * 7919) % 1000).collect(),
        vec![1, 2, 3, 5, 8, 13, 21, 1_000_000_007],
    ];
    for v in series {
        for h in 1..4 {
            assert_eq!(braille_sparkline(&v, h), sparkline_by_doubles(&v, h), "{v:?} {h}");
        }
    }
}

#[test]
fn exact_sparkline() {
    assert_eq!(braille_sparkline(&vec![0, 4], 1), vec!["\u{28b8}"]);
    assert_eq!(braille_sparkline(&vec![4, 2, 1], 2), vec!["\u{2847}\u{2800}", "\u{28ff}\u{2844}"]);
    assert_eq!(braille_sparkline(&vec![], 2), vec!["", ""]);
    assert!(braille_sparkline(&vec![1, 2], 0).is_empty());
    let half = i128::MAX / 2;
    assert_eq!(braille_sparkline(&vec![i128::MAX, half, half + 1, i128::MIN], 1), vec!["\u{28e7}\u{2844}"]);
}

#[test]
fn keys_move_about() {
    let s = Screen { view: Page::Overview, selected: 0 };
    let go = |key| on_key(s, key, 3);
    assert_eq!(go(Key::Char('q')).1, Action::Quit);
    assert_eq!(go(Key::Esc).1, Action::Quit);
    assert_eq!(go(Key::Char('r')), (s, Action::Refresh));
    assert_eq!(go(Key::Char('p')).0.view, Page::Projects);
    assert_eq!(go(Key::Tab), go(Key::Down));
    assert_eq!(on_key(Screen { view: Page::Projects, selected: 2 }, Key::Tab, 3).0, Screen { view: Page::Projects, selected: 0 });
    assert_eq!(on_key(go(Key::Char('p')).0, Key::Char('o'), 3).0, s);
    assert_eq!(go(Key::Down).0.selected, 1);
    assert_eq!(go(Key::Char('j')).0.selected, 1);
    assert_eq!(go(Key::Up).0.selected, 2);
    assert_eq!(go(Key::Char('k')).0.selected, 2);
    assert_eq!(on_key(go(Key::Up).0, Key::Down, 3).0, s);
    assert_eq!(go(Key::Char('x')), (s, Action::Nothing));
    assert_eq!(go(Key::Other), (s, Action::Nothing));
    assert_eq!(on_key(s, Key::Down, 0), (s, Action::Nothing));
}

#[test]
fn selection_past_the_end_starts_over() {
    assert_eq!((keep_selected(2, 3), keep_selected(3, 3), keep_selected(0, 0)), (2, 0, 0));
}

#[test]
fn refreshed_after_three_seconds() {
    assert!(!refresh_due(3, 0) && refresh_due(3, 1) && refresh_due(4, 0) && !refresh_due(2, 999_999_999));
}

#[test]
fn services_have_names_for_people() {
    let title: Vec<String> = "claude_code"
        .split('_')
        .map(|w| w[..1].to_uppercase() + &w[1..])
        .collect();
    assert_eq!(label("claude_code"), title.join(" "));
    assert_eq!(label("codex"), "Codex");
    assert_eq!(label("openrouter"), "OpenRouter");
    assert_eq!(label("other_one"), "other_one");
}

#[test]
fn colours_of_the_statuses() {
    let of: Vec<Colour> = ["green", "amber", "red", "unknown", ""].iter().map(|s| status_color(s)).collect();
    assert_eq!(of, vec![Colour::Green, Colour::Yellow, Colour::Red, Colour::Gray, Colour::Gray]);
}

#[test]
fn projects_take_three_lines_each() {
    let fit: Vec<usize> = [0, 2, 3, 5, 6, 30].iter().map(|h| projects_that_fit(*h)).collect();
    assert_eq!(fit, vec![1, 1, 1, 1, 2, 10]);
}

#[test]
fn gauge_is_filled_within_bounds() {
    let of = |x: Option<f64>| f64::from_bits(gauge_ratio(x.map(num)).bits);
    assert_eq!((of(None), of(Some(-0.5)), of(Some(0.25)), of(Some(1.5))), (0.0, 0.0, 0.25, 1.0));
    assert!(of(Some(f64::NAN)).is_nan());
}

#[test]
fn chart_draws_what_there_is() {
    let all = vec![
        Series::Cap,
        Series::UpperBound,
        Series::LowerBound,
        Series::Projected,
        Series::Observed,
        Series::Readings,
    ];
    assert_eq!(chart_series(true, true, Some(num(1.0)), true), all);
    assert_eq!(chart_series(false, true, Some(num(0.0)), false), vec![Series::Cap]);
    assert_eq!(chart_series(false, true, None, true), vec![Series::Cap, Series::Readings]);
    assert_eq!(chart_series(false, false, Some(num(1.0)), false), vec![Series::Cap]);
}

#[test]
fn days_of_a_window_are_marked() {
    let start = dt("2026-08-10T05:00:00Z");
    let marks = day_marks(start, dt("2026-08-17T05:00:00Z"));
    assert_eq!(marks.len(), 8);
    assert_eq!(marks[3], dt("2026-08-13T05:00:00Z"));
    assert_eq!(day_marks(start, start), vec![start]);
    assert_eq!(day_marks(start, dt("2026-08-11T04:59:59Z")).len(), 1);
    assert_eq!(day_marks(start, dt("2026-08-11T05:00:00Z")).len(), 2);
}

#[test]
fn amounts_are_scaled() {
    assert_eq!(f64::from_bits(THOUSAND), 1e3);
    assert_eq!(f64::from_bits(MILLION), 1e6);
    assert_eq!(f64::from_bits(BILLION), 1e9);
    let of = |x: f64| token_scale(num(x));
    assert_eq!(of(999.9), Scale::Ones);
    assert_eq!(of(1e3), Scale::Thousands);
    assert_eq!(of(1e6), Scale::Millions);
    assert_eq!(of(1e9), Scale::Billions);
    assert_eq!((of(-5e9), of(f64::NAN)), (Scale::Ones, Scale::Ones));
}
