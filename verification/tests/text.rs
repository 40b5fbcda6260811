use metoks::text::{
    blank, chars_of, ends_with, lend, own, push_decimal, rest_after, split,
    starts_with, str_eq, text_before, text_of, title_of, trim, white, word_of,
};

#[test]
fn white_space_is_that_of_unicode() {
    for n in 0..0x11_0000u32 {
        if let Some(c) = char::from_u32(n) {
            assert_eq!(white(c), c.is_whitespace(), "{n:x}");
        }
    }
}

#[test]
fn texts_are_trimmed_and_compared() {
    for s in ["", " ", "\t\u{3000}", " a b ", "x\n", "\u{85}é\u{a0}", "abc"] {
        assert_eq!(trim(&chars_of(s)), s.trim(), "{s:?}");
        assert_eq!(blank(s), s.trim().is_empty(), "{s:?}");
        for t in ["", "a", "abc", "x", " a b ", "é", "\u{1F600}"] {
            assert_eq!(str_eq(s, t), s == t);
            assert_eq!(text_before(s, t), s < t);
            assert_eq!(starts_with(&chars_of(s), t), s.starts_with(t));
            assert_eq!(ends_with(&chars_of(s), t), s.ends_with(t));
            assert_eq!(metoks::text::concat(s, t), format!("{s}{t}"));
        }
    }
}

#[test]
fn texts_are_split() {
    for s in ["", ",", "a,b", ",a,,b,", "é,ü"] {
        let v = chars_of(s);
        let parts: Vec<String> = split(&v, ',').iter().map(|p| p.iter().collect()).collect();
        assert_eq!(parts, s.split(',').collect::<Vec<_>>(), "{s}");
        assert_eq!(rest_after(s, ','), s.split_once(',').map(|x| x.1.to_string()), "{s}");
        assert_eq!(text_of(&v, 0, v.len()), s);
    }
}

#[test]
fn numbers_are_written() {
    for n in [0, 7, -7, 10, 1440, i64::MAX, i64::MIN] {
        let mut s = String::from("n=");
        push_decimal(&mut s, n);
        assert_eq!(s, format!("n={n}"));
    }
}

#[test]
fn options_are_lent_and_owned() {
    let s = Some("a".to_string());
    assert_eq!(lend(&s), Some("a"));
    assert_eq!(own(Some("a")), s);
    assert_eq!((lend(&None), own(None)), (None, None));
}

#[test]
fn names_become_words_and_titles() {
    assert_eq!(word_of("some_name"), "some");
    assert_eq!(word_of("codex"), "codex");
    assert_eq!(title_of("some_name"), "Some Name");
    assert_eq!(title_of("codex"), "Codex");
}
