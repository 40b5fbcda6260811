//! Strings as sequences of characters: comparing, cutting and joining them.

use vstd::prelude::*;

verus! {

/// `String::push`: appends one character.
pub assume_specification[ String::push ](s: &mut String, c: char)
    ensures
        final(s)@ == old(s)@.push(c),
;

/// The characters of `s`, in order.
pub fn chars_of(s: &str) -> (v: Vec<char>)
    ensures
        v@ == s@,
{
    let mut v: Vec<char> = Vec::new();
    for c in it: s.chars()
        invariant
            v@ == it.seq().take(it.index()),
            it.seq() == s@,
    {
        v.push(c);
        assert(it.seq().take(it.index() + 1) =~= it.seq().take(it.index()).push(c));
    }
    assert(s@.take(s@.len() as int) =~= s@);
    v
}

/// The text of the characters `from..to`.
pub fn text_of(v: &Vec<char>, from: usize, to: usize) -> (s: String)
    requires
        from <= to <= v@.len(),
    ensures
        s@ == v@.subrange(from as int, to as int),
{
    let mut s = String::new();
    for i in from..to
        invariant
            from <= i <= to <= v@.len(),
            s@ == v@.subrange(from as int, i as int),
    {
        s.push(v[i]);
        assert(v@.subrange(from as int, i + 1) =~= v@.subrange(from as int, i as int).push(v@[i as int]));
    }
    s
}

/// Whether two texts hold the same characters.
pub fn str_eq(a: &str, b: &str) -> (r: bool)
    ensures
        r == (a@ == b@),
{
    let x = a.as_bytes();
    let y = b.as_bytes();
    proof {
        vstd::utf8::encode_utf8_decode_utf8(a@);
        vstd::utf8::encode_utf8_decode_utf8(b@);
    }
    if x.len() != y.len() {
        return false;
    }
    for i in 0..x.len()
        invariant
            x@.len() == y@.len(),
            forall|j: int| 0 <= j < i ==> x@[j] == y@[j],
            x@ == vstd::utf8::encode_utf8(a@),
            y@ == vstd::utf8::encode_utf8(b@),
    {
        if x[i] != y[i] {
            assert(x@ != y@);
            return false;
        }
    }
    assert(x@ =~= y@);
    true
}

/// The pieces of `s` between occurrences of `sep`: a separator opens a new, empty
/// piece, and any other item extends the last one.
pub open spec fn pieces<T>(s: Seq<T>, sep: T) -> Seq<Seq<T>>
    decreases s.len(),
{
    if s.len() == 0 {
        seq![Seq::<T>::empty()]
    } else {
        let p = pieces(s.drop_last(), sep);
        if s.last() == sep {
            p.push(Seq::<T>::empty())
        } else {
            p.drop_last().push(p.last().push(s.last()))
        }
    }
}

/// There is always at least one piece.
pub proof fn lemma_pieces_nonempty<T>(s: Seq<T>, sep: T)
    ensures
        pieces(s, sep).len() >= 1,
    decreases s.len(),
{
    if s.len() > 0 {
        lemma_pieces_nonempty(s.drop_last(), sep);
    }
}

/// The pieces of a concatenation whose first part ends with a separator are those of
/// the first part, without the empty one after that separator, and those of the second.
pub proof fn lemma_pieces_concat<T>(a: Seq<T>, b: Seq<T>, sep: T)
    requires
        a.len() > 0,
        a.last() == sep,
    ensures
        pieces(a + b, sep) == pieces(a, sep).drop_last() + pieces(b, sep),
    decreases b.len(),
{
    lemma_pieces_nonempty(a, sep);
    lemma_pieces_nonempty(b, sep);
    if b.len() == 0 {
        assert(a + b =~= a);
        let p = pieces(a.drop_last(), sep);
        assert(pieces(a, sep) == p.push(Seq::<T>::empty()));
        assert(pieces(a, sep).drop_last() + pieces(b, sep) =~= pieces(a, sep));
    } else {
        let c = b.drop_last();
        lemma_pieces_concat(a, c, sep);
        lemma_pieces_nonempty(c, sep);
        assert((a + b).drop_last() =~= a + c);
        assert((a + b).last() == b.last());
        assert(pieces(a + b, sep) =~= pieces(a, sep).drop_last() + pieces(b, sep));
    }
}

/// The characters that Unicode calls white space.
pub open spec fn is_white(c: char) -> bool {
    let n = c as u32;
    ||| 9 <= n <= 13
    ||| n == 0x20
    ||| n == 0x85
    ||| n == 0xa0
    ||| n == 0x1680
    ||| 0x2000 <= n <= 0x200a
    ||| n == 0x2028
    ||| n == 0x2029
    ||| n == 0x202f
    ||| n == 0x205f
    ||| n == 0x3000
}

/// Whether `c` is white space.
pub fn white(c: char) -> (r: bool)
    ensures
        r == is_white(c),
{
    let n = c as u32;
    (9 <= n && n <= 13) || n == 0x20 || n == 0x85 || n == 0xa0 || n == 0x1680 || (0x2000 <= n && n
        <= 0x200a) || n == 0x2028 || n == 0x2029 || n == 0x202f || n == 0x205f || n == 0x3000
}

/// Whether every character is white space.
pub open spec fn is_blank(s: Seq<char>) -> bool {
    forall|i: int| 0 <= i < s.len() ==> is_white(#[trigger] s[i])
}

/// Whether `s` holds nothing but white space.
pub fn blank(s: &str) -> (r: bool)
    ensures
        r == is_blank(s@),
{
    let v = chars_of(s);
    for i in 0..v.len()
        invariant
            v@ == s@,
            forall|j: int| 0 <= j < i ==> is_white(#[trigger] s@[j]),
    {
        if !white(v[i]) {
            assert(!is_white(s@[i as int]));
            return false;
        }
    }
    true
}

/// `s` without its leading white space.
pub open spec fn trim_start(s: Seq<char>) -> Seq<char>
    decreases s.len(),
{
    if s.len() > 0 && is_white(s[0]) {
        trim_start(s.drop_first())
    } else {
        s
    }
}

/// `s` without its trailing white space.
pub open spec fn trim_end(s: Seq<char>) -> Seq<char>
    decreases s.len(),
{
    if s.len() > 0 && is_white(s.last()) {
        trim_end(s.drop_last())
    } else {
        s
    }
}

/// `s` without the white space at its two ends.
pub open spec fn trimmed(s: Seq<char>) -> Seq<char> {
    trim_end(trim_start(s))
}

/// The text of `s` without the white space at its two ends.
pub fn trim(s: &Vec<char>) -> (r: String)
    ensures
        r@ == trimmed(s@),
{
    let mut from: usize = 0;
    let mut to: usize = s.len();
    assert(s@.subrange(0, to as int) =~= s@);
    while from < to && white(s[from])
        invariant
            from <= to == s@.len(),
            trim_start(s@) == trim_start(s@.subrange(from as int, to as int)),
        ensures
            from <= to == s@.len(),
            trim_start(s@) == s@.subrange(from as int, to as int),
        decreases to - from,
    {
        assert(s@.subrange(from as int, to as int).drop_first() =~= s@.subrange(from + 1, to as int));
        from = from + 1;
    }
    while from < to && white(s[to - 1])
        invariant
            from <= to <= s@.len(),
            trimmed(s@) == trim_end(s@.subrange(from as int, to as int)),
        ensures
            from <= to <= s@.len(),
            trimmed(s@) == s@.subrange(from as int, to as int),
        decreases to - from,
    {
        assert(s@.subrange(from as int, to as int).drop_last() =~= s@.subrange(from as int, to - 1));
        to = to - 1;
    }
    text_of(s, from, to)
}

/// The pieces of `v` between occurrences of `sep`.
pub fn split(v: &Vec<char>, sep: char) -> (r: Vec<Vec<char>>)
    ensures
        r@.len() == pieces(v@, sep).len(),
        forall|i: int| 0 <= i < r@.len() ==> (#[trigger] r@[i])@ == pieces(v@, sep)[i],
{
    let mut done: Vec<Vec<char>> = Vec::new();
    let mut cur: Vec<char> = Vec::new();
    assert(v@.take(0) =~= Seq::<char>::empty());
    for i in 0..v.len()
        invariant
            pieces(v@.take(i as int), sep).len() == done@.len() + 1,
            pieces(v@.take(i as int), sep).last() == cur@,
            forall|k: int|
                0 <= k < done@.len() ==> (#[trigger] done@[k])@ == pieces(v@.take(i as int), sep)[k],
    {
        assert(v@.take(i + 1).drop_last() =~= v@.take(i as int));
        if v[i] == sep {
            done.push(cur);
            cur = Vec::new();
        } else {
            cur.push(v[i]);
        }
    }
    assert(v@.take(v@.len() as int) =~= v@);
    done.push(cur);
    done
}

/// Whether `s` begins with `prefix`.
pub open spec fn begins_with(s: Seq<char>, prefix: Seq<char>) -> bool {
    prefix.len() <= s.len() && s.take(prefix.len() as int) == prefix
}

/// Whether `s` ends with `suffix`.
pub open spec fn finishes_with(s: Seq<char>, suffix: Seq<char>) -> bool {
    suffix.len() <= s.len() && s.skip(s.len() - suffix.len()) == suffix
}

/// Whether the characters of `s` begin with those of `prefix`.
pub fn starts_with(s: &Vec<char>, prefix: &str) -> (r: bool)
    ensures
        r == begins_with(s@, prefix@),
{
    let p = chars_of(prefix);
    if p.len() > s.len() {
        return false;
    }
    for i in 0..p.len()
        invariant
            p@ == prefix@,
            p@.len() <= s@.len(),
            forall|j: int| 0 <= j < i ==> s@[j] == p@[j],
    {
        if s[i] != p[i] {
            assert(s@.take(p@.len() as int)[i as int] != p@[i as int]);
            return false;
        }
    }
    assert(s@.take(p@.len() as int) =~= p@);
    true
}

/// Whether the characters of `s` end with those of `suffix`.
pub fn ends_with(s: &Vec<char>, suffix: &str) -> (r: bool)
    ensures
        r == finishes_with(s@, suffix@),
{
    let p = chars_of(suffix);
    if p.len() > s.len() {
        return false;
    }
    let base = s.len() - p.len();
    for i in 0..p.len()
        invariant
            p@ == suffix@,
            base + p.len() == s.len(),
            forall|j: int| 0 <= j < i ==> s@[base + j] == p@[j],
    {
        if s[base + i] != p[i] {
            assert(s@.skip(base as int)[i as int] != p@[i as int]);
            return false;
        }
    }
    assert(s@.skip(base as int) =~= p@);
    true
}

/// The lexicographic order of texts by code point.
pub open spec fn text_lt(a: Seq<char>, b: Seq<char>) -> bool
    decreases a.len(),
{
    if b.len() == 0 {
        false
    } else if a.len() == 0 {
        true
    } else if a[0] != b[0] {
        (a[0] as int) < (b[0] as int)
    } else {
        text_lt(a.drop_first(), b.drop_first())
    }
}

/// No text is before itself.
proof fn lemma_text_irreflexive(a: Seq<char>)
    ensures
        !text_lt(a, a),
    decreases a.len(),
{
    if a.len() > 0 {
        lemma_text_irreflexive(a.drop_first());
    }
}

/// The order of texts is a strict total order.
pub proof fn lemma_text_order(a: Seq<char>, b: Seq<char>, c: Seq<char>)
    ensures
        !text_lt(a, a),
        text_lt(a, b) || text_lt(b, a) || a == b,
        text_lt(a, b) && text_lt(b, c) ==> text_lt(a, c),
        text_lt(a, b) ==> !text_lt(b, a),
    decreases a.len(),
{
    lemma_text_irreflexive(a);
    if a.len() > 0 && b.len() > 0 {
        let (x, y) = (a.drop_first(), b.drop_first());
        let z = if c.len() > 0 {
            c.drop_first()
        } else {
            c
        };
        lemma_text_order(x, y, z);
        if a[0] == b[0] && x == y {
            assert(a =~= seq![a[0]] + x);
            assert(b =~= seq![b[0]] + y);
        }
    } else if a.len() == 0 && b.len() == 0 {
        assert(a =~= b);
    }
}

/// The code point of `c`.
fn code_point(c: char) -> (n: u32)
    ensures
        n == c as int,
{
    c as u32
}

/// Whether `a` is before `b` in the lexicographic order by code point.
pub fn text_before(a: &str, b: &str) -> (r: bool)
    ensures
        r == text_lt(a@, b@),
{
    let x = chars_of(a);
    let y = chars_of(b);
    let mut i: usize = 0;
    assert(x@.skip(0) =~= x@);
    assert(y@.skip(0) =~= y@);
    while i < x.len() && i < y.len()
        invariant
            x@ == a@,
            y@ == b@,
            i <= x@.len(),
            i <= y@.len(),
            text_lt(a@, b@) == text_lt(x@.skip(i as int), y@.skip(i as int)),
        decreases x.len() - i,
    {
        if x[i] != y[i] {
            return code_point(x[i]) < code_point(y[i]);
        }
        assert(x@.skip(i as int).drop_first() =~= x@.skip(i + 1));
        assert(y@.skip(i as int).drop_first() =~= y@.skip(i + 1));
        i = i + 1;
    }
    i < y.len()
}

/// The character of the decimal digit `d`.
pub open spec fn digit_char(d: nat) -> char {
    (48 + d) as char
}

/// The decimal digits of `n`.
pub open spec fn digits(n: nat) -> Seq<char>
    decreases n,
{
    if n < 10 {
        seq![digit_char(n)]
    } else {
        digits(n / 10).push(digit_char(n % 10))
    }
}

/// The decimal notation of `n`.
pub open spec fn decimal(n: int) -> Seq<char> {
    if n < 0 {
        seq!['-'] + digits((-n) as nat)
    } else {
        digits(n as nat)
    }
}

/// The digits of a number are one or more decimal digits, and tell the number.
pub proof fn lemma_digits(n: nat, m: nat)
    ensures
        digits(n).len() >= 1,
        forall|i: int| 0 <= i < digits(n).len() ==> 48 <= (#[trigger] digits(n)[i]) as int <= 57,
        digits(n) == digits(m) ==> n == m,
    decreases n,
{
    lemma_digits_shape(n);
    lemma_digits_shape(m);
    let d = (n % 10) as int;
    let e = (m % 10) as int;
    assert(digits(n).last() == digit_char(n % 10));
    assert(digits(m).last() == digit_char(m % 10));
    assert(digit_char(n % 10) as int == 48 + d);
    assert(digit_char(m % 10) as int == 48 + e);
    if digits(n) == digits(m) {
        if n >= 10 {
            lemma_digits_shape(n / 10);
            assert(m >= 10);
            assert(digits(n).drop_last() =~= digits(n / 10));
            assert(digits(m).drop_last() =~= digits(m / 10));
            lemma_digits(n / 10, m / 10);
        }
    }
}

/// The digits of a number are one or more decimal digits.
proof fn lemma_digits_shape(n: nat)
    ensures
        digits(n).len() >= 1,
        n >= 10 ==> digits(n).len() >= 2,
        forall|i: int| 0 <= i < digits(n).len() ==> 48 <= (#[trigger] digits(n)[i]) as int <= 57,
    decreases n,
{
    assert(digit_char(n % 10) as int == 48 + n % 10);
    if n >= 10 {
        lemma_digits_shape(n / 10);
    }
}

/// A number in decimal can be told from what follows it behind a separator that is no digit.
pub proof fn lemma_decimal_prefix(a: int, x: Seq<char>, b: int, y: Seq<char>, sep: char)
    requires
        !(48 <= sep as int <= 57),
        decimal(a) + seq![sep] + x == decimal(b) + seq![sep] + y,
    ensures
        a == b,
        x == y,
{
    let (p, q) = (decimal(a) + seq![sep] + x, decimal(b) + seq![sep] + y);
    let (na, nb) = (
        if a < 0 {
            -a
        } else {
            a
        },
        if b < 0 {
            -b
        } else {
            b
        },
    );
    lemma_digits_shape(na as nat);
    lemma_digits_shape(nb as nat);
    let (da, db) = (digits(na as nat), digits(nb as nat));
    if a < 0 {
        assert(p[0] == '-');
        assert(b >= 0 ==> q[0] == db[0]);
    } else {
        assert(p[0] == da[0]);
        assert(b < 0 ==> q[0] == '-');
    }
    assert((a < 0) == (b < 0));
    let k = if a < 0 {
        1int
    } else {
        0
    };
    if da.len() < db.len() {
        assert(p[k + da.len()] == sep);
        assert(q[k + da.len()] == db[da.len() as int]);
        assert(false);
    }
    if db.len() < da.len() {
        assert(q[k + db.len()] == sep);
        assert(p[k + db.len()] == da[db.len() as int]);
        assert(false);
    }
    assert forall|i: int| 0 <= i < da.len() implies da[i] == db[i] by {
        assert(p[k + i] == da[i]);
        assert(q[k + i] == db[i]);
    }
    assert(da =~= db);
    lemma_digits(na as nat, nb as nat);
    assert(x =~= p.skip(k + da.len() + 1));
    assert(y =~= q.skip(k + db.len() + 1));
}

/// Appends the decimal digits of `n`.
fn push_digits(s: &mut String, n: u64)
    ensures
        final(s)@ == old(s)@ + digits(n as nat),
    decreases n,
{
    if n >= 10 {
        push_digits(s, n / 10);
    }
    let d = (n % 10) as u8;
    s.push((48 + d) as char);
    assert(s@ =~= old(s)@ + digits(n as nat));
}

/// Appends the decimal notation of `n`.
pub fn push_decimal(s: &mut String, n: i64)
    ensures
        final(s)@ == old(s)@ + decimal(n as int),
{
    if n < 0 {
        s.push('-');
        let m: u64 = (-(n + 1)) as u64 + 1;
        push_digits(s, m);
        assert(s@ =~= old(s)@ + decimal(n as int));
    } else {
        push_digits(s, n as u64);
    }
}

/// The concatenation of two texts.
pub fn concat(a: &str, b: &str) -> (r: String)
    ensures
        r@ == a@ + b@,
{
    let mut s = a.to_owned();
    s.append(b);
    s
}

/// The characters of an optional text.
pub open spec fn opt_text(s: Option<String>) -> Option<Seq<char>> {
    match s {
        Some(x) => Some(x@),
        None => None,
    }
}

/// The characters of an optional borrowed text.
pub open spec fn opt_str(s: Option<&str>) -> Option<Seq<char>> {
    match s {
        Some(x) => Some(x@),
        None => None,
    }
}

/// An owned copy of an optional text.
pub fn own(s: Option<&str>) -> (r: Option<String>)
    ensures
        opt_text(r) == opt_str(s),
{
    match s {
        Some(x) => Some(x.to_owned()),
        None => None,
    }
}

/// An optional text, borrowed.
pub fn lend(s: &Option<String>) -> (r: Option<&str>)
    ensures
        opt_str(r) == opt_text(*s),
{
    match s {
        Some(x) => Some(x.as_str()),
        None => None,
    }
}

/// The texts of a list.
pub open spec fn texts(v: Seq<String>) -> Seq<Seq<char>> {
    v.map_values(|s: String| s@)
}

/// What follows the first occurrence of `c`, if there is one.
pub open spec fn after_first(s: Seq<char>, c: char) -> Option<Seq<char>>
    decreases s.len(),
{
    if s.len() == 0 {
        None
    } else if s[0] == c {
        Some(s.drop_first())
    } else {
        after_first(s.drop_first(), c)
    }
}

/// What follows the first occurrence of `c`, if there is one.
pub fn rest_after(s: &str, c: char) -> (r: Option<String>)
    ensures
        opt_text(r) == after_first(s@, c),
{
    let v = chars_of(s);
    assert(v@.skip(0) =~= v@);
    for i in 0..v.len()
        invariant
            v@ == s@,
            after_first(s@, c) == after_first(v@.skip(i as int), c),
    {
        assert(v@.skip(i as int).drop_first() =~= v@.skip(i + 1));
        if v[i] == c {
            assert(v@.skip(i + 1) =~= v@.subrange(i + 1, v@.len() as int));
            return Some(text_of(&v, i + 1, v.len()));
        }
    }
    None
}

/// The first word of a name that is written with underscores.
pub open spec fn first_word(name: Seq<char>) -> Seq<char> {
    pieces(name, '_')[0]
}

/// The first word of a name that is written with underscores.
pub fn word_of(name: &str) -> (r: String)
    ensures
        r@ == first_word(name@),
{
    let v = chars_of(name);
    let ps = split(&v, '_');
    proof {
        lemma_pieces_nonempty(name@, '_');
    }
    let t = text_of(&ps[0], 0, ps[0].len());
    assert(t@ =~= ps@[0]@);
    t
}

/// An ASCII letter in upper case.
pub open spec fn upper(c: char) -> char {
    if 97 <= c as int <= 122 {
        (c as int - 32) as char
    } else {
        c
    }
}

/// A name for people: a space for each underscore, and each word with a capital letter.
pub open spec fn title(name: Seq<char>) -> Seq<char> {
    Seq::new(
        name.len(),
        |i: int|
            if name[i] == '_' {
                ' '
            } else if i == 0 || name[i - 1] == '_' {
                upper(name[i])
            } else {
                name[i]
            },
    )
}

/// An ASCII letter in upper case.
fn capital(c: char) -> (r: char)
    ensures
        r == upper(c),
{
    let n: u32 = code_point(c);
    if 97 <= n && n <= 122 {
        ((n - 32) as u8) as char
    } else {
        c
    }
}

/// A name for people.
pub fn title_of(name: &str) -> (r: String)
    ensures
        r@ == title(name@),
{
    let v = chars_of(name);
    let mut s = String::new();
    for i in 0..v.len()
        invariant
            v@ == name@,
            s@ == title(name@).take(i as int),
    {
        let c = if v[i] == '_' {
            ' '
        } else if i == 0 || v[i - 1] == '_' {
            capital(v[i])
        } else {
            v[i]
        };
        s.push(c);
        assert(title(name@).take(i + 1) =~= title(name@).take(i as int).push(c));
    }
    assert(title(name@).take(v@.len() as int) =~= title(name@));
    s
}

/// The pieces of a text, put together again with the separator between them.
pub open spec fn rejoined<T>(ps: Seq<Seq<T>>, sep: T) -> Seq<T>
    decreases ps.len(),
{
    if ps.len() == 0 {
        Seq::empty()
    } else if ps.len() == 1 {
        ps[0]
    } else {
        rejoined(ps.drop_last(), sep).push(sep) + ps.last()
    }
}

/// Splitting loses nothing and goes all the way: the pieces put together give the text back,
/// and none of them holds the separator.
pub proof fn law_pieces<T>(s: Seq<T>, sep: T)
    ensures
        rejoined(pieces(s, sep), sep) == s,
        forall|i: int|
            0 <= i < pieces(s, sep).len() ==> !(#[trigger] pieces(s, sep)[i]).contains(sep),
    decreases s.len(),
{
    if s.len() > 0 {
        let t = s.drop_last();
        law_pieces(t, sep);
        lemma_pieces_nonempty(t, sep);
        let p = pieces(t, sep);
        let q = pieces(s, sep);
        if s.last() == sep {
            assert(q.drop_last() =~= p);
            assert(rejoined(q, sep) =~= s);
        } else {
            assert(q.drop_last() =~= p.drop_last());
            assert(q.last() == p.last().push(s.last()));
            assert(rejoined(q, sep) =~= rejoined(p, sep).push(s.last()));
            assert(!p.last().contains(sep)) by {
                assert(p[p.len() - 1] == p.last());
            }
            assert forall|i: int| 0 <= i < q.len() implies !(#[trigger] q[i]).contains(sep) by {
                if i < q.len() - 1 {
                    assert(q[i] == p[i]);
                } else if q[i].contains(sep) {
                    let k = choose|k: int| 0 <= k < q[i].len() && q[i][k] == sep;
                    if k < p.last().len() {
                        assert(p.last()[k] == sep);
                    }
                }
            }
        }
        assert(rejoined(q, sep) =~= s);
    } else {
        assert(rejoined(pieces(s, sep), sep) =~= s);
    }
}

/// What is left in front of a text is where its white space ends.
proof fn lemma_trim_start(s: Seq<char>) -> (k: int)
    ensures
        0 <= k <= s.len(),
        trim_start(s) == s.skip(k),
        forall|i: int| 0 <= i < k ==> is_white(#[trigger] s[i]),
        k < s.len() ==> !is_white(s[k]),
    decreases s.len(),
{
    if s.len() > 0 && is_white(s[0]) {
        let j = lemma_trim_start(s.drop_first());
        assert(s.drop_first().skip(j) =~= s.skip(j + 1));
        assert forall|i: int| 0 <= i < j + 1 implies is_white(#[trigger] s[i]) by {
            if i > 0 {
                assert(s[i] == s.drop_first()[i - 1]);
            }
        }
        j + 1
    } else {
        assert(s.skip(0) =~= s);
        0
    }
}

/// What is left at the end of a text is where its white space starts.
proof fn lemma_trim_end(s: Seq<char>) -> (k: int)
    ensures
        0 <= k <= s.len(),
        trim_end(s) == s.take(k),
        forall|i: int| k <= i < s.len() ==> is_white(#[trigger] s[i]),
        k > 0 ==> !is_white(s[k - 1]),
    decreases s.len(),
{
    if s.len() > 0 && is_white(s.last()) {
        let k = lemma_trim_end(s.drop_last());
        assert(s.drop_last().take(k) =~= s.take(k));
        assert forall|i: int| k <= i < s.len() implies is_white(#[trigger] s[i]) by {
            if i < s.len() - 1 {
                assert(s[i] == s.drop_last()[i]);
            }
        }
        k
    } else {
        assert(s.take(s.len() as int) =~= s);
        s.len() as int
    }
}

/// A text without the white space at its ends is the part of it between them: all that is cut
/// off is white space, and neither end of what is left is.
pub proof fn law_trimmed(s: Seq<char>) -> (bounds: (int, int))
    ensures
        0 <= bounds.0 <= bounds.1 <= s.len(),
        trimmed(s) == s.subrange(bounds.0, bounds.1),
        forall|i: int| 0 <= i < bounds.0 ==> is_white(#[trigger] s[i]),
        forall|i: int| bounds.1 <= i < s.len() ==> is_white(#[trigger] s[i]),
        bounds.0 < bounds.1 ==> !is_white(s[bounds.0]) && !is_white(s[bounds.1 - 1]),
        trimmed(s).len() == 0 <==> is_blank(s),
{
    let a = lemma_trim_start(s);
    let t = s.skip(a);
    let b = lemma_trim_end(t);
    assert(t.take(b) =~= s.subrange(a, a + b));
    assert forall|i: int| a + b <= i < s.len() implies is_white(#[trigger] s[i]) by {
        assert(s[i] == t[i - a]);
    }
    if b > 0 {
        assert(s[a + b - 1] == t[b - 1]);
        assert(a < s.len());
    }
    if is_blank(s) && b > 0 {
        assert(is_white(s[a + b - 1]));
    }
    if b == 0 {
        assert forall|i: int| 0 <= i < s.len() implies is_white(#[trigger] s[i]) by {}
    }
    (a, a + b)
}

/// What follows the first occurrence of a character is the rest behind it: before it there is
/// none, and nothing follows only where there is none at all.
pub proof fn law_after_first(s: Seq<char>, c: char)
    ensures
        after_first(s, c) is Some <==> s.contains(c),
        after_first(s, c) matches Some(rest) ==> {
            let k = s.len() - rest.len() - 1;
            &&& 0 <= k
            &&& s[k] == c
            &&& rest == s.skip(k + 1)
            &&& forall|i: int| 0 <= i < k ==> #[trigger] s[i] != c
        },
    decreases s.len(),
{
    if s.len() > 0 {
        let t = s.drop_first();
        law_after_first(t, c);
        if s[0] == c {
            assert(s.contains(c));
            assert(t =~= s.skip(1));
        } else {
            if t.contains(c) {
                let j = choose|j: int| 0 <= j < t.len() && t[j] == c;
                assert(s[j + 1] == c);
            }
            if s.contains(c) {
                let j = choose|j: int| 0 <= j < s.len() && s[j] == c;
                assert(t[j - 1] == c);
            }
            if let Some(rest) = after_first(s, c) {
                let k = s.len() - rest.len() - 1;
                assert(rest =~= s.skip(k + 1));
                assert(s[k] == t[k - 1]);
                assert forall|i: int| 0 <= i < k implies #[trigger] s[i] != c by {
                    if i > 0 {
                        assert(s[i] == t[i - 1]);
                    }
                }
            }
        }
    }
}

/// The number that decimal digits tell.
pub open spec fn value_of(s: Seq<char>) -> int
    decreases s.len(),
{
    if s.len() == 0 {
        0
    } else {
        10 * value_of(s.drop_last()) + (s.last() as int - 48)
    }
}

/// The digits of a number tell it.
proof fn lemma_value_of_digits(n: nat)
    ensures
        value_of(digits(n)) == n,
        digits(n).len() > 0,
        forall|i: int| 0 <= i < digits(n).len() ==> 48 <= (#[trigger] digits(n)[i]) as int <= 57,
    decreases n,
{
    lemma_digits(n, n);
    if n < 10 {
        assert(digits(n).drop_last() =~= Seq::<char>::empty());
        assert(value_of(Seq::<char>::empty()) == 0);
    } else {
        lemma_value_of_digits(n / 10);
        assert(digits(n).drop_last() =~= digits(n / 10));
    }
}

/// Decimal notation tells the number: its digits have its value, with a dash in front exactly
/// where it is negative.
pub proof fn law_decimal(n: int)
    ensures
        n >= 0 ==> value_of(decimal(n)) == n && decimal(n)[0] != '-',
        n < 0 ==> decimal(n)[0] == '-' && value_of(decimal(n).skip(1)) == -n,
{
    if n >= 0 {
        lemma_value_of_digits(n as nat);
    } else {
        lemma_value_of_digits((-n) as nat);
        assert(decimal(n).skip(1) =~= digits((-n) as nat));
    }
}

/// A text is before another if it is the start of it, or has the smaller character where they
/// first differ.
pub proof fn law_text_order(common: Seq<char>, a: Seq<char>, b: Seq<char>)
    ensures
        b.len() > 0 && a.len() == 0 ==> text_lt(common + a, common + b),
        a.len() > 0 && b.len() > 0 && a[0] != b[0] ==> (text_lt(common + a, common + b) <==> (
        a[0] as int) < (b[0] as int)),
        !text_lt(common + a, common),
    decreases common.len(),
{
    if common.len() > 0 {
        law_text_order(common.drop_first(), a, b);
        assert((common + a).drop_first() =~= common.drop_first() + a);
        assert((common + b).drop_first() =~= common.drop_first() + b);
    } else {
        assert(common + a =~= a);
        assert(common + b =~= b);
    }
}

/// A text begins with another if they agree as far as that goes, and ends with it if they agree
/// at the end.
pub proof fn law_ends_of_texts(s: Seq<char>, p: Seq<char>)
    ensures
        begins_with(s, p) <==> p.len() <= s.len() && forall|i: int|
            0 <= i < p.len() ==> #[trigger] s[i] == p[i],
        finishes_with(s, p) <==> p.len() <= s.len() && forall|i: int|
            0 <= i < p.len() ==> #[trigger] p[i] == s[s.len() - p.len() + i],
        begins_with(p + s, p),
        finishes_with(s + p, p),
{
    assert((p + s).take(p.len() as int) =~= p);
    assert((s + p).skip(s.len() as int) =~= p);
    if p.len() <= s.len() {
        let (a, b) = (s.take(p.len() as int), s.skip(s.len() - p.len()));
        if a == p {
            assert forall|i: int| 0 <= i < p.len() implies #[trigger] s[i] == p[i] by {
                assert(a[i] == s[i]);
            }
        }
        if forall|i: int| 0 <= i < p.len() ==> #[trigger] s[i] == p[i] {
            assert(a =~= p);
        }
        if b == p {
            assert forall|i: int| 0 <= i < p.len() implies #[trigger] p[i] == s[s.len() - p.len() + i] by {
                assert(b[i] == s[s.len() - p.len() + i]);
            }
        }
        if forall|i: int| 0 <= i < p.len() ==> #[trigger] p[i] == s[s.len() - p.len() + i] {
            assert(b =~= p);
        }
    }
}

/// The first word of a name is what stands before its first underscore, all of it where there
/// is none.
pub proof fn law_first_word(word: Seq<char>, rest: Seq<char>)
    requires
        !word.contains('_'),
    ensures
        first_word(word) == word,
        first_word(word + seq!['_'] + rest) == word,
{
    lemma_whole_piece(word, '_');
    let a = word.push('_');
    assert(word + seq!['_'] + rest =~= a + rest);
    lemma_pieces_concat(a, rest, '_');
    assert(a.drop_last() =~= word);
    assert(pieces(a, '_') == pieces(word, '_').push(Seq::empty()));
    assert(pieces(a, '_').drop_last()[0] == word);
}

/// A text without the separator is its own only piece.
proof fn lemma_whole_piece(s: Seq<char>, sep: char)
    requires
        !s.contains(sep),
    ensures
        pieces(s, sep) == seq![s],
    decreases s.len(),
{
    if s.len() > 0 {
        let t = s.drop_last();
        if t.contains(sep) {
            let i = choose|i: int| 0 <= i < t.len() && t[i] == sep;
            assert(s[i] == sep);
        }
        lemma_whole_piece(t, sep);
        assert(s[s.len() - 1] != sep);
        assert(t.push(s.last()) =~= s);
        assert(pieces(s, sep) =~= seq![s]);
    } else {
        assert(s =~= Seq::empty());
    }
}

/// Spaces, tabs and line ends are white space; letters, digits and signs of ASCII are not.
pub proof fn law_white(c: char)
    ensures
        c == ' ' || c == '\t' || c == '\n' || c == '\r' ==> is_white(c),
        0x21 <= c as u32 <= 0x7e ==> !is_white(c),
        c as u32 == 0xa0 || c as u32 == 0x3000 || c as u32 == 0x2028 || 0x2000 <= c as u32 <= 0x200a
            ==> is_white(c),
{
}

/// Lists and optional texts are read one by one, each as its own characters.
pub proof fn law_texts(v: Seq<String>, i: int, s: String, t: &str)
    ensures
        texts(v).len() == v.len(),
        0 <= i < v.len() ==> texts(v)[i] == v[i]@,
        opt_text(Some(s)) == Some(s@),
        opt_text(None) is None,
        opt_str(Some(t)) == Some(t@),
        opt_str(None) is None,
{
}

} // verus!
