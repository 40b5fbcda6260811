//! Reading the sources: what of a log file is new, and its lines.

pub mod claude_code;
pub mod codex;
pub mod openrouter;

use crate::digest::utf8;
use crate::text::{
    blank, is_blank, law_pieces, lemma_pieces_concat, lemma_pieces_nonempty, pieces, rejoined, texts,
};
use vstd::prelude::*;

verus! {

/// What `String::from_utf8_lossy` reads out of bytes.
pub uninterp spec fn lossy_text(bytes: Seq<u8>) -> Seq<char>;

/// `String::from_utf8_lossy`. The contract claims that the text is a function of the bytes
/// and, where these are a text in UTF-8, that text.
#[verifier::external_body]
fn decode_lossy(bytes: &[u8]) -> (r: String)
    ensures
        r@ == lossy_text(bytes@),
        forall|s: Seq<char>| bytes@ == #[trigger] utf8(s) ==> r@ == s,
{
    String::from_utf8_lossy(bytes).into_owned()
}

/// Where to read a file of `len` bytes from, up to `start` of which were read before: none
/// where there is nothing new. A file that has shrunk is read from its start.
pub fn read_start(start: u64, len: u64) -> (r: Option<u64>)
    ensures
        r == if start > len {
            if len == 0 {
                None
            } else {
                Some(0u64)
            }
        } else if start == len {
            None
        } else {
            Some(start)
        },
{
    let from: u64 = if start > len {
        0
    } else {
        start
    };
    if from >= len {
        None
    } else {
        Some(from)
    }
}

/// The number of bytes up to and including the last newline.
pub open spec fn complete(b: Seq<u8>) -> int
    decreases b.len(),
{
    if b.len() == 0 {
        0
    } else if b.last() == 10u8 {
        b.len() as int
    } else {
        complete(b.drop_last())
    }
}

/// The texts of lines, without those that hold nothing but white space.
pub open spec fn kept(lines: Seq<Seq<u8>>) -> Seq<Seq<char>>
    decreases lines.len(),
{
    if lines.len() == 0 {
        Seq::empty()
    } else {
        let rest = kept(lines.drop_last());
        let t = lossy_text(lines.last());
        if is_blank(t) {
            rest
        } else {
            rest.push(t)
        }
    }
}

/// The lines of bytes, each ended by a newline.
pub open spec fn ended_lines(b: Seq<u8>) -> Seq<Seq<u8>> {
    pieces(b.take(complete(b)), 10u8).drop_last()
}

/// The texts of the complete lines of bytes, without blank ones. What follows the last
/// newline is left for later.
pub open spec fn lines_of(b: Seq<u8>) -> Seq<Seq<char>> {
    kept(ended_lines(b))
}

/// The number of complete bytes is one that there are, and the last of them is a newline.
pub proof fn lemma_complete(b: Seq<u8>)
    ensures
        0 <= complete(b) <= b.len(),
        complete(b) > 0 ==> b[complete(b) - 1] == 10u8,
        forall|i: int| complete(b) <= i < b.len() ==> b[i] != 10u8,
    decreases b.len(),
{
    if b.len() > 0 && b.last() != 10u8 {
        let c = b.drop_last();
        lemma_complete(c);
        assert forall|i: int| complete(b) <= i < b.len() implies b[i] != 10u8 by {
            if i < c.len() {
                assert(b[i] == c[i]);
            }
        }
    }
}

/// The texts that hold something other than white space.
pub open spec fn nonblank(lines: Seq<Seq<char>>) -> Seq<Seq<char>>
    decreases lines.len(),
{
    if lines.len() == 0 {
        Seq::empty()
    } else if is_blank(lines.last()) {
        nonblank(lines.drop_last())
    } else {
        nonblank(lines.drop_last()).push(lines.last())
    }
}

/// Whether a text in UTF-8 is read as that text.
pub open spec fn faithful(b: Seq<u8>) -> bool {
    forall|s: Seq<char>| b == #[trigger] utf8(s) ==> lossy_text(b) == s
}

/// Whether the first `n` lines are read faithfully.
pub open spec fn all_faithful(lines: Seq<Seq<u8>>, n: int) -> bool {
    forall|k: int| 0 <= k < n ==> faithful(#[trigger] lines[k])
}

/// The bytes of a character are newlines only if the character is one.
proof fn lemma_newline_byte(c: char)
    ensures
        c == '\n' ==> vstd::utf8::encode_scalar(c as u32) == seq![10u8],
        c != '\n' ==> forall|i: int|
            0 <= i < vstd::utf8::encode_scalar(c as u32).len()
                ==> #[trigger] vstd::utf8::encode_scalar(c as u32)[i] != 10u8,
{
    let n = c as u32;
    assert(n <= 0x7f ==> (n & 0x7f) as u8 == n) by (bit_vector);
    assert(forall|x: u8| #[trigger] (0x80u8 | x) >= 0x80) by (bit_vector);
    assert(forall|x: u8| #[trigger] (0xC0u8 | x) >= 0x80) by (bit_vector);
    assert(forall|x: u8| #[trigger] (0xE0u8 | x) >= 0x80) by (bit_vector);
    assert(forall|x: u8| #[trigger] (0xF0u8 | x) >= 0x80) by (bit_vector);
}

/// The bytes of a text that one character is added to.
proof fn lemma_utf8_push(s: Seq<char>, c: char)
    ensures
        utf8(s.push(c)) == utf8(s) + vstd::utf8::encode_scalar(c as u32),
    decreases s.len(),
{
    if s.len() == 0 {
        assert(s.push(c).drop_first() =~= Seq::<char>::empty());
        assert(utf8(Seq::<char>::empty()) =~= Seq::<u8>::empty());
        assert(s.push(c)[0] == c);
        assert(utf8(s.push(c)) =~= utf8(s) + vstd::utf8::encode_scalar(c as u32));
    } else {
        assert(s.push(c).drop_first() =~= s.drop_first().push(c));
        lemma_utf8_push(s.drop_first(), c);
        assert(s.push(c)[0] == s[0]);
        assert(utf8(s.push(c)) =~= utf8(s) + vstd::utf8::encode_scalar(c as u32));
    }
}

/// Bytes without a newline extend the last line.
proof fn lemma_pieces_extend(a: Seq<u8>, b: Seq<u8>)
    requires
        forall|i: int| 0 <= i < b.len() ==> b[i] != 10u8,
    ensures
        pieces(a + b, 10u8) == pieces(a, 10u8).drop_last().push(pieces(a, 10u8).last() + b),
    decreases b.len(),
{
    lemma_pieces_nonempty(a, 10u8);
    let p = pieces(a, 10u8);
    if b.len() == 0 {
        assert(a + b =~= a);
        assert(p.last() + b =~= p.last());
        assert(p =~= p.drop_last().push(p.last() + b));
    } else {
        let c = b.drop_last();
        lemma_pieces_extend(a, c);
        assert((a + b).drop_last() =~= a + c);
        assert(p.last() + b =~= (p.last() + c).push(b.last()));
        assert(pieces(a + b, 10u8) =~= p.drop_last().push(p.last() + b));
    }
}

/// The lines of a text in UTF-8 are the bytes of the lines of the text.
proof fn lemma_utf8_lines(s: Seq<char>)
    ensures
        pieces(utf8(s), 10u8).len() == pieces(s, '\n').len(),
        forall|i: int|
            0 <= i < pieces(s, '\n').len() ==> #[trigger] pieces(utf8(s), 10u8)[i] == utf8(
                pieces(s, '\n')[i],
            ),
    decreases s.len(),
{
    if s.len() > 0 {
        let t = s.drop_last();
        let c = s.last();
        lemma_utf8_lines(t);
        lemma_pieces_nonempty(t, '\n');
        assert(s =~= t.push(c));
        lemma_utf8_push(t, c);
        lemma_newline_byte(c);
        let e = vstd::utf8::encode_scalar(c as u32);
        if c == '\n' {
            assert((utf8(t) + e).drop_last() =~= utf8(t));
            assert((utf8(t) + e).last() == 10u8);
        } else {
            lemma_pieces_extend(utf8(t), e);
            lemma_utf8_push(pieces(t, '\n').last(), c);
        }
    }
}

/// Lines that are read faithfully give the texts that their bytes are.
proof fn lemma_kept_texts(lines: Seq<Seq<u8>>, ts: Seq<Seq<char>>)
    requires
        lines.len() == ts.len(),
        all_faithful(lines, lines.len() as int),
        forall|i: int| 0 <= i < lines.len() ==> #[trigger] lines[i] == utf8(ts[i]),
    ensures
        kept(lines) == nonblank(ts),
    decreases lines.len(),
{
    if lines.len() > 0 {
        let n = lines.len() - 1;
        let (l, t) = (lines.drop_last(), ts.drop_last());
        assert forall|i: int| 0 <= i < l.len() implies faithful(#[trigger] l[i]) by {
            assert(faithful(lines[i]));
        }
        assert forall|i: int| 0 <= i < l.len() implies #[trigger] l[i] == utf8(t[i]) by {
            assert(lines[i] == utf8(ts[i]));
        }
        lemma_kept_texts(l, t);
        assert(faithful(lines[n]));
        assert(lines[n] == utf8(ts[n]));
    }
}

/// The texts of complete lines that are read faithfully are those of the text that the
/// bytes are.
proof fn lemma_valid_lines(whole: Seq<u8>, s: Seq<char>)
    requires
        whole == utf8(s),
        whole.len() == 0 || whole.last() == 10u8,
        all_faithful(pieces(whole, 10u8), pieces(whole, 10u8).len() - 1),
    ensures
        kept(pieces(whole, 10u8).drop_last()) == nonblank(pieces(s, '\n')),
{
    let (b, t) = (pieces(whole, 10u8), pieces(s, '\n'));
    lemma_utf8_lines(s);
    lemma_pieces_nonempty(s, '\n');
    let (x, y) = (b.drop_last(), t.drop_last());
    assert forall|i: int| 0 <= i < x.len() implies faithful(#[trigger] x[i]) by {
        assert(faithful(b[i]));
    }
    assert forall|i: int| 0 <= i < x.len() implies #[trigger] x[i] == utf8(y[i]) by {
        assert(b[i] == utf8(t[i]));
    }
    lemma_kept_texts(x, y);
    assert(b.last() =~= Seq::<u8>::empty());
    assert(b[b.len() - 1] == utf8(t[t.len() - 1]));
    vstd::utf8::encode_utf8_decode_utf8(t.last());
    vstd::utf8::encode_utf8_decode_utf8(Seq::<char>::empty());
    assert(t.last() =~= Seq::<char>::empty());
}

/// Where to go on reading after the bytes `buf`, read from `start`.
pub open spec fn next_offset(buf: Seq<u8>, start: int) -> int {
    start + complete(buf)
}

/// The texts of the complete lines in the bytes `buf`, read from `start`, and where to go on.
pub fn read_appended_lines(buf: &Vec<u8>, start: u64) -> (r: (Vec<String>, u64))
    requires
        start + buf@.len() <= u64::MAX,
    ensures
        texts(r.0@) == lines_of(buf@),
        r.1 == next_offset(buf@, start as int),
        forall|s: Seq<char>|
            buf@.take(complete(buf@)) == #[trigger] utf8(s) ==> texts(r.0@) == nonblank(
                pieces(s, '\n'),
            ),
{
    let mut end: usize = buf.len();
    assert(buf@.take(end as int) =~= buf@);
    proof {
        lemma_complete(buf@);
    }
    while end > 0 && buf[end - 1] != 10
        invariant
            end <= buf@.len(),
            complete(buf@) == complete(buf@.take(end as int)),
        ensures
            end == complete(buf@),
            end <= buf@.len(),
        decreases end,
    {
        assert(buf@.take(end as int).drop_last() =~= buf@.take(end - 1));
        end = end - 1;
    }
    let mut lines: Vec<String> = Vec::new();
    let mut cur: Vec<u8> = Vec::new();
    let ghost whole = buf@.take(end as int);
    assert(whole.take(0) =~= Seq::<u8>::empty());
    assert(pieces(whole.take(0), 10u8).drop_last() =~= Seq::<Seq<u8>>::empty());
    assert(texts(lines@) =~= Seq::<Seq<char>>::empty());
    for i in 0..end
        invariant
            end <= buf@.len(),
            whole == buf@.take(end as int),
            pieces(whole.take(i as int), 10u8).len() >= 1,
            pieces(whole.take(i as int), 10u8).last() == cur@,
            texts(lines@) == kept(pieces(whole.take(i as int), 10u8).drop_last()),
            all_faithful(
                pieces(whole.take(i as int), 10u8),
                pieces(whole.take(i as int), 10u8).len() - 1,
            ),
    {
        let ghost before = pieces(whole.take(i as int), 10u8);
        let ghost after = pieces(whole.take(i + 1), 10u8);
        assert(whole.take(i + 1).drop_last() =~= whole.take(i as int));
        assert(whole.take(i + 1).last() == buf@[i as int]);
        if buf[i] == 10 {
            assert(after.drop_last() =~= before);
            assert(before.last() == cur@);
            let t = decode_lossy(cur.as_slice());
            assert(faithful(before.last()));
            assert forall|k: int| 0 <= k < after.len() - 1 implies faithful(#[trigger] after[k]) by {
                assert(after[k] == before[k]);
                if k < before.len() - 1 {
                    assert(faithful(before[k]));
                }
            }
            let ghost old_lines = lines@;
            if !blank(t.as_str()) {
                lines.push(t);
                assert(texts(lines@) =~= texts(old_lines).push(t@));
            }
            cur = Vec::new();
        } else {
            assert(after.drop_last() =~= before.drop_last());
            assert forall|k: int| 0 <= k < after.len() - 1 implies faithful(#[trigger] after[k]) by {
                assert(after[k] == before[k]);
                assert(faithful(before[k]));
            }
            cur.push(buf[i]);
        }
    }
    assert(whole.take(end as int) =~= whole);
    assert forall|s: Seq<char>| whole == #[trigger] utf8(s) implies texts(lines@) == nonblank(
        pieces(s, '\n'),
    ) by {
        lemma_valid_lines(whole, s);
    }
    (lines, start + end as u64)
}

/// The texts of two runs of lines are those of the first and then those of the second.
proof fn lemma_kept_concat(a: Seq<Seq<u8>>, b: Seq<Seq<u8>>)
    ensures
        kept(a + b) == kept(a) + kept(b),
    decreases b.len(),
{
    if b.len() == 0 {
        assert(a + b =~= a);
        assert(kept(a) + kept(b) =~= kept(a));
    } else {
        lemma_kept_concat(a, b.drop_last());
        assert((a + b).drop_last() =~= a + b.drop_last());
        assert((a + b).last() == b.last());
        assert(kept(a + b) =~= kept(a) + kept(b));
    }
}

/// Complete bytes in front only shift where the last newline is.
proof fn lemma_complete_concat(a: Seq<u8>, b: Seq<u8>)
    requires
        a.len() == 0 || a.last() == 10u8,
    ensures
        complete(a + b) == a.len() + complete(b),
    decreases b.len(),
{
    if b.len() == 0 {
        assert(a + b =~= a);
    } else {
        assert((a + b).last() == b.last());
        assert((a + b).drop_last() =~= a + b.drop_last());
        lemma_complete_concat(a, b.drop_last());
    }
}

/// Nothing is lost or read twice: a file of which `a` was read and to which `b` was then
/// added gives, when reading goes on where it stopped, first the lines of `a` and then the
/// others, together those of reading it all at once, and reading stops at the same place.
pub proof fn law_incremental_reading(a: Seq<u8>, b: Seq<u8>, start: int)
    ensures
        ({
            let rest = (a + b).skip(complete(a));
            &&& lines_of(a + b) == lines_of(a) + lines_of(rest)
            &&& next_offset(rest, next_offset(a, start)) == next_offset(a + b, start)
        }),
{
    lemma_complete(a);
    let head = a.take(complete(a));
    let rest = (a + b).skip(complete(a));
    assert(a + b =~= head + rest);
    lemma_complete_concat(head, rest);
    lemma_complete(rest);
    let done = rest.take(complete(rest));
    assert((a + b).take(complete(a + b)) =~= head + done);
    if head.len() > 0 {
        lemma_pieces_concat(head, done, 10u8);
        lemma_pieces_nonempty(head, 10u8);
        lemma_pieces_nonempty(done, 10u8);
        assert(ended_lines(a + b) =~= ended_lines(a) + ended_lines(rest));
        lemma_kept_concat(ended_lines(a), ended_lines(rest));
    } else {
        assert(head + done =~= done);
        assert(ended_lines(a) =~= Seq::empty());
        assert(lines_of(a) + lines_of(rest) =~= lines_of(rest));
    }
}

/// Reading again gives nothing new: what is left after the complete lines has none.
pub proof fn law_reading_again(a: Seq<u8>)
    ensures
        lines_of(a.skip(complete(a))) == Seq::<Seq<char>>::empty(),
        complete(a.skip(complete(a))) == 0,
{
    lemma_complete(a);
    let rest = a.skip(complete(a));
    lemma_complete(rest);
    if complete(rest) > 0 {
        assert(rest[complete(rest) - 1] == a[complete(a) + complete(rest) - 1]);
    }
    assert(rest.take(0) =~= Seq::<u8>::empty());
    assert(ended_lines(rest) =~= Seq::empty());
}

/// Every line that holds more than white space is kept, in its order, and no other: keeping
/// lines goes run by run, and a single line is kept as it reads, unless it is blank.
pub proof fn law_kept_lines(a: Seq<Seq<u8>>, b: Seq<Seq<u8>>, line: Seq<u8>, s: Seq<char>)
    ensures
        kept(a + b) == kept(a) + kept(b),
        is_blank(lossy_text(line)) ==> kept(seq![line]).len() == 0,
        !is_blank(lossy_text(line)) ==> kept(seq![line]) == seq![lossy_text(line)],
        kept(Seq::<Seq<u8>>::empty()).len() == 0,
        is_blank(s) ==> nonblank(seq![s]).len() == 0,
        !is_blank(s) ==> nonblank(seq![s]) == seq![s],
{
    lemma_kept_concat(a, b);
    assert(seq![line].drop_last() =~= Seq::<Seq<u8>>::empty());
    assert(seq![s].drop_last() =~= Seq::<Seq<char>>::empty());
    assert(kept(Seq::<Seq<u8>>::empty()) =~= Seq::empty());
    assert(nonblank(Seq::<Seq<char>>::empty()) =~= Seq::empty());
    assert(kept(seq![line]) =~= if is_blank(lossy_text(line)) {
        Seq::empty()
    } else {
        seq![lossy_text(line)]
    });
    assert(nonblank(seq![s]) =~= if is_blank(s) {
        Seq::empty()
    } else {
        seq![s]
    });
}

/// A file is read on behind its last newline: all bytes before it are read, none behind it,
/// and the next scan starts there.
pub proof fn law_next_offset(buf: Seq<u8>, start: int)
    ensures
        start <= next_offset(buf, start) <= start + buf.len(),
        forall|i: int| next_offset(buf, start) - start <= i < buf.len() ==> #[trigger] buf[i] != 10u8,
        next_offset(buf, start) > start ==> buf[next_offset(buf, start) - start - 1] == 10u8,
{
    lemma_complete(buf);
}

/// The lines that are read put together, a newline behind each, are the bytes up to the last
/// newline; none of them holds one.
pub proof fn law_ended_lines(b: Seq<u8>)
    ensures
        rejoined(ended_lines(b).push(Seq::empty()), 10u8) == b.take(complete(b)),
        forall|i: int|
            0 <= i < ended_lines(b).len() ==> !(#[trigger] ended_lines(b)[i]).contains(10u8),
{
    lemma_complete(b);
    let h = b.take(complete(b));
    let p = pieces(h, 10u8);
    law_pieces(h, 10u8);
    lemma_pieces_nonempty(h, 10u8);
    assert(p.last().len() == 0) by {
        if complete(b) > 0 {
            assert(h.last() == 10u8);
        }
    }
    assert(p.last() =~= Seq::<u8>::empty());
    assert(ended_lines(b).push(Seq::empty()) =~= p);
    assert forall|i: int| 0 <= i < ended_lines(b).len() implies !(#[trigger] ended_lines(b)[i]).contains(
        10u8,
    ) by {
        assert(ended_lines(b)[i] == p[i]);
    }
}

} // verus!
