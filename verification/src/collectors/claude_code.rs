//! The logs of `claude_code`.

use crate::collectors::{
    complete, law_incremental_reading, lines_of, next_offset, read_appended_lines,
};
use crate::config::{expand_tilde, expanded};
use crate::db::{law_known_records_add_nothing, newly_stored, stored_uids};
use crate::models::{Event, EventView};
use crate::normalize::{claude_code_line, claude_line_event};
use crate::paths::{
    components, file_stem, file_stem_of, has_ext, has_extension, has_parts, joined, parent_name,
    parent_name_of, path_components, path_join, rising_paths, sort_paths,
};
use crate::pricing::Pricing;
use crate::text::{chars_of, lend, opt_str, opt_text, texts};
use vstd::prelude::*;

verus! {

/// The session and the project that a file stands for: its name without the extension, and
/// the name of its directory.
pub fn file_context(path: &str) -> (r: (Option<String>, Option<String>))
    ensures
        opt_text(r.0) == file_stem_of(path@),
        opt_text(r.1) == parent_name_of(path@),
{
    (file_stem(path), parent_name(path))
}

/// The contents of records.
pub open spec fn event_views(v: Seq<Event>) -> Seq<EventView> {
    v.map_values(|e: Event| e@)
}

/// The records that lines give, in their order.
pub open spec fn claude_events_of(
    lines: Seq<Seq<char>>,
    session: Option<Seq<char>>,
    project: Option<Seq<char>>,
    raw_source: Seq<char>,
    pricing: Pricing,
) -> Seq<EventView>
    decreases lines.len(),
{
    if lines.len() == 0 {
        Seq::empty()
    } else {
        let rest = claude_events_of(lines.drop_last(), session, project, raw_source, pricing);
        match claude_line_event(lines.last(), session, project, raw_source, pricing) {
            Some(e) => rest.push(e),
            None => rest,
        }
    }
}

/// The records that lines give, in their order.
pub fn parse_lines(
    lines: &Vec<String>,
    session: Option<&str>,
    project: Option<&str>,
    raw_source: &str,
    pricing: &Pricing,
) -> (r: Vec<Event>)
    ensures
        event_views(r@) == claude_events_of(
            texts(lines@),
            opt_str(session),
            opt_str(project),
            raw_source@,
            *pricing,
        ),
{
    let mut out: Vec<Event> = Vec::new();
    let ghost all = texts(lines@);
    assert(event_views(out@) =~= Seq::empty());
    assert(all.take(0) =~= Seq::empty());
    for i in 0..lines.len()
        invariant
            all == texts(lines@),
            event_views(out@) == claude_events_of(
                all.take(i as int),
                opt_str(session),
                opt_str(project),
                raw_source@,
                *pricing,
            ),
    {
        assert(all.take(i + 1).drop_last() =~= all.take(i as int));
        assert(all.take(i + 1).last() == lines@[i as int]@);
        let ghost before = out@;
        match claude_code_line(lines[i].as_str(), session, project, raw_source, pricing) {
            Some(e) => {
                out.push(e);
                assert(event_views(out@) =~= event_views(before).push(e@));
            },
            None => {},
        }
    }
    assert(all.take(all.len() as int) =~= all);
    out
}

/// The records of the complete lines in the bytes `buf`, read from the file `path` at
/// `start`, and where to go on reading.
pub fn scan_one(buf: &Vec<u8>, start: u64, path: &str, pricing: &Pricing) -> (r: (Vec<Event>, u64))
    requires
        start + buf@.len() <= u64::MAX,
    ensures
        event_views(r.0@) == claude_events_of(
            lines_of(buf@),
            file_stem_of(path@),
            parent_name_of(path@),
            path@,
            *pricing,
        ),
        r.1 == next_offset(buf@, start as int),
{
    let (session, project) = file_context(path);
    let (lines, offset) = read_appended_lines(buf, start);
    let events = parse_lines(&lines, lend(&session), lend(&project), path, pricing);
    (events, offset)
}

/// Whether a file that has changed is one of the logs.
pub fn is_log(path: &str) -> (r: bool)
    ensures
        r == has_ext(path@, "jsonl"@),
{
    has_extension(path, "jsonl")
}

/// Whether a part of a pattern stands for more than one name.
pub open spec fn is_wild(s: Seq<char>) -> bool {
    s.contains('*') || s.contains('?') || s.contains('[')
}

/// The first `n` parts joined to a path, up to the first that is wild.
pub open spec fn tame_prefix(parts: Seq<Seq<char>>, n: int) -> (Seq<char>, bool)
    decreases n,
{
    if n <= 0 {
        (Seq::empty(), true)
    } else {
        let (root, open) = tame_prefix(parts, n - 1);
        if open && !is_wild(parts[n - 1]) {
            (joined(root, parts[n - 1]), true)
        } else {
            (root, false)
        }
    }
}

/// The longest leading path of a pattern without a wild part.
pub open spec fn glob_root_of(pattern: Seq<char>, home: Option<Seq<char>>) -> Seq<char> {
    let parts = components(expanded(pattern, home));
    tame_prefix(parts, parts.len() as int).0
}

/// Whether a part of a pattern stands for more than one name.
fn wild(s: &str) -> (r: bool)
    ensures
        r == is_wild(s@),
{
    let v = chars_of(s);
    for i in 0..v.len()
        invariant
            v@ == s@,
            forall|j: int| 0 <= j < i ==> v@[j] != '*' && v@[j] != '?' && v@[j] != '[',
    {
        if v[i] == '*' || v[i] == '?' || v[i] == '[' {
            assert(s@.contains(v@[i as int]));
            return true;
        }
    }
    false
}

/// Once a part is wild, nothing more is joined.
proof fn lemma_tame_stops(parts: Seq<Seq<char>>, i: int, n: int)
    requires
        0 <= i <= n,
        !tame_prefix(parts, i).1,
    ensures
        tame_prefix(parts, n) == tame_prefix(parts, i),
    decreases n,
{
    if i < n {
        lemma_tame_stops(parts, i, n - 1);
    }
}

/// The longest leading path of a pattern without a wild part.
pub fn glob_root(pattern: &str, home: Option<&str>) -> (r: String)
    ensures
        r@ == glob_root_of(pattern@, opt_str(home)),
{
    let full = expand_tilde(pattern, home);
    let parts = path_components(full.as_str());
    let ghost all = components(full@);
    let mut root = String::new();
    assert(texts(parts@).len() == parts@.len());
    for i in 0..parts.len()
        invariant
            all == texts(parts@),
            all == components(expanded(pattern@, opt_str(home))),
            tame_prefix(all, i as int) == (root@, true),
    {
        assert(all[i as int] == parts@[i as int]@);
        if wild(parts[i].as_str()) {
            proof {
                lemma_tame_stops(all, i + 1, all.len() as int);
            }
            return root;
        }
        root = path_join(root.as_str(), parts[i].as_str());
    }
    root
}

/// The roots of the given patterns, in their order.
pub open spec fn glob_roots_of(globs: Seq<Seq<char>>, home: Option<Seq<char>>) -> Seq<Seq<char>> {
    globs.map_values(|g: Seq<char>| glob_root_of(g, home))
}

/// The directories to watch for the given patterns: their roots, sorted, each once.
pub fn watch_roots(globs: &Vec<String>, home: Option<&str>) -> (r: Vec<String>)
    ensures
        rising_paths(texts(r@)),
        forall|i: int|
            0 <= i < r@.len() ==> glob_roots_of(texts(globs@), opt_str(home)).contains(
                #[trigger] texts(r@)[i],
            ),
        forall|i: int|
            0 <= i < globs@.len() ==> has_parts(
                texts(r@),
                components(#[trigger] glob_roots_of(texts(globs@), opt_str(home))[i]),
            ),
{
    let mut out: Vec<String> = Vec::new();
    for i in 0..globs.len()
        invariant
            out@.len() == i,
            forall|k: int|
                0 <= k < i ==> (#[trigger] out@[k])@ == glob_root_of(globs@[k]@, opt_str(home)),
    {
        out.push(glob_root(globs[i].as_str(), home));
    }
    assert(texts(out@) =~= glob_roots_of(texts(globs@), opt_str(home)));
    sort_paths(&out)
}

/// The records of two runs of lines are those of the first and then those of the second.
pub proof fn law_lines_in_two_runs(
    a: Seq<Seq<char>>,
    b: Seq<Seq<char>>,
    session: Option<Seq<char>>,
    project: Option<Seq<char>>,
    raw_source: Seq<char>,
    pricing: Pricing,
)
    ensures
        claude_events_of(a + b, session, project, raw_source, pricing) == claude_events_of(
            a,
            session,
            project,
            raw_source,
            pricing,
        ) + claude_events_of(b, session, project, raw_source, pricing),
    decreases b.len(),
{
    let x = claude_events_of(a, session, project, raw_source, pricing);
    let y = claude_events_of(b, session, project, raw_source, pricing);
    if b.len() == 0 {
        assert(a + b =~= a);
        assert(x + y =~= x);
    } else {
        law_lines_in_two_runs(a, b.drop_last(), session, project, raw_source, pricing);
        assert((a + b).drop_last() =~= a + b.drop_last());
        assert((a + b).last() == b.last());
        assert(claude_events_of(a + b, session, project, raw_source, pricing) =~= x + y);
    }
}

/// A log that is scanned, grows and is scanned on gives the records of a scan of the whole.
pub proof fn law_scan_on(
    a: Seq<u8>,
    b: Seq<u8>,
    session: Option<Seq<char>>,
    project: Option<Seq<char>>,
    raw_source: Seq<char>,
    pricing: Pricing,
)
    ensures
        claude_events_of(lines_of(a + b), session, project, raw_source, pricing)
            == claude_events_of(lines_of(a), session, project, raw_source, pricing)
            + claude_events_of(
            lines_of((a + b).skip(complete(a))),
            session,
            project,
            raw_source,
            pricing,
        ),
{
    law_incremental_reading(a, b, 0);
    law_lines_in_two_runs(
        lines_of(a),
        lines_of((a + b).skip(complete(a))),
        session,
        project,
        raw_source,
        pricing,
    );
}

/// Whether one of the records has the identifier.
pub open spec fn has_uid(events: Seq<EventView>, uid: Seq<char>) -> bool {
    exists|i: int| 0 <= i < events.len() && (#[trigger] events[i]).event_uid == uid
}

/// Scanning a log anew adds nothing: the identifiers of a scan of the whole are those of the
/// scans that went before, step by step, so that every record is known already.
pub proof fn law_scanning_anew(
    a: Seq<u8>,
    b: Seq<u8>,
    session: Option<Seq<char>>,
    project: Option<Seq<char>>,
    raw_source: Seq<char>,
    pricing: Pricing,
    uid: Seq<char>,
)
    ensures
        has_uid(claude_events_of(lines_of(a + b), session, project, raw_source, pricing), uid) <==> (
        has_uid(claude_events_of(lines_of(a), session, project, raw_source, pricing), uid) || has_uid(
            claude_events_of(
                lines_of((a + b).skip(complete(a))),
                session,
                project,
                raw_source,
                pricing,
            ),
            uid,
        )),
{
    law_scan_on(a, b, session, project, raw_source, pricing);
    let whole = claude_events_of(lines_of(a + b), session, project, raw_source, pricing);
    let x = claude_events_of(lines_of(a), session, project, raw_source, pricing);
    let y = claude_events_of(
        lines_of((a + b).skip(complete(a))),
        session,
        project,
        raw_source,
        pricing,
    );
    assert(whole == x + y);
    if has_uid(whole, uid) {
        let i = choose|i: int| 0 <= i < whole.len() && (#[trigger] whole[i]).event_uid == uid;
        if i < x.len() {
            assert(x[i] == whole[i]);
        } else {
            assert(y[i - x.len()] == whole[i]);
        }
    }
    if has_uid(x, uid) {
        let i = choose|i: int| 0 <= i < x.len() && (#[trigger] x[i]).event_uid == uid;
        assert(whole[i] == x[i]);
    }
    if has_uid(y, uid) {
        let i = choose|i: int| 0 <= i < y.len() && (#[trigger] y[i]).event_uid == uid;
        assert(whole[x.len() + i] == y[i]);
    }
}

/// Once both scans of a log that grows are stored, scanning it anew stores nothing.
pub proof fn law_rescan_stores_nothing(
    known: Set<Seq<char>>,
    a: Seq<u8>,
    b: Seq<u8>,
    session: Option<Seq<char>>,
    project: Option<Seq<char>>,
    raw_source: Seq<char>,
    pricing: Pricing,
)
    ensures
        ({
            let rest = lines_of((a + b).skip(complete(a)));
            let one = claude_events_of(lines_of(a), session, project, raw_source, pricing);
            let two = claude_events_of(rest, session, project, raw_source, pricing);
            let anew = claude_events_of(lines_of(a + b), session, project, raw_source, pricing);
            newly_stored(stored_uids(stored_uids(known, one), two), anew) == 0
        }),
{
    let rest = lines_of((a + b).skip(complete(a)));
    let one = claude_events_of(lines_of(a), session, project, raw_source, pricing);
    let two = claude_events_of(rest, session, project, raw_source, pricing);
    let anew = claude_events_of(lines_of(a + b), session, project, raw_source, pricing);
    let stored = stored_uids(stored_uids(known, one), two);
    assert forall|uid: Seq<char>| #[trigger] has_uid(anew, uid) implies stored.contains(uid) by {
        law_scanning_anew(a, b, session, project, raw_source, pricing, uid);
    }
    law_known_records_add_nothing(stored, anew);
}

/// A line gives its own record and no other, and no line gives any where there is none.
pub proof fn law_one_line(
    line: Seq<char>,
    session: Option<Seq<char>>,
    project: Option<Seq<char>>,
    raw_source: Seq<char>,
    pricing: Pricing,
)
    ensures
        ({
            let e = claude_line_event(line, session, project, raw_source, pricing);
            let r = claude_events_of(seq![line], session, project, raw_source, pricing);
            &&& e is Some ==> r.len() == 1 && r[0] == e->0
            &&& e is None ==> r.len() == 0
            &&& claude_events_of(Seq::empty(), session, project, raw_source, pricing).len() == 0
        }),
{
    assert(seq![line].drop_last() =~= Seq::<Seq<char>>::empty());
    assert(claude_events_of(Seq::empty(), session, project, raw_source, pricing) =~= Seq::empty());
}

/// What is watched for a pattern are its parts up to the first with a wildcard, one joined to
/// the other, and all of them where none has one.
pub proof fn law_tame_prefix(parts: Seq<Seq<char>>, k: int, n: int)
    requires
        0 <= k <= n <= parts.len(),
        forall|i: int|
            0 <= i < k ==> !(#[trigger] parts[i]).contains('*') && !parts[i].contains('?')
                && !parts[i].contains('['),
        k < n ==> parts[k].contains('*') || parts[k].contains('?') || parts[k].contains('['),
    ensures
        tame_prefix(parts, n).0 == tame_prefix(parts, k).0,
        tame_prefix(parts, k).1,
        k > 0 ==> tame_prefix(parts, k).0 == joined(tame_prefix(parts, k - 1).0, parts[k - 1]),
        tame_prefix(parts, 0).0.len() == 0,
    decreases k,
{
    lemma_tame(parts, k);
    if k < n {
        assert(is_wild(parts[k]));
        lemma_tame_stops(parts, k + 1, n);
    }
}

/// Parts without a wildcard leave a pattern open.
proof fn lemma_tame(parts: Seq<Seq<char>>, k: int)
    requires
        0 <= k <= parts.len(),
        forall|i: int|
            0 <= i < k ==> !(#[trigger] parts[i]).contains('*') && !parts[i].contains('?')
                && !parts[i].contains('['),
    ensures
        tame_prefix(parts, k).1,
        k > 0 ==> tame_prefix(parts, k).0 == joined(tame_prefix(parts, k - 1).0, parts[k - 1]),
    decreases k,
{
    if k > 0 {
        lemma_tame(parts, k - 1);
        assert(!is_wild(parts[k - 1]));
    }
}

/// The root of a pattern is that of the path it expands to, and each pattern has its own.
pub proof fn law_glob_roots(globs: Seq<Seq<char>>, home: Option<Seq<char>>, i: int)
    requires
        0 <= i < globs.len(),
    ensures
        ({
            let parts = components(expanded(globs[i], home));
            &&& glob_roots_of(globs, home).len() == globs.len()
            &&& glob_roots_of(globs, home)[i] == tame_prefix(parts, parts.len() as int).0
        }),
{
}

/// The contents of records are those of each, in order.
pub proof fn law_event_contents(v: Seq<Event>, i: int)
    ensures
        event_views(v).len() == v.len(),
        0 <= i < v.len() ==> event_views(v)[i] == v[i]@,
{
}

} // verus!
