//! File paths as texts, with `/` between their parts, and the per-user locations of the
//! configuration, the data and the cache.
//!
//! Every location is taken from its environment variable where that is set, else from the
//! standard directory of the system, else from the home directory.

use crate::text::{
    chars_of, lemma_pieces_concat, lemma_pieces_nonempty, lemma_text_order, opt_str, opt_text, pieces,
    split, str_eq, text_before, text_lt,
    text_of, texts,
};
use vstd::prelude::*;

verus! {

/// The directory of this program under a standard directory.
pub const APP: &'static str = "metoks";

/// Whether a path starts at the root.
pub open spec fn is_absolute(s: Seq<char>) -> bool {
    s.len() > 0 && s[0] == '/'
}

/// `base` followed by `rest`, with one separator put between them where `base` is not
/// empty and does not end with one. An absolute `rest` replaces `base`.
pub open spec fn joined(base: Seq<char>, rest: Seq<char>) -> Seq<char> {
    if is_absolute(rest) {
        rest
    } else if base.len() > 0 && base.last() != '/' {
        base.push('/') + rest
    } else {
        base + rest
    }
}

/// Joins two paths.
pub fn path_join(base: &str, rest: &str) -> (r: String)
    ensures
        r@ == joined(base@, rest@),
{
    let b = chars_of(base);
    let v = chars_of(rest);
    if v.len() > 0 && v[0] == '/' {
        return rest.to_owned();
    }
    let mut s = base.to_owned();
    if b.len() > 0 && b[b.len() - 1] != '/' {
        s.push('/');
    }
    s.append(rest);
    s
}

/// Whether the piece at position `i` of a path counts as a part of it: empty pieces do not,
/// nor does a dot, unless the path starts with it.
pub open spec fn counts(ps: Seq<Seq<char>>, i: int) -> bool {
    ps[i].len() > 0 && (ps[i] != "."@ || i == 0)
}

/// The parts among the first `n` pieces of a path.
pub open spec fn parts_of(ps: Seq<Seq<char>>, n: int) -> Seq<Seq<char>>
    decreases n,
{
    if n <= 0 {
        Seq::empty()
    } else if counts(ps, n - 1) {
        parts_of(ps, n - 1).push(ps[n - 1])
    } else {
        parts_of(ps, n - 1)
    }
}

/// The parts of a path: the root, written `/`, where it starts there, then its names.
pub open spec fn components(s: Seq<char>) -> Seq<Seq<char>> {
    let ps = pieces(s, '/');
    let names = parts_of(ps, ps.len() as int);
    if is_absolute(s) {
        seq!["/"@] + names
    } else {
        names
    }
}

/// The parts of a path.
pub fn path_components(s: &str) -> (r: Vec<String>)
    ensures
        texts(r@) == components(s@),
{
    let v = chars_of(s);
    let ps = split(&v, '/');
    let ghost pieces = pieces(s@, '/');
    let mut out: Vec<String> = Vec::new();
    if v.len() > 0 && v[0] == '/' {
        out.push("/".to_owned());
    }
    let ghost root = texts(out@);
    assert(root =~= if is_absolute(s@) {
        seq!["/"@]
    } else {
        Seq::empty()
    });
    assert(texts(out@) =~= root + parts_of(pieces, 0));
    for i in 0..ps.len()
        invariant
            ps@.len() == pieces.len(),
            forall|k: int| 0 <= k < ps@.len() ==> (#[trigger] ps@[k])@ == pieces[k],
            texts(out@) == root + parts_of(pieces, i as int),
    {
        let t = text_of(&ps[i], 0, ps[i].len());
        assert(t@ =~= pieces[i as int]);
        let ghost before = out@;
        if ps[i].len() > 0 && (i == 0 || !str_eq(t.as_str(), ".")) {
            out.push(t);
            assert(texts(out@) =~= texts(before).push(t@));
            assert(texts(out@) =~= root + parts_of(pieces, i + 1));
        }
    }
    assert(texts(out@) =~= components(s@));
    out
}

/// Whether a part of a path is a name, not the root, the directory itself or its parent.
pub open spec fn is_name(c: Seq<char>) -> bool {
    c != "/"@ && c != "."@ && c != ".."@
}

/// The name that a list of parts ends with, if it ends with one.
pub open spec fn name_of(parts: Seq<Seq<char>>) -> Option<Seq<char>> {
    if parts.len() > 0 && is_name(parts.last()) {
        Some(parts.last())
    } else {
        None
    }
}

/// The name of the file that a path leads to.
pub open spec fn file_name_of(path: Seq<char>) -> Option<Seq<char>> {
    name_of(components(path))
}

/// The name of the directory that the file of a path lies in.
pub open spec fn parent_name_of(path: Seq<char>) -> Option<Seq<char>> {
    let c = components(path);
    if c.len() > 0 && c.last() != "/"@ {
        name_of(c.drop_last())
    } else {
        None
    }
}

/// The position of the last dot of a name, if there is one.
pub open spec fn last_dot(name: Seq<char>) -> Option<int>
    decreases name.len(),
{
    if name.len() == 0 {
        None
    } else if name.last() == '.' {
        Some(name.len() - 1)
    } else {
        last_dot(name.drop_last())
    }
}

/// A name without its extension. A dot in front does not start an extension.
pub open spec fn stem(name: Seq<char>) -> Seq<char> {
    match last_dot(name) {
        Some(i) => if i == 0 {
            name
        } else {
            name.take(i)
        },
        None => name,
    }
}

/// What follows the last dot of a name. A dot in front does not start an extension.
pub open spec fn extension(name: Seq<char>) -> Option<Seq<char>> {
    match last_dot(name) {
        Some(i) => if i == 0 {
            None
        } else {
            Some(name.skip(i + 1))
        },
        None => None,
    }
}

/// The name of the file that a path leads to, without its extension.
pub open spec fn file_stem_of(path: Seq<char>) -> Option<Seq<char>> {
    match file_name_of(path) {
        Some(n) => Some(stem(n)),
        None => None,
    }
}

/// Whether a part of a path is a name.
fn named(c: &str) -> (r: bool)
    ensures
        r == is_name(c@),
{
    !str_eq(c, "/") && !str_eq(c, ".") && !str_eq(c, "..")
}

/// The name of the file that a path leads to.
pub fn file_name(path: &str) -> (r: Option<String>)
    ensures
        opt_text(r) == file_name_of(path@),
{
    let c = path_components(path);
    assert(texts(c@).len() == c@.len());
    if c.len() > 0 && named(c[c.len() - 1].as_str()) {
        Some(c[c.len() - 1].clone())
    } else {
        None
    }
}

/// The name of the directory that the file of a path lies in.
pub fn parent_name(path: &str) -> (r: Option<String>)
    ensures
        opt_text(r) == parent_name_of(path@),
{
    let c = path_components(path);
    assert(texts(c@).len() == c@.len());
    let n = c.len();
    if n < 2 || str_eq(c[n - 1].as_str(), "/") {
        return None;
    }
    assert(components(path@).drop_last().last() == c@[n - 2]@);
    if named(c[n - 2].as_str()) {
        Some(c[n - 2].clone())
    } else {
        None
    }
}

/// The position of the last dot of a name, if there is one.
fn dot_of(v: &Vec<char>) -> (r: Option<usize>)
    ensures
        match r {
            Some(i) => last_dot(v@) == Some(i as int) && i < v.len(),
            None => last_dot(v@) is None,
        },
{
    let mut n: usize = v.len();
    assert(v@.take(n as int) =~= v@);
    while n > 0
        invariant
            n <= v@.len(),
            last_dot(v@) == last_dot(v@.take(n as int)),
        decreases n,
    {
        if v[n - 1] == '.' {
            return Some(n - 1);
        }
        assert(v@.take(n as int).drop_last() =~= v@.take(n - 1));
        n = n - 1;
    }
    None
}

/// The name of the file that a path leads to, without its extension.
pub fn file_stem(path: &str) -> (r: Option<String>)
    ensures
        opt_text(r) == file_stem_of(path@),
{
    match file_name(path) {
        Some(n) => {
            let v = chars_of(n.as_str());
            match dot_of(&v) {
                Some(i) => if i == 0 {
                    Some(n)
                } else {
                    assert(v@.subrange(0, i as int) =~= v@.take(i as int));
                    Some(text_of(&v, 0, i))
                },
                None => Some(n),
            }
        },
        None => None,
    }
}

/// Whether the file of a path has the extension `ext`.
pub open spec fn has_ext(path: Seq<char>, ext: Seq<char>) -> bool {
    match file_name_of(path) {
        Some(n) => extension(n) == Some(ext),
        None => false,
    }
}

/// Whether the file of a path has the extension `ext`.
pub fn has_extension(path: &str, ext: &str) -> (r: bool)
    ensures
        r == has_ext(path@, ext@),
{
    match file_name(path) {
        Some(n) => {
            let v = chars_of(n.as_str());
            match dot_of(&v) {
                Some(i) => if i == 0 {
                    false
                } else {
                    assert(v@.subrange(i + 1, v@.len() as int) =~= v@.skip(i + 1));
                    let e = text_of(&v, i + 1, v.len());
                    str_eq(e.as_str(), ext)
                },
                None => false,
            }
        },
        None => false,
    }
}

/// Where a variable of the environment says that something is: an empty one says nothing.
pub open spec fn from_env(v: Option<Seq<char>>) -> Option<Seq<char>> {
    match v {
        Some(p) => if p.len() > 0 {
            Some(p)
        } else {
            None
        },
        None => None,
    }
}

/// The directory of this program: under the standard directory, else hidden in the home
/// directory, else hidden in the current one.
pub open spec fn app_dir_of(base: Option<Seq<char>>, home: Option<Seq<char>>) -> Seq<char> {
    match base {
        Some(d) => joined(d, APP@),
        None => joined(
            match home {
                Some(h) => h,
                None => "."@,
            },
            ".metoks"@,
        ),
    }
}

/// A directory of this program, unless the environment says otherwise.
pub open spec fn dir_of(
    env: Option<Seq<char>>,
    base: Option<Seq<char>>,
    home: Option<Seq<char>>,
) -> Seq<char> {
    match from_env(env) {
        Some(p) => p,
        None => app_dir_of(base, home),
    }
}

/// A file in a directory, unless the environment says otherwise.
pub open spec fn file_in(env: Option<Seq<char>>, dir: Seq<char>, name: Seq<char>) -> Seq<char> {
    match from_env(env) {
        Some(p) => p,
        None => joined(dir, name),
    }
}

/// Where a variable of the environment says that something is.
fn set_in_env(v: Option<&str>) -> (r: Option<String>)
    ensures
        opt_text(r) == from_env(opt_str(v)),
{
    match v {
        Some(p) => {
            if p.unicode_len() > 0 {
                Some(p.to_owned())
            } else {
                None
            }
        },
        None => None,
    }
}

/// The directory of this program under a standard directory.
pub fn app_dir(base: Option<&str>, home: Option<&str>) -> (r: String)
    ensures
        r@ == app_dir_of(opt_str(base), opt_str(home)),
{
    match base {
        Some(d) => path_join(d, APP),
        None => match home {
            Some(h) => path_join(h, ".metoks"),
            None => path_join(".", ".metoks"),
        },
    }
}

/// The configuration file, from `METOKS_CONFIG`, the standard configuration directory and
/// the home directory.
pub fn config_file(env: Option<&str>, base: Option<&str>, home: Option<&str>) -> (r: String)
    ensures
        r@ == file_in(
            opt_str(env),
            app_dir_of(opt_str(base), opt_str(home)),
            "config.yaml"@,
        ),
{
    match set_in_env(env) {
        Some(p) => p,
        None => {
            let dir = app_dir(base, home);
            path_join(dir.as_str(), "config.yaml")
        },
    }
}

/// The data directory, from `METOKS_DATA_DIR`, the standard data directory and the home
/// directory.
pub fn data_dir(env: Option<&str>, base: Option<&str>, home: Option<&str>) -> (r: String)
    ensures
        r@ == dir_of(opt_str(env), opt_str(base), opt_str(home)),
{
    match set_in_env(env) {
        Some(p) => p,
        None => app_dir(base, home),
    }
}

/// The database file, from `METOKS_DB` and the data directory.
pub fn db_file(env: Option<&str>, data_dir: &str) -> (r: String)
    ensures
        r@ == file_in(opt_str(env), data_dir@, "metoks.db"@),
{
    match set_in_env(env) {
        Some(p) => p,
        None => path_join(data_dir, "metoks.db"),
    }
}

/// The cache directory, from `METOKS_CACHE_DIR`, the standard cache directory and the home
/// directory.
pub fn cache_dir(env: Option<&str>, base: Option<&str>, home: Option<&str>) -> (r: String)
    ensures
        r@ == dir_of(opt_str(env), opt_str(base), opt_str(home)),
{
    match set_in_env(env) {
        Some(p) => p,
        None => app_dir(base, home),
    }
}

/// The cached price dataset in the cache directory.
pub fn pricing_cache(cache_dir: &str) -> (r: String)
    ensures
        r@ == joined(cache_dir@, "pricing.json"@),
{
    path_join(cache_dir, "pricing.json")
}

/// A variable of the environment that is set takes precedence over every standard place.
pub proof fn law_environment_wins(
    env: Option<Seq<char>>,
    base: Option<Seq<char>>,
    home: Option<Seq<char>>,
    dir: Seq<char>,
    name: Seq<char>,
)
    requires
        env matches Some(p) && p.len() > 0,
    ensures
        dir_of(env, base, home) == env->0,
        file_in(env, dir, name) == env->0,
{
}

// ---------------------------------------------------------------------------
// The order of paths
// ---------------------------------------------------------------------------

/// The place of a part among the kinds of parts: the root, the directory itself, its parent,
/// and names.
pub open spec fn part_rank(c: Seq<char>) -> int {
    if c == "/"@ {
        0
    } else if c == "."@ {
        1
    } else if c == ".."@ {
        2
    } else {
        3
    }
}

/// The order of parts: by kind, names as texts.
pub open spec fn part_lt(a: Seq<char>, b: Seq<char>) -> bool {
    part_rank(a) < part_rank(b) || (part_rank(a) == 3 && part_rank(b) == 3 && text_lt(a, b))
}

/// The order of paths, part by part.
pub open spec fn parts_lt(a: Seq<Seq<char>>, b: Seq<Seq<char>>) -> bool
    decreases a.len(),
{
    if b.len() == 0 {
        false
    } else if a.len() == 0 {
        true
    } else if a[0] != b[0] {
        part_lt(a[0], b[0])
    } else {
        parts_lt(a.drop_first(), b.drop_first())
    }
}

/// The order of parts is a strict total order.
proof fn lemma_part_order(a: Seq<char>, b: Seq<char>, c: Seq<char>)
    ensures
        !part_lt(a, a),
        part_lt(a, b) || part_lt(b, a) || a == b,
        part_lt(a, b) && part_lt(b, c) ==> part_lt(a, c),
        part_lt(a, b) ==> !part_lt(b, a),
{
    lemma_text_order(a, b, c);
    lemma_text_order(b, a, c);
}

/// No path is before itself.
proof fn lemma_parts_irreflexive(a: Seq<Seq<char>>)
    ensures
        !parts_lt(a, a),
    decreases a.len(),
{
    if a.len() > 0 {
        lemma_parts_irreflexive(a.drop_first());
    }
}

/// The order of paths is a strict total order.
proof fn lemma_parts_order(a: Seq<Seq<char>>, b: Seq<Seq<char>>, c: Seq<Seq<char>>)
    ensures
        !parts_lt(a, a),
        parts_lt(a, b) || parts_lt(b, a) || a == b,
        parts_lt(a, b) && parts_lt(b, c) ==> parts_lt(a, c),
    decreases a.len(),
{
    lemma_parts_irreflexive(a);
    if a.len() > 0 && b.len() > 0 {
        let (x, y) = (a.drop_first(), b.drop_first());
        let z = if c.len() > 0 {
            c.drop_first()
        } else {
            c
        };
        let w = if c.len() > 0 {
            c[0]
        } else {
            a[0]
        };
        lemma_parts_order(x, y, z);
        lemma_part_order(a[0], b[0], w);
        lemma_part_order(b[0], a[0], w);
        if a[0] == b[0] && x == y {
            assert(a =~= seq![a[0]] + x);
            assert(b =~= seq![b[0]] + y);
        }
    } else if a.len() == 0 && b.len() == 0 {
        assert(a =~= b);
    }
}

/// The place of a part among the kinds of parts.
fn rank_of(c: &str) -> (r: u8)
    ensures
        r == part_rank(c@),
{
    if str_eq(c, "/") {
        0
    } else if str_eq(c, ".") {
        1
    } else if str_eq(c, "..") {
        2
    } else {
        3
    }
}

/// Whether a path, by its parts, is before another.
fn parts_before(a: &Vec<String>, b: &Vec<String>) -> (r: bool)
    ensures
        r == parts_lt(texts(a@), texts(b@)),
{
    let ghost x = texts(a@);
    let ghost y = texts(b@);
    let mut i: usize = 0;
    assert(x.skip(0) =~= x);
    assert(y.skip(0) =~= y);
    while i < a.len() && i < b.len()
        invariant
            x == texts(a@),
            y == texts(b@),
            i <= x.len(),
            i <= y.len(),
            parts_lt(x, y) == parts_lt(x.skip(i as int), y.skip(i as int)),
        decreases a.len() - i,
    {
        let p = a[i].as_str();
        let q = b[i].as_str();
        assert(x[i as int] == p@ && y[i as int] == q@);
        if !str_eq(p, q) {
            let m: u8 = rank_of(p);
            let n: u8 = rank_of(q);
            return m < n || (m == 3 && n == 3 && text_before(p, q));
        }
        assert(x.skip(i as int).drop_first() =~= x.skip(i + 1));
        assert(y.skip(i as int).drop_first() =~= y.skip(i + 1));
        i = i + 1;
    }
    i < b.len()
}

/// Whether paths stand in strictly ascending order.
pub open spec fn rising_paths(s: Seq<Seq<char>>) -> bool {
    forall|i: int, j: int|
        0 <= i < j < s.len() ==> parts_lt(components(#[trigger] s[i]), components(#[trigger] s[j]))
}

/// Whether some path of `s` has the parts `c`.
pub open spec fn has_parts(s: Seq<Seq<char>>, c: Seq<Seq<char>>) -> bool {
    exists|i: int| 0 <= i < s.len() && components(#[trigger] s[i]) == c
}

/// Whether a path, by its parts, is before the path `other`.
fn before_path(parts: &Vec<String>, other: &str) -> (r: bool)
    ensures
        r == parts_lt(texts(parts@), components(other@)),
{
    let o = path_components(other);
    parts_before(parts, &o)
}

/// Whether the path `other` is before a path, by its parts.
fn after_path(parts: &Vec<String>, other: &str) -> (r: bool)
    ensures
        r == parts_lt(components(other@), texts(parts@)),
{
    let o = path_components(other);
    parts_before(&o, parts)
}

/// Sorts paths, each kept once: of those with the same parts, one.
pub fn sort_paths(v: &Vec<String>) -> (r: Vec<String>)
    ensures
        rising_paths(texts(r@)),
        forall|i: int| 0 <= i < r@.len() ==> texts(v@).contains(#[trigger] texts(r@)[i]),
        forall|i: int| 0 <= i < v@.len() ==> has_parts(texts(r@), components(#[trigger] texts(v@)[i])),
{
    let mut out: Vec<String> = Vec::new();
    for n in 0..v.len()
        invariant
            rising_paths(texts(out@)),
            forall|i: int| 0 <= i < out@.len() ==> texts(v@).contains(#[trigger] texts(out@)[i]),
            forall|i: int|
                0 <= i < n ==> has_parts(texts(out@), components(#[trigger] texts(v@)[i])),
    {
        let ghost before = texts(out@);
        let ghost x = v@[n as int]@;
        assert(texts(v@)[n as int] == x);
        let parts = path_components(v[n].as_str());
        let mut at: usize = out.len();
        while at > 0 && before_path(&parts, out[at - 1].as_str())
            invariant
                at <= out@.len(),
                before == texts(out@),
                texts(parts@) == components(x),
                forall|i: int|
                    at <= i < before.len() ==> parts_lt(components(x), components(#[trigger] before[i])),
            ensures
                at <= out@.len(),
                before == texts(out@),
                forall|i: int|
                    at <= i < before.len() ==> parts_lt(components(x), components(#[trigger] before[i])),
                at > 0 ==> !parts_lt(components(x), components(before[at - 1])),
            decreases at,
        {
            assert(before[at - 1] == out@[at - 1]@);
            at = at - 1;
        }
        assert(at > 0 ==> before[at - 1] == out@[at - 1]@);
        proof {
            if at > 0 {
                lemma_parts_order(components(x), components(before[at - 1]), components(x));
            }
        }
        if at == 0 || after_path(&parts, out[at - 1].as_str()) {
            out.insert(at, v[n].clone());
            proof {
                assert(texts(out@) =~= before.insert(at as int, x));
                lemma_insert_path(before, at as int, x);
                assert forall|i: int| 0 <= i < out@.len() implies texts(v@).contains(
                    #[trigger] texts(out@)[i],
                ) by {
                    if i < at {
                        assert(texts(out@)[i] == before[i]);
                    } else if i > at {
                        assert(texts(out@)[i] == before[i - 1]);
                    } else {
                        assert(texts(v@)[n as int] == x);
                    }
                }
                assert forall|i: int| 0 <= i < n + 1 implies has_parts(
                    texts(out@),
                    components(#[trigger] texts(v@)[i]),
                ) by {
                    if i < n {
                        assert(has_parts(before, components(texts(v@)[i])));
                    }
                }
            }
        } else {
            assert(components(before[at - 1]) == components(x));
            assert(has_parts(texts(out@), components(x)));
        }
    }
    out
}

/// A path put in its place keeps the order.
proof fn lemma_insert_path(before: Seq<Seq<char>>, k: int, x: Seq<char>)
    requires
        rising_paths(before),
        0 <= k <= before.len(),
        forall|i: int|
            k <= i < before.len() ==> parts_lt(components(x), components(#[trigger] before[i])),
        k > 0 ==> parts_lt(components(before[k - 1]), components(x)),
    ensures
        rising_paths(before.insert(k, x)),
        has_parts(before.insert(k, x), components(x)),
        forall|c: Seq<Seq<char>>| has_parts(before, c) ==> has_parts(before.insert(k, x), c),
{
    let after = before.insert(k, x);
    assert forall|i: int, j: int| 0 <= i < j < after.len() implies parts_lt(
        components(#[trigger] after[i]),
        components(#[trigger] after[j]),
    ) by {
        let a = if i < k {
            i
        } else {
            i - 1
        };
        let b = if j < k {
            j
        } else {
            j - 1
        };
        if i == k {
            assert(after[j] == before[b]);
        } else if j == k {
            assert(after[i] == before[a]);
            if a < k - 1 {
                assert(parts_lt(components(before[a]), components(before[k - 1])));
                lemma_parts_order(components(before[a]), components(before[k - 1]), components(x));
            }
        } else {
            assert(after[i] == before[a] && after[j] == before[b]);
        }
    }
    assert(after[k] == x);
    assert forall|c: Seq<Seq<char>>| has_parts(before, c) implies has_parts(after, c) by {
        let i = choose|i: int| 0 <= i < before.len() && components(#[trigger] before[i]) == c;
        if i < k {
            assert(after[i] == before[i]);
        } else {
            assert(after[i + 1] == before[i]);
        }
    }
}

// ---------------------------------------------------------------------------
// What paths are made of
// ---------------------------------------------------------------------------

/// An absolute path replaces what it is joined to; any other follows it, with one separator
/// between them.
pub proof fn law_joined(base: Seq<char>, rest: Seq<char>)
    ensures
        rest.len() > 0 && rest[0] == '/' ==> joined(base, rest) == rest,
        rest.len() == 0 || rest[0] != '/' ==> {
            &&& base.len() == 0 ==> joined(base, rest) == rest
            &&& base.len() > 0 && base.last() == '/' ==> joined(base, rest) == base + rest
            &&& base.len() > 0 && base.last() != '/' ==> joined(base, rest) == base + seq!['/'] + rest
        },
{
    assert(base.len() == 0 ==> base + rest =~= rest);
    assert(base.push('/') + rest =~= base + seq!['/'] + rest);
}

/// A text without the separator is its own only piece.
proof fn lemma_one_piece(s: Seq<char>, sep: char)
    requires
        !s.contains(sep),
    ensures
        pieces(s, sep) == seq![s],
    decreases s.len(),
{
    if s.len() > 0 {
        let t = s.drop_last();
        if t.contains(sep) {
            let i = choose|i: int| 0 <= i < t.len() && t[i] == sep;
            assert(s[i] == sep);
        }
        lemma_one_piece(t, sep);
        assert(s[s.len() - 1] != sep);
        assert(t.push(s.last()) =~= s);
        assert(pieces(s, sep) =~= seq![s]);
    } else {
        assert(s =~= Seq::empty());
    }
}

/// Pieces that follow do not change the parts before them.
proof fn lemma_parts_prefix(ps: Seq<Seq<char>>, x: Seq<char>, n: int)
    requires
        0 <= n <= ps.len(),
    ensures
        parts_of(ps.push(x), n) == parts_of(ps, n),
    decreases n,
{
    if n > 0 {
        lemma_parts_prefix(ps, x, n - 1);
        assert(ps.push(x)[n - 1] == ps[n - 1]);
    }
}

/// The parts of a name in a directory are those of the directory and the name.
proof fn lemma_parts_in(dir: Seq<char>, name: Seq<char>)
    requires
        dir.len() > 0,
        name.len() > 0,
        !name.contains('/'),
        name != "."@,
    ensures
        components(dir + seq!['/'] + name) == components(dir).push(name),
{
    let d = dir.push('/');
    let path = dir + seq!['/'] + name;
    assert(path =~= d + name);
    lemma_pieces_concat(d, name, '/');
    lemma_one_piece(name, '/');
    assert(d.drop_last() =~= dir);
    let ps = pieces(dir, '/');
    lemma_pieces_nonempty(dir, '/');
    assert(pieces(d, '/') == ps.push(Seq::empty()));
    assert(pieces(d, '/').drop_last() =~= ps);
    assert(pieces(path, '/') =~= ps.push(name));
    lemma_parts_prefix(ps, name, ps.len() as int);
    assert(path[0] == dir[0]);
    assert(components(path) =~= components(dir).push(name));
}

/// A file is called by the last part of its path, and its directory by the one before: whatever
/// stands in front of them does not matter.
pub proof fn law_file_and_directory(above: Seq<char>, dir: Seq<char>, name: Seq<char>)
    requires
        dir.len() > 0 && !dir.contains('/') && dir != "."@ && dir != ".."@,
        name.len() > 0 && !name.contains('/') && name != "."@ && name != ".."@,
        above.len() > 0,
    ensures
        file_name_of(above + seq!['/'] + name) == Some(name),
        parent_name_of(above + seq!['/'] + dir + seq!['/'] + name) == Some(dir),
        file_name_of(above + seq!['/'] + dir + seq!['/'] + name) == Some(name),
{
    reveal_strlit("/");
    assert("/"@ =~= seq!['/']);
    assert("/"@.contains('/')) by {
        assert("/"@[0] == '/');
    }
    lemma_parts_in(above, name);
    lemma_parts_in(above, dir);
    let d = above + seq!['/'] + dir;
    lemma_parts_in(d, name);
    let c = components(d + seq!['/'] + name);
    assert(c.drop_last() =~= components(d));
    assert(c.last() == name);
}

/// The last dot of a name that has one behind which there is none.
proof fn lemma_last_dot(name: Seq<char>, i: int)
    requires
        0 <= i < name.len(),
        name[i] == '.',
        forall|k: int| i < k < name.len() ==> #[trigger] name[k] != '.',
    ensures
        last_dot(name) == Some(i),
    decreases name.len(),
{
    if i < name.len() - 1 {
        assert(name[name.len() - 1] != '.');
        assert forall|k: int| i < k < name.drop_last().len() implies #[trigger] name.drop_last()[k]
            != '.' by {
            assert(name.drop_last()[k] == name[k]);
        }
        lemma_last_dot(name.drop_last(), i);
    }
}

/// A name without a dot has none.
proof fn lemma_no_dot(name: Seq<char>)
    requires
        !name.contains('.'),
    ensures
        last_dot(name) is None,
    decreases name.len(),
{
    if name.len() > 0 {
        assert(name.contains(name[name.len() - 1]));
        if name.drop_last().contains('.') {
            let k = choose|k: int| 0 <= k < name.drop_last().len() && name.drop_last()[k] == '.';
            assert(name[k] == '.');
        }
        lemma_no_dot(name.drop_last());
    }
}

/// A name is parted at its last dot, unless that is in front: what stands before it is the stem,
/// what follows it the extension.
pub proof fn law_stem_and_extension(name: Seq<char>, before: Seq<char>, after: Seq<char>)
    requires
        !after.contains('.'),
    ensures
        before.len() > 0 && name == before + seq!['.'] + after ==> stem(name) == before && extension(
            name,
        ) == Some(after),
        name == seq!['.'] + after ==> stem(name) == name && extension(name) is None,
        !name.contains('.') ==> stem(name) == name && extension(name) is None,
{
    if name == before + seq!['.'] + after || name == seq!['.'] + after {
        let i = name.len() - after.len() - 1;
        assert forall|k: int| i < k < name.len() implies #[trigger] name[k] != '.' by {
            assert(name[k] == after[k - i - 1]);
            assert(after.contains(after[k - i - 1]));
        }
        lemma_last_dot(name, i);
        if name == before + seq!['.'] + after {
            assert(name.take(i) =~= before);
            assert(name.skip(i + 1) =~= after);
        }
    }
    if !name.contains('.') {
        lemma_no_dot(name);
    }
}

/// The stem and the extension of a path are those of the name of its file.
pub proof fn law_path_stem(path: Seq<char>, ext: Seq<char>)
    ensures
        file_name_of(path) matches Some(n) ==> file_stem_of(path) == Some(stem(n)) && (has_ext(path, ext)
            <==> extension(n) == Some(ext)),
        file_name_of(path) is None ==> file_stem_of(path) is None && !has_ext(path, ext),
{
}

/// What the environment does not say is in the program's own directory: under the standard
/// directory where there is one, else hidden in the home directory, else here. An empty
/// variable says nothing.
pub proof fn law_standard_places(
    base: Seq<char>,
    home: Seq<char>,
    dir: Seq<char>,
    name: Seq<char>,
    env: Option<Seq<char>>,
    h: Option<Seq<char>>,
)
    requires
        env matches Some(p) ==> p.len() == 0,
    ensures
        dir_of(env, Some(base), h) == joined(base, "metoks"@),
        dir_of(env, None, Some(home)) == joined(home, ".metoks"@),
        dir_of(env, None, None) == joined("."@, ".metoks"@),
        app_dir_of(Some(base), h) == joined(base, "metoks"@),
        app_dir_of(None, Some(home)) == joined(home, ".metoks"@),
        file_in(env, dir, name) == joined(dir, name),
{
}

/// Paths are ordered by the first part in which they differ, a path before all that lie under
/// it: names as texts, behind the root, the directory itself and its parent.
pub proof fn law_path_order(common: Seq<Seq<char>>, a: Seq<Seq<char>>, b: Seq<Seq<char>>)
    ensures
        b.len() > 0 ==> parts_lt(common, common + b),
        !parts_lt(common + a, common),
        a.len() > 0 && b.len() > 0 && a[0] != b[0] && is_name(a[0]) && is_name(b[0]) ==> (parts_lt(
            common + a,
            common + b,
        ) <==> text_lt(a[0], b[0])),
        a.len() > 0 && b.len() > 0 && !is_name(a[0]) && is_name(b[0]) ==> parts_lt(
            common + a,
            common + b,
        ),
    decreases common.len(),
{
    if common.len() > 0 {
        law_path_order(common.drop_first(), a, b);
        assert((common + a).drop_first() =~= common.drop_first() + a);
        assert((common + b).drop_first() =~= common.drop_first() + b);
    } else {
        assert(common + a =~= a);
        assert(common + b =~= b);
    }
}

/// A slash at the end, and a dot behind one, add nothing to a path; two dots name no file. A
/// path from the root starts with it.
pub proof fn law_empty_parts(dir: Seq<char>)
    requires
        dir.len() > 0,
    ensures
        components(dir + seq!['/']) == components(dir),
        components(dir + seq!['/', '.']) == components(dir),
        file_name_of(dir + seq!['/', '.', '.']) is None,
        dir[0] == '/' ==> components(dir).len() > 0 && components(dir)[0] == "/"@,
        file_name_of(seq!['/']) is None,
        file_name_of(Seq::empty()) is None,
{
    let ps = pieces(dir, '/');
    lemma_pieces_nonempty(dir, '/');
    let d = dir.push('/');
    assert(dir + seq!['/'] =~= d);
    assert(d.drop_last() =~= dir);
    let none = Seq::<char>::empty();
    assert(pieces(d, '/') == ps.push(none));
    lemma_parts_prefix(ps, none, ps.len() as int);
    assert(d[0] == dir[0]);
    assert(components(d) =~= components(dir));
    reveal_strlit(".");
    reveal_strlit("..");
    let dot = seq!['.'];
    assert("."@ =~= dot);
    assert(dir + seq!['/', '.'] =~= d + dot);
    lemma_pieces_concat(d, dot, '/');
    lemma_one_piece(dot, '/');
    assert(pieces(d, '/').drop_last() =~= ps);
    assert(pieces(d + dot, '/') =~= ps.push(dot));
    lemma_parts_prefix(ps, dot, ps.len() as int);
    assert((d + dot)[0] == dir[0]);
    assert(components(d + dot) =~= components(dir));
    let up = seq!['.', '.'];
    assert(".."@ =~= up);
    assert(up != dot) by {
        assert(up.len() == 2);
    }
    assert(dir + seq!['/', '.', '.'] =~= dir + seq!['/'] + up);
    lemma_parts_in(dir, up);
    let root = seq!['/'];
    assert(pieces(none, '/') == seq![none]);
    assert(root.drop_last() =~= none);
    assert(pieces(root, '/') =~= seq![none, none]);
    reveal_with_fuel(parts_of, 3);
    assert(components(root) =~= seq!["/"@]);
    assert(components(none) =~= Seq::empty());
}

/// Sorted paths stand in order, no two of them lead to the same place, and a path is among them
/// where one of them has its parts.
pub proof fn law_sorted_paths(s: Seq<Seq<char>>, i: int, j: int, c: Seq<Seq<char>>)
    requires
        rising_paths(s),
        0 <= i < j < s.len(),
    ensures
        parts_lt(components(s[i]), components(s[j])),
        components(s[i]) != components(s[j]),
        has_parts(s, components(s[i])),
        has_parts(s, c) <==> exists|k: int| 0 <= k < s.len() && components(#[trigger] s[k]) == c,
{
    assert(parts_lt(components(s[i]), components(s[j])));
    let a = components(s[i]);
    if a == components(s[j]) {
        law_path_order(a, Seq::empty(), Seq::empty());
        assert(a + Seq::<Seq<char>>::empty() =~= a);
    }
}

/// A part counts unless it is empty or a single dot behind the first part.
pub proof fn law_parts_that_count(ps: Seq<Seq<char>>, n: int)
    requires
        0 < n <= ps.len(),
    ensures
        ps[n - 1].len() == 0 ==> parts_of(ps, n) == parts_of(ps, n - 1),
        ps[n - 1] == seq!['.'] && n > 1 ==> parts_of(ps, n) == parts_of(ps, n - 1),
        ps[n - 1].len() > 0 && (ps[n - 1] != seq!['.'] || n == 1) ==> parts_of(ps, n) == parts_of(
            ps,
            n - 1,
        ).push(ps[n - 1]),
        parts_of(ps, 0) == Seq::<Seq<char>>::empty(),
{
    reveal_strlit(".");
    assert("."@ =~= seq!['.']);
}

} // verus!
