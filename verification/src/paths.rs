//! Unix paths as text: names, parents, extensions.

use vstd::prelude::*;

use crate::text::chars_of;

verus! {

// ---------------------------------------------------------------------------
// The parts of a path
// ---------------------------------------------------------------------------

/// `p` without the separators and `.` components at its end.
pub open spec fn tidy(p: Seq<char>) -> Seq<char>
    decreases p.len(),
{
    if p.len() > 0 && (p.last() == '/' || (p.last() == '.' && p.len() >= 2 && p[p.len() - 2]
        == '/')) {
        tidy(p.drop_last())
    } else {
        p
    }
}

/// How many characters of `q` reach up to and including the last `c`.
pub open spec fn past_last(q: Seq<char>, c: char) -> nat
    decreases q.len(),
{
    if q.len() == 0 || q.last() == c {
        q.len()
    } else {
        past_last(q.drop_last(), c)
    }
}

/// The last component of a path, whatever it is.
pub open spec fn last_component(p: Seq<char>) -> Seq<char> {
    tidy(p).skip(past_last(tidy(p), '/') as int)
}

/// The name of the file or directory that a path leads to: its last component,
/// unless that is `.` or `..` or there is none.
pub open spec fn name_of(p: Seq<char>) -> Option<Seq<char>> {
    let n = last_component(p);
    if n.len() == 0 || n == seq!['.'] || n == seq!['.', '.'] {
        None
    } else {
        Some(n)
    }
}

/// The path without its last component; `None` for a root or an empty path.
pub open spec fn parent_of(p: Seq<char>) -> Option<Seq<char>> {
    let q = tidy(p);
    let cut = past_last(q, '/');
    if q.len() == 0 {
        None
    } else if cut == 0 {
        Some(Seq::empty())
    } else {
        let rest = tidy(q.take(cut as int));
        Some(
            if rest.len() == 0 {
                seq!['/']
            } else {
                rest
            },
        )
    }
}

/// How much of a name is its stem: what stands before its last dot, or all of
/// it where that dot is missing or comes first.
pub open spec fn stem_len(name: Seq<char>) -> nat {
    let cut = past_last(name, '.');
    if cut <= 1 {
        name.len()
    } else {
        (cut - 1) as nat
    }
}

/// What stands behind the last dot of a path's name.
pub open spec fn extension_of(p: Seq<char>) -> Option<Seq<char>> {
    match name_of(p) {
        None => None,
        Some(n) => if stem_len(n) == n.len() {
            None
        } else {
            Some(n.skip(stem_len(n) as int + 1))
        },
    }
}

/// The path with the extension of its name replaced, or added where it has
/// none; an empty extension takes it off.
pub open spec fn extension_set(p: Seq<char>, ext: Seq<char>) -> Seq<char> {
    match name_of(p) {
        None => p,
        Some(n) => {
            let q = tidy(p);
            let stem = q.take((past_last(q, '/') + stem_len(n)) as int);
            if ext.len() == 0 {
                stem
            } else {
                stem + "."@ + ext
            }
        },
    }
}

/// `name` inside the directory `dir`.
pub open spec fn inside(dir: Seq<char>, name: Seq<char>) -> Seq<char> {
    if dir.len() == 0 || (name.len() > 0 && name[0] == '/') {
        name
    } else if dir.last() == '/' {
        dir + name
    } else {
        dir + "/"@ + name
    }
}

// ---------------------------------------------------------------------------
// Reading the parts
// ---------------------------------------------------------------------------

/// How long the tidy part of a path is.
fn tidy_len(chars: &[char], upto: usize) -> (n: usize)
    requires
        upto <= chars@.len(),
    ensures
        n <= upto,
        tidy(chars@.take(upto as int)) == chars@.take(n as int),
{
    let mut n: usize = upto;
    while n > 0 && (chars[n - 1] == '/' || (chars[n - 1] == '.' && n >= 2 && chars[n - 2] == '/'))
        invariant
            n <= upto <= chars@.len(),
            tidy(chars@.take(upto as int)) == tidy(chars@.take(n as int)),
        decreases n,
    {
        assert(chars@.take(n as int).drop_last() == chars@.take(n - 1));
        n -= 1;
    }
    n
}

/// How many of the characters in `chars[from..to]` reach up to and including
/// the last `c`.
fn find_last(chars: &[char], from: usize, to: usize, c: char) -> (n: usize)
    requires
        from <= to <= chars@.len(),
    ensures
        n <= to - from,
        n == past_last(chars@.subrange(from as int, to as int), c),
{
    let mut n: usize = to;
    while n > from && chars[n - 1] != c
        invariant
            from <= n <= to <= chars@.len(),
            past_last(chars@.subrange(from as int, to as int), c) == past_last(
                chars@.subrange(from as int, n as int),
                c,
            ),
        decreases n,
    {
        assert(chars@.subrange(from as int, n as int).drop_last() == chars@.subrange(
            from as int,
            n - 1,
        ));
        n -= 1;
    }
    n - from
}

/// The string made of `chars[from..to]`.
fn piece(chars: &[char], from: usize, to: usize) -> (s: String)
    requires
        from <= to <= chars@.len(),
    ensures
        s@ == chars@.subrange(from as int, to as int),
{
    let mut s = String::new();
    let mut i: usize = from;
    while i < to
        invariant
            from <= i <= to <= chars@.len(),
            s@ == chars@.subrange(from as int, i as int),
        decreases to - i,
    {
        s.push(chars[i]);
        i += 1;
    }
    s
}

/// Where a path's name lies in its text, and where its stem ends.
struct NameSpan {
    start: usize,
    stem_end: usize,
    end: usize,
}

fn name_span(chars: &[char]) -> (r: Option<NameSpan>)
    ensures
        r is Some <==> name_of(chars@) is Some,
        r matches Some(s) ==> {
            &&& s.start <= s.stem_end <= s.end <= chars@.len()
            &&& tidy(chars@) == chars@.take(s.end as int)
            &&& s.start == past_last(tidy(chars@), '/')
            &&& name_of(chars@) == Some(chars@.subrange(s.start as int, s.end as int))
            &&& s.stem_end - s.start == stem_len(chars@.subrange(s.start as int, s.end as int))
        },
{
    let end: usize = tidy_len(chars, chars.len());
    assert(chars@.take(chars@.len() as int) == chars@);
    let ghost q = tidy(chars@);
    assert(chars@.subrange(0, end as int) == q);
    let start: usize = find_last(chars, 0, end, '/');
    let ghost n = chars@.subrange(start as int, end as int);
    assert(last_component(chars@) == n);
    let len: usize = end - start;
    if len == 0 {
        return None;
    }
    if len == 1 && chars[start] == '.' {
        assert(n =~= seq!['.']);
        return None;
    }
    if len == 2 && chars[start] == '.' && chars[start + 1] == '.' {
        assert(n =~= seq!['.', '.']);
        return None;
    }
    proof {
        if n == seq!['.'] {
            assert(n[0] == '.');
        }
        if n == seq!['.', '.'] {
            assert(n[0] == '.' && n[1] == '.');
        }
    }
    let cut: usize = find_last(chars, start, end, '.');
    let stem: usize = if cut <= 1 {
        len
    } else {
        cut - 1
    };
    Some(NameSpan { start, stem_end: start + stem, end })
}

/// The name of the file or directory that a path leads to.
pub fn file_name(p: &str) -> (r: Option<String>)
    ensures
        r is Some <==> name_of(p@) is Some,
        r matches Some(n) ==> name_of(p@) == Some(n@),
{
    let chars = chars_of(p);
    match name_span(chars.as_slice()) {
        Some(s) => Some(piece(chars.as_slice(), s.start, s.end)),
        None => None,
    }
}

/// What stands behind the last dot of a path's name.
pub fn extension(p: &str) -> (r: Option<String>)
    ensures
        r is Some <==> extension_of(p@) is Some,
        r matches Some(e) ==> extension_of(p@) == Some(e@),
{
    let chars = chars_of(p);
    match name_span(chars.as_slice()) {
        Some(s) => {
            if s.stem_end == s.end {
                return None;
            }
            let ghost n = p@.subrange(s.start as int, s.end as int);
            assert(n.skip(stem_len(n) as int + 1) == p@.subrange(s.stem_end + 1, s.end as int));
            Some(piece(chars.as_slice(), s.stem_end + 1, s.end))
        },
        None => None,
    }
}

/// The path without its last component; `None` for a root or an empty path.
pub fn parent(p: &str) -> (r: Option<String>)
    ensures
        r is Some <==> parent_of(p@) is Some,
        r matches Some(d) ==> parent_of(p@) == Some(d@),
{
    let chars = chars_of(p);
    let end: usize = tidy_len(chars.as_slice(), chars.len());
    assert(chars@.take(chars@.len() as int) == chars@);
    if end == 0 {
        return None;
    }
    assert(chars@.subrange(0, end as int) == tidy(p@));
    let cut: usize = find_last(chars.as_slice(), 0, end, '/');
    if cut == 0 {
        return Some(String::new());
    }
    assert(tidy(p@).take(cut as int) == chars@.take(cut as int));
    let n: usize = tidy_len(chars.as_slice(), cut);
    if n == 0 {
        let mut root = String::new();
        root.push('/');
        assert(root@ =~= seq!['/']);
        return Some(root);
    }
    assert(chars@.take(n as int) == chars@.subrange(0, n as int));
    Some(piece(chars.as_slice(), 0, n))
}

/// Replace the extension, preserving the rest of the name.
///
/// IODD filenames routinely contain dots and mode tags (`&D`, `&DW`), so only
/// what stands behind the last dot is replaced.
pub fn with_extension(p: &str, ext: &str) -> (r: String)
    ensures
        r@ == extension_set(p@, ext@),
{
    let chars = chars_of(p);
    match name_span(chars.as_slice()) {
        Some(s) => {
            let mut r = piece(chars.as_slice(), 0, s.stem_end);
            assert(r@ == tidy(p@).take(s.stem_end as int));
            if !ext.is_empty() {
                r.append(".");
                r.append(ext);
            }
            r
        },
        None => p.to_owned(),
    }
}

/// `name` inside the directory `dir`.
pub fn join(dir: &str, name: &str) -> (r: String)
    ensures
        r@ == inside(dir@, name@),
{
    let d = chars_of(dir);
    let n = chars_of(name);
    if d.len() == 0 || (n.len() > 0 && n[0] == '/') {
        return name.to_owned();
    }
    let mut r = dir.to_owned();
    if d[d.len() - 1] != '/' {
        r.append("/");
    }
    r.append(name);
    r
}

// ---------------------------------------------------------------------------
// Laws
// ---------------------------------------------------------------------------

proof fn lemma_past_last(q: Seq<char>, c: char)
    ensures
        past_last(q, c) <= q.len(),
        past_last(q, c) > 0 ==> q[past_last(q, c) - 1] == c,
        forall|i: int| past_last(q, c) <= i < q.len() ==> q[i] != c,
    decreases q.len(),
{
    if q.len() > 0 && q.last() != c {
        lemma_past_last(q.drop_last(), c);
        assert forall|i: int| past_last(q, c) <= i < q.len() implies q[i] != c by {
            if i < q.len() - 1 {
                assert(q.drop_last()[i] == q[i]);
            }
        }
    }
}

/// Where the last `c` of `q` is, shown by pointing at it.
pub proof fn lemma_past_last_is(q: Seq<char>, c: char, n: int)
    requires
        0 <= n <= q.len(),
        n > 0 ==> q[n - 1] == c,
        forall|i: int| n <= i < q.len() ==> q[i] != c,
    ensures
        past_last(q, c) == n,
    decreases q.len(),
{
    if n < q.len() {
        lemma_past_last_is(q.drop_last(), c, n);
    }
}

/// Whether `e` can stand behind the last dot of a name.
pub open spec fn plain_extension(e: Seq<char>) -> bool {
    e.len() > 0 && forall|i: int| 0 <= i < e.len() ==> #[trigger] e[i] != '/' && e[i] != '.'
}

/// The shape of a path whose extension has been set.
proof fn lemma_extension_set(p: Seq<char>, e: Seq<char>)
    requires
        name_of(p) is Some,
        plain_extension(e),
    ensures
        ({
            let q = tidy(p);
            let s = past_last(q, '/') as int;
            let st = stem_len(name_of(p)->0) as int;
            let r = extension_set(p, e);
            &&& 0 < st <= name_of(p)->0.len()
            &&& s + name_of(p)->0.len() == q.len()
            &&& r == q.take(s + st) + "."@ + e
            &&& tidy(r) == r
            &&& past_last(r, '/') == s
            &&& name_of(r) == Some(name_of(p)->0.take(st) + "."@ + e)
            &&& stem_len(name_of(r)->0) == st
        }),
{
    reveal_strlit(".");
    let q = tidy(p);
    let s = past_last(q, '/') as int;
    let n = name_of(p)->0;
    let st = stem_len(n) as int;
    let r = extension_set(p, e);
    lemma_past_last(q, '/');
    lemma_past_last(n, '.');
    assert(n == q.skip(s));
    assert(r.last() == e[e.len() - 1]);
    assert(tidy(r) == r);
    assert forall|i: int| s <= i < r.len() implies r[i] != '/' by {
        if i < s + st {
            assert(r[i] == q[i]);
        } else if i > s + st {
            assert(r[i] == e[i - s - st - 1]);
        }
    }
    if s > 0 {
        assert(r[s - 1] == q[s - 1]);
    }
    lemma_past_last_is(r, '/', s);
    let m = n.take(st) + "."@ + e;
    assert(r.skip(s) =~= m);
    assert(m.len() >= 3);
    assert forall|i: int| st + 1 <= i < m.len() implies m[i] != '.' by {
        assert(m[i] == e[i - st - 1]);
    }
    assert(m[st] == '.');
    lemma_past_last_is(m, '.', st + 1);
}

/// The extension that was set is the one that is read back, and the file stays
/// in its directory.
pub proof fn law_extension_reads_back(p: Seq<char>, e: Seq<char>)
    requires
        name_of(p) is Some,
        plain_extension(e),
    ensures
        extension_of(extension_set(p, e)) == Some(e),
        parent_of(extension_set(p, e)) == parent_of(p),
{
    reveal_strlit(".");
    lemma_extension_set(p, e);
    let q = tidy(p);
    let r = extension_set(p, e);
    let m = name_of(r)->0;
    let st = stem_len(m) as int;
    assert(m.skip(st + 1) =~= e);
    let s = past_last(q, '/') as int;
    assert(r.take(s) =~= q.take(s));
}

/// Setting another extension and then the first one again gives back the path:
/// dots in the stem and mode tags survive.
pub proof fn law_extension_swap_round_trip(p: Seq<char>, e: Seq<char>)
    requires
        tidy(p) == p,
        extension_of(p) is Some,
        extension_of(p)->0.len() > 0,
        plain_extension(e),
    ensures
        extension_set(extension_set(p, e), extension_of(p)->0) == p,
{
    reveal_strlit(".");
    lemma_extension_set(p, e);
    let n = name_of(p)->0;
    let st = stem_len(n) as int;
    let first = extension_of(p)->0;
    let r = extension_set(p, e);
    let s = past_last(p, '/') as int;
    lemma_past_last(p, '/');
    lemma_past_last(n, '.');
    assert(n == p.skip(s));
    assert(n[st] == '.');
    assert(r.take(s + st) =~= p.take(s + st));
    assert(p.take(s + st) + "."@ + first =~= p) by {
        assert forall|i: int| s + st <= i < p.len() implies p[i] == (p.take(s + st) + "."@
            + first)[i] by {
            assert(p[i] == n[i - s]);
            if i > s + st {
                assert(first[i - s - st - 1] == n[i - s]);
            }
        }
    }
}

/// A path that does not end in a separator takes any plain extension behind it.
pub proof fn law_appended_extension_reads_back(p: Seq<char>, e: Seq<char>)
    requires
        p.len() > 0,
        p.last() != '/',
        plain_extension(e),
    ensures
        extension_of(p + "."@ + e) == Some(e),
{
    reveal_strlit(".");
    let r = p + "."@ + e;
    let s = past_last(p, '/') as int;
    let n = p.skip(s);
    lemma_past_last(p, '/');
    assert(r.last() == e[e.len() - 1]);
    assert(tidy(r) == r);
    assert forall|i: int| s <= i < r.len() implies r[i] != '/' by {
        if i < p.len() {
            assert(r[i] == p[i]);
        } else if i > p.len() {
            assert(r[i] == e[i - p.len() - 1]);
        }
    }
    if s > 0 {
        assert(r[s - 1] == p[s - 1]);
    }
    lemma_past_last_is(r, '/', s);
    let m = r.skip(s);
    let st = n.len() as int;
    assert(m.len() >= 3);
    assert forall|i: int| st + 1 <= i < m.len() implies m[i] != '.' by {
        assert(m[i] == e[i - st - 1]);
    }
    assert(m[st] == '.');
    lemma_past_last_is(m, '.', st + 1);
    assert(m.skip(st + 1) =~= e);
}

/// Whether `name` names something inside a directory.
pub open spec fn plain_name(name: Seq<char>) -> bool {
    name.len() > 0 && name != seq!['.'] && name != seq!['.', '.'] && forall|i: int|
        0 <= i < name.len() ==> #[trigger] name[i] != '/'
}

proof fn lemma_tidy(p: Seq<char>)
    ensures
        tidy(tidy(p)) == tidy(p),
        tidy(p).len() > 0 ==> tidy(p).last() != '/',
    decreases p.len(),
{
    if p.len() > 0 && (p.last() == '/' || (p.last() == '.' && p.len() >= 2 && p[p.len() - 2]
        == '/')) {
        lemma_tidy(p.drop_last());
    }
}

/// The shape of a path to something inside a directory.
pub proof fn lemma_inside(dir: Seq<char>, name: Seq<char>)
    requires
        plain_name(name),
    ensures
        ({
            let r = inside(dir, name);
            let s = r.len() - name.len();
            &&& s >= 0
            &&& r.skip(s) == name
            &&& tidy(r) == r
            &&& past_last(r, '/') == s
            &&& dir.len() > 0 ==> r[s - 1] == '/'
        }),
{
    reveal_strlit("/");
    let r = inside(dir, name);
    let s = r.len() - name.len();
    assert(name[0] != '/');
    assert(r.skip(s) =~= name);
    if dir.len() > 0 {
        assert(r[s - 1] == '/');
    }
    assert forall|i: int| s <= i < r.len() implies r[i] != '/' by {
        assert(r[i] == name[i - s]);
    }
    assert(tidy(r) == r) by {
        assert(r.last() == name[name.len() - 1]);
        if r.last() == '.' && r.len() >= 2 && r[r.len() - 2] == '/' {
            if name.len() == 1 {
                assert(name =~= seq!['.']);
            } else {
                assert(r[r.len() - 2] == name[name.len() - 2]);
            }
        }
    }
    lemma_past_last_is(r, '/', s);
}

/// A file inside a directory has the name it was given, and the directory as
/// its parent, without anything superfluous behind it.
#[verifier::spinoff_prover]
#[verifier::rlimit(40)]
pub proof fn law_names_read_back(dir: Seq<char>, name: Seq<char>)
    requires
        plain_name(name),
    ensures
        name_of(inside(dir, name)) == Some(name),
        parent_of(inside(dir, name)) == Some(
            if dir.len() > 0 && tidy(dir).len() == 0 {
                seq!['/']
            } else {
                tidy(dir)
            },
        ),
{
    let r = inside(dir, name);
    let s = r.len() - name.len();
    lemma_inside(dir, name);
    lemma_front(dir, name);
    assert(last_component(r) == name);
    if dir.len() == 0 {
        assert(s == 0);
        assert(tidy(dir) == dir);
        assert(dir =~= Seq::empty());
    }
}

/// What stands before the name in a path to something inside a directory.
proof fn lemma_front(dir: Seq<char>, name: Seq<char>)
    requires
        plain_name(name),
    ensures
        ({
            let r = inside(dir, name);
            let s = r.len() - name.len();
            &&& dir.len() == 0 <==> s == 0
            &&& tidy(r.take(s)) == tidy(dir)
        }),
{
    reveal_strlit("/");
    let r = inside(dir, name);
    let s = r.len() - name.len();
    assert(name[0] != '/');
    if dir.len() == 0 {
        assert(r.take(s) =~= dir);
    } else if dir.last() == '/' {
        assert(r.take(s) =~= dir);
    } else {
        assert(r.take(s) =~= dir.push('/'));
        assert(dir.push('/').drop_last() =~= dir);
        assert(tidy(dir.push('/')) == tidy(dir));
    }
}

/// Whatever a path's parent is, it is empty, a root, or written without
/// anything superfluous behind it.
pub proof fn law_parents_are_tidy(p: Seq<char>)
    ensures
        parent_of(p) matches Some(d) ==> d.len() == 0 || d == seq!['/'] || tidy(d) == d,
{
    let q = tidy(p);
    lemma_tidy(q.take(past_last(q, '/') as int));
}

proof fn lemma_stem(stem: Seq<char>, tail: Seq<char>)
    requires
        stem.len() > 0,
        forall|i: int| 0 <= i < tail.len() ==> #[trigger] tail[i] != '.',
    ensures
        stem_len(stem + "."@ + tail) == stem.len(),
{
    reveal_strlit(".");
    let name = stem + "."@ + tail;
    assert(name[stem.len() as int] == '.');
    assert forall|i: int| stem.len() < i < name.len() implies name[i] != '.' by {
        assert(name[i] == tail[i - stem.len() - 1]);
    }
    lemma_past_last_is(name, '.', stem.len() as int + 1);
}

/// The extension of a file is what stands behind the last dot of its name,
/// unless the name begins with that dot.
pub proof fn law_extensions_stand_behind_the_last_dot(
    dir: Seq<char>,
    stem: Seq<char>,
    tail: Seq<char>,
    p: &str,
    r: Option<String>,
)
    requires
        stem.len() > 0,
        forall|i: int| 0 <= i < tail.len() ==> #[trigger] tail[i] != '.',
        plain_name(stem + "."@ + tail),
        p@ == inside(dir, stem + "."@ + tail),
        call_ensures(extension, (p,), r),
    ensures
        r matches Some(e) && e@ == tail,
{
    reveal_strlit(".");
    let name = stem + "."@ + tail;
    law_names_read_back(dir, name);
    lemma_stem(stem, tail);
    assert(name.skip(stem.len() as int + 1) =~= tail);
}

/// A name without a dot behind its first character has no extension.
pub proof fn law_hidden_names_have_no_extension(
    dir: Seq<char>,
    name: Seq<char>,
    p: &str,
    r: Option<String>,
)
    requires
        plain_name(name),
        forall|i: int| 1 <= i < name.len() ==> #[trigger] name[i] != '.',
        p@ == inside(dir, name),
        call_ensures(extension, (p,), r),
    ensures
        r is None,
{
    law_names_read_back(dir, name);
    lemma_past_last_is(
        name,
        '.',
        if name[0] == '.' {
            1
        } else {
            0
        },
    );
}

proof fn lemma_inside_grows(dir: Seq<char>, name: Seq<char>, ext: Seq<char>)
    requires
        name.len() > 0,
        name[0] != '/',
    ensures
        inside(dir, name) + "."@ + ext == inside(dir, name + "."@ + ext),
{
    reveal_strlit(".");
    let longer = name + "."@ + ext;
    assert(longer[0] == name[0]);
    assert(inside(dir, name) + "."@ + ext =~= inside(dir, longer));
}

/// Setting an extension keeps the directory and the stem of a name, and swaps
/// what stands behind its last dot; an empty extension takes the dot off too.
pub proof fn law_extensions_are_swapped_in_place(
    dir: Seq<char>,
    stem: Seq<char>,
    tail: Seq<char>,
    p: &str,
    ext: &str,
    r: String,
)
    requires
        stem.len() > 0,
        forall|i: int| 0 <= i < tail.len() ==> #[trigger] tail[i] != '.',
        plain_name(stem + "."@ + tail),
        p@ == inside(dir, stem + "."@ + tail),
        call_ensures(with_extension, (p, ext), r),
    ensures
        ext@.len() > 0 ==> r@ == inside(dir, stem + "."@ + ext@),
        ext@.len() == 0 ==> r@ == inside(dir, stem),
{
    reveal_strlit(".");
    reveal_strlit("/");
    let name = stem + "."@ + tail;
    law_names_read_back(dir, name);
    lemma_inside(dir, name);
    lemma_stem(stem, tail);
    assert(name[0] == stem[0]);
    let s = p@.len() - name.len();
    assert(p@.take(s + stem.len()) =~= inside(dir, stem));
    lemma_inside_grows(dir, stem, ext@);
}

/// A name without a dot behind its first character takes an extension behind
/// it, and keeps its directory.
pub proof fn law_extensions_are_added_in_place(
    dir: Seq<char>,
    name: Seq<char>,
    p: &str,
    ext: &str,
    r: String,
)
    requires
        plain_name(name),
        forall|i: int| 1 <= i < name.len() ==> #[trigger] name[i] != '.',
        p@ == inside(dir, name),
        call_ensures(with_extension, (p, ext), r),
    ensures
        ext@.len() > 0 ==> r@ == inside(dir, name + "."@ + ext@),
        ext@.len() == 0 ==> r@ == inside(dir, name),
{
    law_names_read_back(dir, name);
    lemma_inside(dir, name);
    lemma_past_last_is(
        name,
        '.',
        if name[0] == '.' {
            1
        } else {
            0
        },
    );
    assert(p@.take(p@.len() as int) =~= p@);
    assert(name[0] != '/');
    lemma_inside_grows(dir, name, ext@);
}

/// A name inside a directory lies behind its path and one separator; a name
/// that is a path from the root stands alone.
pub proof fn law_one_separator_joins(dir: &str, name: &str, r: String)
    requires
        call_ensures(join, (dir, name), r),
    ensures
        dir@.len() == 0 ==> r@ == name@,
        name@.len() > 0 && name@[0] == '/' ==> r@ == name@,
        dir@.len() > 0 && dir@.last() == '/' && (name@.len() == 0 || name@[0] != '/') ==> r@ == dir@
            + name@,
        dir@.len() > 0 && dir@.last() != '/' && (name@.len() == 0 || name@[0] != '/') ==> r@
            == dir@.push('/') + name@,
{
    reveal_strlit("/");
    assert(dir@ + "/"@ + name@ =~= dir@.push('/') + name@);
}

/// A path that ends in `..` leads to no name, and separators and single dots
/// behind a path change neither its name nor its parent.
pub proof fn law_trailing_separators_change_nothing(p: Seq<char>)
    ensures
        p.len() > 0 ==> name_of(p.push('/')) == name_of(p),
        p.len() > 0 ==> parent_of(p.push('/')) == parent_of(p),
        name_of(p.push('/').push('.')) == name_of(p.push('/')),
        name_of(p.push('/').push('.').push('.')) is None,
{
    assert(p.push('/').drop_last() =~= p);
    assert(p.push('/').push('.').drop_last() =~= p.push('/'));
    let q = p.push('/').push('.').push('.');
    let n = q.len() as int;
    assert(tidy(q) == q);
    lemma_past_last_is(q, '/', n - 2);
    assert(q.skip(n - 2) =~= seq!['.', '.']);
}

} // verus!
