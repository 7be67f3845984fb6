//! Paths as texts with `/` between their parts.

use crate::prompts::last_index;
use crate::text::{opt_str, texts};
use vstd::prelude::*;
use vstd::string::*;

verus! {

/// Whether the path is absolute.
pub open spec fn absolute(path: Seq<char>) -> bool {
    path.len() > 0 && path[0] == '/'
}

/// `path` as seen from `base`: itself where it is absolute or there is no base,
/// else behind the base, with one `/` between them.
pub open spec fn resolved(base: Seq<char>, path: Seq<char>) -> Seq<char> {
    if absolute(path) || base.len() == 0 {
        path
    } else if base.last() == '/' {
        base + path
    } else {
        base + "/"@ + path
    }
}

/// Whether the path is absolute.
pub fn is_absolute(path: &str) -> (r: bool)
    ensures
        r == absolute(path@),
{
    path.unicode_len() > 0 && path.get_char(0) == '/'
}

/// `path` as seen from `base`.
pub fn resolve(base: &str, path: &str) -> (r: String)
    ensures
        r@ == resolved(base@, path@),
{
    if is_absolute(path) || base.is_empty() {
        return path.to_owned();
    }
    let mut out = base.to_owned();
    if base.get_char(base.unicode_len() - 1) != '/' {
        out.append("/");
    }
    out.append(path);
    out
}

/// Every path as seen from `base`.
pub open spec fn all_resolved(base: Seq<char>, paths: Seq<String>) -> Seq<Seq<char>> {
    Seq::new(paths.len(), |i: int| resolved(base, paths[i]@))
}

/// Every path as seen from `base`.
pub fn resolve_all(base: &str, paths: &[String]) -> (r: Vec<String>)
    ensures
        texts(r@) == all_resolved(base@, paths@),
{
    let mut out: Vec<String> = Vec::new();
    let mut i: usize = 0;
    while i < paths.len()
        invariant
            i <= paths@.len(),
            out@.len() == i,
            forall|j: int| 0 <= j < i ==> (#[trigger] out@[j])@ == resolved(base@, paths@[j]@),
        decreases paths@.len() - i,
    {
        out.push(resolve(base, paths[i].as_str()));
        i = i + 1;
    }
    proof {
        assert(texts(out@) =~= all_resolved(base@, paths@));
    }
    out
}

/// How many characters of a path come before its parts: a root, or a `.` that it begins
/// with.
pub open spec fn lead(path: Seq<char>) -> int {
    if absolute(path) || (path.len() > 0 && path[0] == '.' && (path.len() == 1 || path[1]
        == '/')) {
        1
    } else {
        0
    }
}

/// Where the last part of a path begins, what comes before the parts left aside.
pub open spec fn last_part(path: Seq<char>) -> int {
    let slash = last_index(path, '/', path.len() as int);
    if slash >= lead(path) {
        slash + 1
    } else {
        lead(path)
    }
}

/// A path without its last part, and without the `/` before that.
pub open spec fn without_last(path: Seq<char>) -> Seq<char> {
    if last_part(path) > lead(path) {
        path.take(last_part(path) - 1)
    } else {
        path.take(lead(path))
    }
}

/// A path without the parts at its end that name nothing: those that are empty, and a
/// `.` that it does not begin with.
pub open spec fn neat(path: Seq<char>) -> Seq<char>
    decreases path.len(),
{
    if path.len() <= lead(path) {
        path
    } else {
        let part = path.skip(last_part(path));
        if part.len() == 0 || (part.len() == 1 && part[0] == '.') {
            if without_last(path).len() < path.len() {
                neat(without_last(path))
            } else {
                path
            }
        } else {
            path
        }
    }
}

/// The directory a path lies in, where it lies in one: neither the root nor the empty
/// path does.
pub open spec fn parent(path: Seq<char>) -> Option<Seq<char>> {
    let named = neat(path);
    if named.len() > lead(named) {
        Some(neat(without_last(named)))
    } else if named.len() == 0 || absolute(named) {
        None
    } else {
        Some(Seq::empty())
    }
}

fn lead_of(path: &str) -> (r: usize)
    ensures
        r == lead(path@),
{
    let n: usize = path.unicode_len();
    if n > 0 && (path.get_char(0) == '/' || (path.get_char(0) == '.' && (n == 1 || path.get_char(1)
        == '/'))) {
        1
    } else {
        0
    }
}

proof fn lemma_slash_in_place(path: Seq<char>, to: int)
    requires
        0 <= to <= path.len(),
    ensures
        -1 <= last_index(path, '/', to) < to || to == 0,
        to == 0 ==> last_index(path, '/', to) == -1,
    decreases to,
{
    if to > 0 && path[to - 1] != '/' {
        lemma_slash_in_place(path, to - 1);
    }
}

fn last_part_of(path: &str) -> (r: usize)
    requires
        path@.len() > lead(path@),
    ensures
        r == last_part(path@),
        lead(path@) <= r <= path@.len(),
{
    let n: usize = path.unicode_len();
    let start: usize = lead_of(path);
    let mut at: usize = n;
    while at > start && path.get_char(at - 1) != '/'
        invariant
            start <= at <= n,
            start == lead(path@),
            n == path@.len(),
            last_index(path@, '/', n as int) == last_index(path@, '/', at as int),
        decreases at,
    {
        at = at - 1;
    }
    proof {
        lemma_slash_in_place(path@, at as int);
    }
    at
}

fn cut_last(path: &str) -> (r: &str)
    requires
        path@.len() > lead(path@),
    ensures
        r@ == without_last(path@),
{
    let start: usize = lead_of(path);
    let at: usize = last_part_of(path);
    let end: usize = if at > start {
        at - 1
    } else {
        start
    };
    proof {
        assert(path@.subrange(0, end as int) =~= path@.take(end as int));
    }
    path.substring_char(0, end)
}

fn neaten(path: &str) -> (r: &str)
    ensures
        r@ == neat(path@),
    decreases path@.len(),
{
    let n: usize = path.unicode_len();
    if n <= lead_of(path) {
        return path;
    }
    let at: usize = last_part_of(path);
    if at == n || (at + 1 == n && path.get_char(at) == '.') {
        proof {
            assert(without_last(path@).len() < path@.len());
            assert(path@.skip(at as int).len() == n - at);
        }
        return neaten(cut_last(path));
    }
    path
}

/// The directory a path lies in, where it lies in one.
pub fn parent_of(path: &str) -> (r: Option<&str>)
    ensures
        opt_str(r) == parent(path@),
{
    let named = neaten(path);
    let n: usize = named.unicode_len();
    if n > lead_of(named) {
        return Some(neaten(cut_last(named)));
    }
    if n == 0 || named.get_char(0) == '/' {
        return None;
    }
    proof {
        assert(named@.subrange(0, 0) =~= Seq::empty());
    }
    Some(named.substring_char(0, 0))
}

/// A resolved path does not depend on where it is seen from any more.
pub proof fn lemma_resolving_from_the_root_settles(base: Seq<char>, other: Seq<char>, path: Seq<char>)
    requires
        absolute(base),
    ensures
        absolute(resolved(base, path)),
        resolved(other, resolved(base, path)) == resolved(base, path),
{
}

/// **A resolved path is the path, from its base**: an absolute one stays as it is; any other
/// is the base, one `/`, and the path.
pub proof fn lemma_a_resolved_path_lies_below_its_base(base: &str, path: &str, r: String)
    requires
        call_ensures(resolve, (base, path), r),
    ensures
        path@.len() > 0 && path@[0] == '/' ==> r@ == path@,
        base@.len() == 0 ==> r@ == path@,
        base@.len() > 0 && !(path@.len() > 0 && path@[0] == '/') ==> {
            let at = r@.len() - path@.len();
            &&& base@.len() <= at <= base@.len() + 1
            &&& r@.take(base@.len() as int) == base@
            &&& r@.skip(at) == path@
            &&& r@[at - 1] == '/'
            &&& at == base@.len() <==> base@.last() == '/'
        },
{
    reveal_strlit("/");
    if base@.len() > 0 && !(path@.len() > 0 && path@[0] == '/') {
        let at = r@.len() - path@.len();
        assert(r@.take(base@.len() as int) =~= base@);
        assert(r@.skip(at) =~= path@);
    }
}

/// **Every path is resolved, in its order**, each as it would be alone.
pub proof fn lemma_every_path_is_resolved(base: &str, paths: &[String], i: int, r: Vec<String>)
    requires
        call_ensures(resolve_all, (base, paths), r),
        0 <= i < paths@.len(),
    ensures
        r@.len() == paths@.len(),
        paths@[i]@.len() > 0 && paths@[i]@[0] == '/' ==> r@[i]@ == paths@[i]@,
        base@.len() > 0 && base@.last() != '/' && !(paths@[i]@.len() > 0 && paths@[i]@[0] == '/')
            ==> r@[i]@ == base@ + "/"@ + paths@[i]@,
{
    assert(texts(r@).len() == paths@.len());
    assert(texts(r@)[i] == r@[i]@);
    assert(all_resolved(base@, paths@)[i] == resolved(base@, paths@[i]@));
}

/// **A file lies in its directory**: of a path that is a directory, a `/` and a name the
/// parent is that directory; of a bare name it is the empty path; right below the root it is
/// the root; and the root itself has none.
pub proof fn lemma_a_file_lies_in_its_directory(
    path: &str,
    dir: Seq<char>,
    name: Seq<char>,
    r: Option<&str>,
)
    requires
        call_ensures(parent_of, (path,), r),
        name.len() > 0,
        forall|i: int| 0 <= i < name.len() ==> #[trigger] name[i] != '/',
        name.last() != '.',
        dir.len() > 0 ==> dir.last() != '/' && dir.last() != '.',
    ensures
        dir.len() > 0 && path@ == dir + "/"@ + name ==> r is Some && r->0@ == dir,
        path@ == "/"@ + name ==> r is Some && r->0@ == "/"@,
        path@ == name ==> r is Some && r->0@.len() == 0,
        path@ == "/"@ || path@.len() == 0 ==> r is None,
{
    reveal_strlit("/");
    let p = path@;
    let slash = "/"@;
    if dir.len() > 0 && p == dir + slash + name {
        let n = dir.len() as int;
        assert(p[n] == '/');
        assert(forall|i: int| n < i < p.len() ==> p[i] == name[i - n - 1]);
        lemma_last_slash(p, n, p.len() as int);
        assert(p.last() == name.last());
        lemma_neat(p);
        assert(p.take(n) =~= dir);
        lemma_neat(dir);
        assert(lead(p) <= n);
    }
    if p == slash + name {
        assert(forall|i: int| 0 < i < p.len() ==> p[i] == name[i - 1]);
        lemma_last_slash(p, 0, p.len() as int);
        assert(p.last() == name.last());
        lemma_neat(p);
        assert(p.take(1) =~= slash);
        assert(neat(slash) == slash);
    }
    if p == name {
        lemma_no_slash(p, p.len() as int);
        lemma_neat(p);
        assert(lead(p) == 0);
        assert(p.take(0) =~= Seq::empty());
        assert(neat(Seq::<char>::empty()) == Seq::<char>::empty());
    }
    if p == slash {
        assert(neat(p) == p);
    }
}

proof fn lemma_last_slash(path: Seq<char>, at: int, to: int)
    requires
        0 <= at < to <= path.len(),
        path[at] == '/',
        forall|i: int| at < i < to ==> #[trigger] path[i] != '/',
    ensures
        last_index(path, '/', to) == at,
    decreases to,
{
    if to > at + 1 {
        lemma_last_slash(path, at, to - 1);
    }
}

proof fn lemma_no_slash(path: Seq<char>, to: int)
    requires
        0 <= to <= path.len(),
        forall|i: int| 0 <= i < to ==> #[trigger] path[i] != '/',
    ensures
        last_index(path, '/', to) == -1,
    decreases to,
{
    if to > 0 {
        lemma_no_slash(path, to - 1);
    }
}

/// A path whose end names something is neat.
proof fn lemma_neat(path: Seq<char>)
    requires
        path.len() > 0,
        path.last() != '/',
        path.last() != '.',
    ensures
        neat(path) == path,
{
    let n = path.len() as int;
    lemma_slash_in_place(path, n);
    if n > lead(path) {
        let slash = last_index(path, '/', n);
        assert(slash < n - 1) by {
            if slash == n - 1 {
                lemma_slash_at(path, n);
            }
        }
        let part = path.skip(last_part(path));
        assert(part.len() > 0);
        assert(part.last() == path.last());
    }
}

proof fn lemma_slash_at(path: Seq<char>, to: int)
    requires
        0 <= to <= path.len(),
    ensures
        0 <= last_index(path, '/', to) < to ==> path[last_index(path, '/', to)] == '/',
    decreases to,
{
    if to > 0 && path[to - 1] != '/' {
        lemma_slash_at(path, to - 1);
        lemma_slash_in_place(path, to - 1);
    }
}

/// A `/` at the end of a path, and a `.` behind it, name nothing.
proof fn lemma_an_end_that_names_nothing(path: Seq<char>)
    requires
        path.len() > 0,
    ensures
        neat(path + seq!['/']) == neat(path),
        neat(path + seq!['/', '.']) == neat(path),
{
    let n = path.len() as int;
    let (a, b) = (path + seq!['/'], path + seq!['/', '.']);
    assert(a[0] == path[0] && b[0] == path[0]);
    assert(n > 1 ==> a[1] == path[1] && b[1] == path[1]);
    assert(a[n] == '/' && b[n] == '/' && b[n + 1] == '.');
    lemma_last_slash(a, n, n + 1);
    lemma_last_slash(b, n, n + 2);
    assert(a.take(n) =~= path);
    assert(b.take(n) =~= path);
    assert(a.skip(n + 1).len() == 0);
    assert(b.skip(n + 1) =~= seq!['.']);
}

/// **What names nothing changes nothing**: a `/` at the end, a `/.` there, and a second `/`
/// before the name leave the directory that a path lies in.
pub proof fn lemma_what_names_nothing_changes_nothing(
    path: &str,
    longer: &str,
    doubled: &str,
    dir: Seq<char>,
    name: Seq<char>,
    r: Option<&str>,
    q: Option<&str>,
    d: Option<&str>,
)
    requires
        call_ensures(parent_of, (path,), r),
        call_ensures(parent_of, (longer,), q),
        call_ensures(parent_of, (doubled,), d),
        path@.len() > 0,
        longer@ == path@ + seq!['/'] || longer@ == path@ + seq!['/', '.'],
        name.len() > 0,
        forall|i: int| 0 <= i < name.len() ==> #[trigger] name[i] != '/',
        name.last() != '.',
        dir.len() > 0,
        dir.last() != '/',
        dir.last() != '.',
        doubled@ == dir + seq!['/', '/'] + name,
    ensures
        opt_str(q) == opt_str(r),
        d is Some && d->0@ == dir,
{
    lemma_an_end_that_names_nothing(path@);
    let p = doubled@;
    let n = dir.len() as int + 1;
    assert(p[n] == '/');
    assert(forall|i: int| n < i < p.len() ==> p[i] == name[i - n - 1]);
    lemma_last_slash(p, n, p.len() as int);
    assert(p.last() == name.last());
    lemma_neat(p);
    assert(p.take(n) =~= dir + seq!['/']);
    assert(lead(p) <= n);
    lemma_an_end_that_names_nothing(dir);
    lemma_neat(dir);
}

} // verus!
