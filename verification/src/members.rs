//! The parts of a written document: an object's members, where a name may stand more
//! than once, and an array's items.
//!
//! A document that was read keeps one member of a name. Whether a name was written
//! twice shows in the text alone.

use crate::json::{json_outcome, parse, Json, JsonView};
use crate::text::{blank, is_blank, opt_text, same, texts, trim, trimmed};
use vstd::prelude::*;
use vstd::string::*;

verus! {

/// Where in a document a place lies: below how many brackets, inside a string or not,
/// and right behind a `\` of one or not.
pub struct Place {
    pub depth: nat,
    pub quoted: bool,
    pub escaped: bool,
}

impl Place {
    /// The place behind `c`.
    pub open spec fn after(self, c: char) -> Place {
        if self.escaped {
            Place { escaped: false, ..self }
        } else if self.quoted {
            if c == '\\' {
                Place { escaped: true, ..self }
            } else if c == '"' {
                Place { quoted: false, ..self }
            } else {
                self
            }
        } else if c == '"' {
            Place { quoted: true, ..self }
        } else if c == '{' || c == '[' {
            Place { depth: self.depth + 1, ..self }
        } else if (c == '}' || c == ']') && self.depth > 0 {
            Place { depth: (self.depth - 1) as nat, ..self }
        } else {
            self
        }
    }

    /// Whether this is outside every string, below that many brackets.
    pub open spec fn below(self, depth: nat) -> bool {
        !self.quoted && !self.escaped && self.depth == depth
    }
}

/// The place behind the first `n` characters.
pub open spec fn place(s: Seq<char>, n: int) -> Place
    decreases n,
{
    if n <= 0 {
        Place { depth: 0, quoted: false, escaped: false }
    } else {
        place(s, n - 1).after(s[n - 1])
    }
}

/// Where the part that the place behind the first `n` characters lies in begins: behind
/// the bracket that opens the document, or behind a comma of it.
pub open spec fn begin(s: Seq<char>, n: int) -> int
    decreases n,
{
    if n <= 0 {
        0
    } else if ((s[n - 1] == '{' || s[n - 1] == '[') && place(s, n - 1).below(0)) || (s[n - 1] == ','
        && place(s, n - 1).below(1)) {
        n
    } else {
        begin(s, n - 1)
    }
}

/// The parts that end among the first `n` characters of an object or an array, as they
/// are written: each at a comma or at the bracket that closes the document.
pub open spec fn parts(s: Seq<char>, n: int) -> Seq<Seq<char>>
    decreases n,
{
    if n <= 0 {
        Seq::empty()
    } else {
        let earlier = parts(s, n - 1);
        let part = s.subrange(begin(s, n - 1), n - 1);
        if (s[n - 1] == ',' || s[n - 1] == '}' || s[n - 1] == ']') && place(s, n - 1).below(1)
            && !blank(part) {
            earlier.push(trimmed(part))
        } else {
            earlier
        }
    }
}

/// The parts of an object or an array.
pub open spec fn parts_of(s: Seq<char>) -> Seq<Seq<char>> {
    parts(s, s.len() as int)
}

/// Where the first colon outside all brackets and strings stands among the first `n`
/// characters, or -1.
pub open spec fn colon(s: Seq<char>, n: int) -> int
    decreases n,
{
    if n <= 0 {
        -1
    } else if colon(s, n - 1) >= 0 {
        colon(s, n - 1)
    } else if s[n - 1] == ':' && place(s, n - 1).below(0) {
        n - 1
    } else {
        -1
    }
}

/// Whether a part is the member called `name`.
pub open spec fn is_named(part: Seq<char>, name: Seq<char>) -> bool {
    let at = colon(part, part.len() as int);
    at >= 0 && json_outcome(trimmed(part.take(at))) == Ok::<_, Seq<char>>(JsonView::Text(name))
}

/// The text of a member's value.
pub open spec fn value_of(part: Seq<char>) -> Seq<char> {
    trimmed(part.skip(colon(part, part.len() as int) + 1))
}

/// Whether an object names a member more than once.
pub open spec fn repeats(s: Seq<char>, name: Seq<char>) -> bool {
    exists|i: int, j: int|
        0 <= i < j < parts_of(s).len() && #[trigger] is_named(parts_of(s)[i], name)
            && #[trigger] is_named(parts_of(s)[j], name)
}

/// The text of the value called `name` among these parts (the last one, where the name
/// stands more than once).
pub open spec fn value_in(parts: Seq<Seq<char>>, name: Seq<char>) -> Option<Seq<char>>
    decreases parts.len(),
{
    if parts.len() == 0 {
        None
    } else if is_named(parts.last(), name) {
        Some(value_of(parts.last()))
    } else {
        value_in(parts.drop_last(), name)
    }
}

/// The text of what stands for the member called `names[i]`: its value in an object, the
/// item at that place in an array.
pub open spec fn field_in(s: Seq<char>, names: Seq<Seq<char>>, i: int) -> Option<Seq<char>> {
    if s.len() > 0 && s[0] == '[' {
        if i < parts_of(s).len() {
            Some(parts_of(s)[i])
        } else {
            None
        }
    } else {
        value_in(parts_of(s), names[i])
    }
}

/// The place behind `c`, given as its three parts.
fn step(depth: usize, quoted: bool, escaped: bool, c: char) -> (r: (usize, bool, bool))
    requires
        depth < usize::MAX,
    ensures
        (Place { depth: r.0 as nat, quoted: r.1, escaped: r.2 }) == (Place {
            depth: depth as nat,
            quoted,
            escaped,
        }).after(c),
        r.0 <= depth + 1,
{
    if escaped {
        (depth, quoted, false)
    } else if quoted {
        if c == '\\' {
            (depth, true, true)
        } else if c == '"' {
            (depth, false, false)
        } else {
            (depth, true, false)
        }
    } else if c == '"' {
        (depth, true, false)
    } else if c == '{' || c == '[' {
        (depth + 1, false, false)
    } else if (c == '}' || c == ']') && depth > 0 {
        (depth - 1, false, false)
    } else {
        (depth, false, false)
    }
}

/// The parts of an object or an array, as they are written.
pub fn split_parts(s: &str) -> (r: Vec<String>)
    ensures
        texts(r@) == parts_of(s@),
{
    let n: usize = s.unicode_len();
    let mut out: Vec<String> = Vec::new();
    let (mut depth, mut quoted, mut escaped): (usize, bool, bool) = (0, false, false);
    let mut start: usize = 0;
    let mut i: usize = 0;
    proof {
        assert(texts(out@) =~= parts(s@, 0));
    }
    while i < n
        invariant
            i <= n,
            n == s@.len(),
            depth <= i,
            place(s@, i as int) == (Place { depth: depth as nat, quoted, escaped }),
            start == begin(s@, i as int),
            start <= i,
            texts(out@) == parts(s@, i as int),
        decreases n - i,
    {
        let c = s.get_char(i);
        let ghost earlier = texts(out@);
        let outside = !quoted && !escaped;
        if outside && depth == 1 && (c == ',' || c == '}' || c == ']') {
            let part = s.substring_char(start, i);
            if !is_blank(part) {
                out.push(trim(part).to_owned());
                proof {
                    assert(texts(out@) =~= earlier.push(out@.last()@));
                }
            }
        }
        if outside && ((depth == 0 && (c == '{' || c == '[')) || (depth == 1 && c == ',')) {
            start = i + 1;
        }
        let (d, q, e): (usize, bool, bool) = step(depth, quoted, escaped, c);
        depth = d;
        quoted = q;
        escaped = e;
        i = i + 1;
    }
    out
}

/// Where the first colon outside all brackets and strings stands.
fn find_colon(s: &str) -> (r: Option<usize>)
    ensures
        match r {
            Some(at) => colon(s@, s@.len() as int) == at && at < s@.len(),
            None => colon(s@, s@.len() as int) < 0,
        },
{
    let n: usize = s.unicode_len();
    let (mut depth, mut quoted, mut escaped): (usize, bool, bool) = (0, false, false);
    let mut found: Option<usize> = None;
    let mut i: usize = 0;
    while i < n
        invariant
            i <= n,
            n == s@.len(),
            depth <= i,
            place(s@, i as int) == (Place { depth: depth as nat, quoted, escaped }),
            match found {
                Some(at) => colon(s@, i as int) == at && at < i,
                None => colon(s@, i as int) < 0,
            },
        decreases n - i,
    {
        let c = s.get_char(i);
        if found.is_none() && !quoted && !escaped && depth == 0 && c == ':' {
            found = Some(i);
        }
        let (d, q, e): (usize, bool, bool) = step(depth, quoted, escaped, c);
        depth = d;
        quoted = q;
        escaped = e;
        i = i + 1;
    }
    found
}

/// The text of a part's value, where the part is the member called `name`.
fn named_value(part: &str, name: &str) -> (r: Option<String>)
    ensures
        opt_text(r) == if is_named(part@, name@) {
            Some(value_of(part@))
        } else {
            None
        },
{
    let at: usize = match find_colon(part) {
        Some(at) => at,
        None => return None,
    };
    let n: usize = part.unicode_len();
    proof {
        assert(part@.subrange(0, at as int) =~= part@.take(at as int));
        assert(part@.subrange(at + 1, n as int) =~= part@.skip(at + 1));
    }
    match parse(trim(part.substring_char(0, at))) {
        Ok(Json::Text(text)) => if same(text.as_str(), name) {
            Some(trim(part.substring_char(at + 1, n)).to_owned())
        } else {
            None
        },
        _ => None,
    }
}

/// Whether an object names a member more than once.
pub fn repeated(s: &str, name: &str) -> (r: bool)
    ensures
        r == repeats(s@, name@),
{
    let all = split_parts(s);
    let ghost written = parts_of(s@);
    let ghost mut at: int = -1;
    let mut seen = false;
    let mut i: usize = 0;
    while i < all.len()
        invariant
            i <= all@.len(),
            texts(all@) == written,
            written == parts_of(s@),
            seen ==> 0 <= at < i && is_named(written[at], name@),
            !seen ==> at == -1,
            forall|k: int| 0 <= k < i && k != at ==> !is_named(#[trigger] written[k], name@),
        decreases all@.len() - i,
    {
        let named = named_value(all[i].as_str(), name).is_some();
        proof {
            assert(written[i as int] == all@[i as int]@);
            assert(named == is_named(written[i as int], name@));
        }
        if named && seen {
            proof {
                assert(is_named(written[at], name@) && is_named(written[i as int], name@));
            }
            return true;
        }
        if named {
            seen = true;
            proof {
                at = i as int;
            }
        }
        i = i + 1;
    }
    false
}

/// The text of what stands for the member called `fields[i]`: its value in an object, the
/// item at that place in an array.
pub fn field_text(s: &str, fields: &Vec<&'static str>, i: usize) -> (r: Option<String>)
    requires
        i < fields@.len(),
    ensures
        opt_text(r) == field_in(s@, names_of(fields@), i as int),
{
    let mut all = split_parts(s);
    let ghost written = parts_of(s@);
    if s.unicode_len() > 0 && s.get_char(0) == '[' {
        if i < all.len() {
            proof {
                assert(written[i as int] == all@[i as int]@);
            }
            return Some(all[i].clone());
        }
        return None;
    }
    let name = fields[i];
    proof {
        assert(written.take(written.len() as int) =~= written);
    }
    while all.len() > 0
        invariant
            all@.len() <= written.len(),
            written == parts_of(s@),
            i < fields@.len(),
            name@ == names_of(fields@)[i as int],
            !(s@.len() > 0 && s@[0] == '['),
            texts(all@) == written.take(all@.len() as int),
            value_in(written, name@) == value_in(written.take(all@.len() as int), name@),
        decreases all@.len(),
    {
        let ghost k = all@.len() as int;
        let ghost before = all@;
        let last = match all.pop() {
            Some(last) => last,
            None => return None,
        };
        proof {
            assert(written.take(k).last() == before[k - 1]@) by {
                assert(texts(before)[k - 1] == before[k - 1]@);
            }
            assert(written.take(k).drop_last() =~= written.take(k - 1));
            assert(texts(all@) =~= written.take(k - 1)) by {
                assert(texts(before) == written.take(k));
                assert forall|j: int| 0 <= j < k - 1 implies texts(all@)[j] == written.take(
                    k - 1,
                )[j] by {
                    assert(texts(before)[j] == written.take(k)[j]);
                }
            }
        }
        if let Some(value) = named_value(last.as_str(), name) {
            return Some(value);
        }
    }
    None
}

/// The names of members, in their order.
pub open spec fn names_of(fields: Seq<&'static str>) -> Seq<Seq<char>> {
    Seq::new(fields.len(), |i: int| fields[i]@)
}

/// Whether an object names one of these members more than once.
pub open spec fn repeats_any(s: Seq<char>, names: Seq<Seq<char>>) -> bool {
    exists|i: int| 0 <= i < names.len() && repeats(s, #[trigger] names[i])
}

/// Whether an object names one of these members more than once, and which.
pub fn first_repeated(s: &str, fields: &Vec<&'static str>) -> (r: Option<&'static str>)
    ensures
        r is Some <==> repeats_any(s@, names_of(fields@)),
{
    let ghost names = names_of(fields@);
    let mut i: usize = 0;
    while i < fields.len()
        invariant
            i <= fields@.len(),
            names == names_of(fields@),
            forall|k: int| 0 <= k < i ==> !repeats(s@, #[trigger] names[k]),
        decreases fields@.len() - i,
    {
        if repeated(s, fields[i]) {
            proof {
                assert(repeats(s@, names[i as int]));
            }
            return Some(fields[i]);
        }
        i = i + 1;
    }
    None
}

/// Whether a character neither opens nor closes nor separates anything.
pub open spec fn inert(c: char) -> bool {
    c != ',' && c != '"' && c != '{' && c != '}' && c != '[' && c != ']'
}

/// Whether a document is cut into its parts at these places: its opening bracket, the commas
/// in between, and its closing bracket.
pub open spec fn cut_at(s: Seq<char>, cuts: Seq<int>) -> bool {
    &&& cuts.len() >= 2
    &&& cuts[0] == 0
    &&& cuts.last() == s.len() - 1
    &&& forall|k: int| 0 <= k < cuts.len() - 1 ==> (#[trigger] cuts[k]) < cuts[k + 1]
    &&& s[0] == '[' || s[0] == '{'
    &&& s.last() == ']' || s.last() == '}'
    &&& forall|k: int| 0 < k < cuts.len() - 1 ==> s[#[trigger] cuts[k]] == ','
    &&& forall|k: int, i: int|
        0 <= k < cuts.len() - 1 && #[trigger] cuts[k] < i < cuts[k + 1] ==> inert(
            #[trigger] s[i],
        )
}

proof fn lemma_cuts_stay_inside(s: Seq<char>, cuts: Seq<int>, k: int)
    requires
        cut_at(s, cuts),
        0 <= k < cuts.len(),
    ensures
        0 <= cuts[k] < s.len(),
        k < cuts.len() - 1 ==> cuts[k] < s.len() - 1,
    decreases cuts.len() - k,
{
    lemma_cuts_grow(s, cuts, k);
    if k < cuts.len() - 1 {
        lemma_cuts_stay_inside(s, cuts, k + 1);
        assert(cuts[k] < cuts[k + 1]);
    }
}

proof fn lemma_cuts_grow(s: Seq<char>, cuts: Seq<int>, k: int)
    requires
        cut_at(s, cuts),
        0 <= k < cuts.len(),
    ensures
        0 <= cuts[k],
    decreases k,
{
    if k > 0 {
        lemma_cuts_grow(s, cuts, k - 1);
        assert(cuts[k - 1] < cuts[k - 1 + 1]);
    }
}

/// The first `k` parts of a document that is cut so.
spec fn cut_parts(s: Seq<char>, cuts: Seq<int>, k: int) -> Seq<Seq<char>> {
    Seq::new(k as nat, |j: int| trimmed(s.subrange(cuts[j] + 1, cuts[j + 1])))
}

proof fn lemma_scan(s: Seq<char>, cuts: Seq<int>, k: int, n: int)
    requires
        cut_at(s, cuts),
        forall|j: int|
            0 <= j < cuts.len() - 1 ==> !blank(s.subrange(#[trigger] cuts[j] + 1, cuts[j + 1])),
        0 <= k < cuts.len() - 1,
        cuts[k] < n <= cuts[k + 1],
    ensures
        place(s, n) == (Place { depth: 1, quoted: false, escaped: false }),
        begin(s, n) == cuts[k] + 1,
        parts(s, n) == cut_parts(s, cuts, k),
    decreases n,
{
    lemma_cuts_stay_inside(s, cuts, k);
    lemma_cuts_stay_inside(s, cuts, k + 1);
    if n == cuts[k] + 1 {
        if k == 0 {
            assert(n == 1);
            assert(place(s, 0) == (Place { depth: 0, quoted: false, escaped: false }));
            assert(parts(s, 0) =~= Seq::empty());
            assert(parts(s, 1) == parts(s, 0));
            assert(cut_parts(s, cuts, 0) =~= Seq::empty());
        } else {
            assert(cuts[k - 1] < cuts[k - 1 + 1]);
            lemma_scan(s, cuts, k - 1, cuts[k]);
            assert(s[cuts[k]] == ',');
            let part = s.subrange(cuts[k - 1] + 1, cuts[k - 1 + 1]);
            assert(!blank(part));
            assert(s.subrange(begin(s, n - 1), n - 1) == part);
            assert(cut_parts(s, cuts, k) =~= cut_parts(s, cuts, k - 1).push(trimmed(part)));
        }
    } else {
        lemma_scan(s, cuts, k, n - 1);
        assert(cuts[k] < n - 1 < cuts[k + 1]);
        assert(inert(s[n - 1]));
    }
}

/// **A document comes apart at its commas**: what stands between two of them, or between one
/// and a bracket, is a part, without the white space around it, in its place.
pub proof fn lemma_a_document_comes_apart_at_its_commas(
    s: &str,
    cuts: Seq<int>,
    k: int,
    r: Vec<String>,
)
    requires
        call_ensures(split_parts, (s,), r),
        cut_at(s@, cuts),
        forall|j: int|
            0 <= j < cuts.len() - 1 ==> !blank(s@.subrange(#[trigger] cuts[j] + 1, cuts[j + 1])),
        0 <= k < cuts.len() - 1,
    ensures
        r@.len() == cuts.len() - 1,
        r@[k]@ == trimmed(s@.subrange(cuts[k] + 1, cuts[k + 1])),
{
    let t = s@;
    let last = cuts.len() - 2;
    let n = t.len() as int;
    assert(cuts[last] < cuts[last + 1]);
    lemma_scan(t, cuts, last, n - 1);
    let part = t.subrange(cuts[last] + 1, cuts[last + 1]);
    assert(!blank(part));
    assert(t.subrange(begin(t, n - 1), n - 1) == part);
    assert(cut_parts(t, cuts, last + 1) =~= cut_parts(t, cuts, last).push(trimmed(part)));
    assert(parts_of(t) == cut_parts(t, cuts, last + 1));
    assert(texts(r@).len() == r@.len());
    assert(texts(r@)[k] == r@[k]@);
}

} // verus!
