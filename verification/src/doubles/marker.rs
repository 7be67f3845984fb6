//! `[[name:value]]` directives in a text, which steer a stand-in.

use crate::text::{find_from, found, has, lemma_found, opt_str, stands_at, texts};
use vstd::prelude::*;
use vstd::string::*;

verus! {

/// How a directive called `name` opens.
pub open spec fn opening(name: Seq<char>) -> Seq<char> {
    "[["@ + name + ":"@
}

/// Where the value of the first directive called `name` starts and ends, where
/// there is one that is closed.
pub open spec fn value_span(text: Seq<char>, name: Seq<char>) -> Option<(int, int)> {
    match found(text, opening(name), 0) {
        Some(at) => {
            let start = at + opening(name).len();
            match found(text, "]]"@, start) {
                Some(end) => Some((start, end)),
                None => None,
            }
        },
        None => None,
    }
}

/// The value of the first directive called `name`.
pub open spec fn marked(text: Seq<char>, name: Seq<char>) -> Option<Seq<char>> {
    match value_span(text, name) {
        Some((start, end)) => Some(text.subrange(start, end)),
        None => None,
    }
}

/// The values of every directive called `name`, in order.
pub open spec fn all_marked(text: Seq<char>, name: Seq<char>) -> Seq<Seq<char>>
    decreases text.len(),
    via all_marked_shrinks
{
    match value_span(text, name) {
        Some((start, end)) => seq![text.subrange(start, end)] + all_marked(
            text.skip(end + 2),
            name,
        ),
        None => Seq::empty(),
    }
}

#[via_fn]
proof fn all_marked_shrinks(text: Seq<char>, name: Seq<char>) {
    lemma_span(text, name);
}

proof fn lemma_span(text: Seq<char>, name: Seq<char>)
    ensures
        value_span(text, name) is Some ==> {
            let (start, end) = value_span(text, name)->0;
            0 < start <= end && end + 2 <= text.len()
        },
{
    lemma_found(text, opening(name), 0);
    reveal_strlit("[[");
    reveal_strlit("]]");
    assert("[["@.len() == 2 && "]]"@.len() == 2);
    if found(text, opening(name), 0) is Some {
        let start = found(text, opening(name), 0)->0 + opening(name).len();
        lemma_found(text, "]]"@, start);
    }
}

fn span(text: &str, name: &str) -> (r: Option<(usize, usize)>)
    ensures
        match r {
            Some((start, end)) => value_span(text@, name@) == Some((start as int, end as int)),
            None => value_span(text@, name@) is None,
        },
{
    let mut open = "[[".to_owned();
    open.append(name);
    open.append(":");
    proof {
        lemma_found(text@, opening(name@), 0);
    }
    let total: usize = text.unicode_len();
    let at: usize = match find_from(text, open.as_str(), 0) {
        Some(at) => at,
        None => return None,
    };
    let start: usize = at + open.as_str().unicode_len();
    match find_from(text, "]]", start) {
        Some(end) => Some((start, end)),
        None => None,
    }
}

/// The value of the first `[[name:value]]` in `text`, if any.
pub fn marker<'a>(text: &'a str, name: &str) -> (value: Option<&'a str>)
    ensures
        opt_str(value) == marked(text@, name@),
{
    proof {
        lemma_span(text@, name@);
    }
    match span(text, name) {
        Some((start, end)) => Some(text.substring_char(start, end)),
        None => None,
    }
}

/// The values of every `[[name:value]]` in `text`, in order.
pub fn markers(text: &str, name: &str) -> (values: Vec<String>)
    ensures
        texts(values@) == all_marked(text@, name@),
{
    let mut values: Vec<String> = Vec::new();
    let mut rest = text;
    proof {
        assert(texts(values@) + all_marked(text@, name@) =~= all_marked(text@, name@));
    }
    loop
        invariant
            texts(values@) + all_marked(rest@, name@) == all_marked(text@, name@),
        decreases rest@.len(),
    {
        proof {
            lemma_span(rest@, name@);
        }
        let (start, end): (usize, usize) = match span(rest, name) {
            Some(found) => found,
            None => {
                proof {
                    assert(texts(values@) + Seq::empty() =~= texts(values@));
                }
                return values;
            },
        };
        let total: usize = rest.unicode_len();
        let ghost before = texts(values@);
        let ghost value = rest@.subrange(start as int, end as int);
        values.push(rest.substring_char(start, end).to_owned());
        proof {
            assert(texts(values@) =~= before.push(value));
            assert(rest@.subrange(end + 2, total as int) =~= rest@.skip(end + 2));
            let after = all_marked(rest@.skip(end + 2), name@);
            assert(before + (seq![value] + after) =~= before.push(value) + after);
        }
        rest = rest.substring_char(end + 2, total);
    }
}

/// **The marker of a name is the first of its markers**: reading one and reading all
/// agree, and there is one exactly where there are some.
pub proof fn lemma_marker_is_the_first(text: Seq<char>, name: Seq<char>)
    ensures
        marked(text, name) == if all_marked(text, name).len() > 0 {
            Some(all_marked(text, name)[0])
        } else {
            None
        },
{
    lemma_span(text, name);
}

/// **A directive says what stands in it**: the value between the opening of the first one of
/// that name and the first `]]` behind it; and there is none where none is opened.
pub proof fn lemma_a_directive_says_what_stands_in_it(
    text: &str,
    name: &str,
    front: Seq<char>,
    inner: Seq<char>,
    back: Seq<char>,
    value: Option<&str>,
    values: Vec<String>,
)
    requires
        call_ensures(marker, (text, name), value),
        call_ensures(markers, (text, name), values),
    ensures
        text@ == front + ("[["@ + name@ + ":"@) + inner + "]]"@ + back && !(has(
            front + ("[["@ + name@ + ":"@).drop_last(),
            "[["@ + name@ + ":"@,
        )) && !(has(inner + "]"@, "]]"@)) ==> value is Some && value->0@ == inner,
        !(has(text@, "[["@ + name@ + ":"@)) ==> value is None && values@.len() == 0,
        value is Some <==> values@.len() > 0,
        value is Some ==> values@[0]@ == value->0@,
{
    let t = text@;
    let open = opening(name@);
    assert(open == "[["@ + name@ + ":"@);
    lemma_marker_is_the_first(t, name@);
    assert(texts(values@).len() == values@.len());
    if values@.len() > 0 {
        assert(texts(values@)[0] == values@[0]@);
    }
    lemma_found(t, open, 0);
    reveal_strlit("]]");
    reveal_strlit("]");
    reveal_strlit("[[");
    reveal_strlit(":");
    assert("]]"@.len() == 2 && "]"@.len() == 1);
    if t == front + open + inner + "]]"@ + back && !(has(front + open.drop_last(), open)) && !(has(
        inner + "]"@,
        "]]"@,
    )) {
        let at = front.len() as int;
        let start = at + open.len();
        let end = start + inner.len();
        assert(t.subrange(at, start) =~= open);
        assert(stands_at(t, open, at));
        let f = found(t, open, 0)->0;
        assert(f == at) by {
            if f < at {
                let head = front + open.drop_last();
                assert(t.subrange(f, f + open.len()) =~= head.subrange(f, f + open.len()));
                assert(stands_at(head, open, f));
            }
        }
        lemma_found(t, "]]"@, start);
        assert(t.subrange(end, end + 2) =~= "]]"@);
        assert(stands_at(t, "]]"@, end));
        let g = found(t, "]]"@, start)->0;
        assert(g == end) by {
            if g < end {
                let tail = inner + "]"@;
                let h = g - start;
                assert(tail.subrange(h, h + 2) =~= t.subrange(g, g + 2));
                assert(stands_at(tail, "]]"@, h));
            }
        }
        assert(t.subrange(start, end) =~= inner);
    }
}

} // verus!
