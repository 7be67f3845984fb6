//! A skill as read from its directory, and the system prompt it frames.

use crate::engine::Skill;
use crate::text::{find_from, found, lemma_found, stands_at, starts_with, trim, trimmed};
use vstd::prelude::*;
use vstd::string::*;

verus! {

/// What a skill directory holds: the skill's name, where it was read from, and
/// its instruction body.
#[derive(Debug, Clone, PartialEq, Eq)]
pub struct SkillDefinition {
    /// The skill's name.
    pub name: String,
    /// The directory it was read from.
    pub dir: String,
    /// The instruction body.
    pub body: String,
}

/// The system prompt of a skill: the preamble first, then the body, a blank line
/// between them when both say something.
pub open spec fn framed(preamble: Seq<char>, body: Seq<char>) -> Seq<char> {
    let (preamble, body) = (trimmed(preamble), trimmed(body));
    if preamble.len() == 0 {
        body
    } else if body.len() == 0 {
        preamble
    } else {
        preamble + "\n\n"@ + body
    }
}

impl SkillDefinition {
    /// The skill this definition makes under the given preamble.
    #[must_use]
    pub fn into_skill(&self, preamble: &str) -> (skill: Skill)
        ensures
            skill.name@ == self.name@,
            skill.dir@ == self.dir@,
            skill.instructions@ == framed(preamble@, self.body@),
    {
        let preamble = trim(preamble);
        let body = trim(self.body.as_str());
        let mut instructions = preamble.to_owned();
        if preamble.is_empty() {
            instructions = body.to_owned();
        } else if !body.is_empty() {
            instructions.append("\n\n");
            instructions.append(body);
        }
        Skill::new(self.name.as_str(), self.dir.as_str(), instructions.as_str())
    }
}

/// How a skill file splits: what stands between its opening `---` line and the
/// closing one, and the body behind them; a file that does not open with one is all
/// body.
pub open spec fn parts(text: Seq<char>) -> (Option<Seq<char>>, Seq<char>) {
    match found(text, "\n---\n"@, 3) {
        Some(at) => if stands_at(text, "---\n"@, 0) {
            (
                Some(
                    text.subrange(
                        4,
                        if at < 4 {
                            4
                        } else {
                            at
                        },
                    ),
                ),
                text.skip(at + 5),
            )
        } else {
            (None, text)
        },
        None => (None, text),
    }
}

/// Split a skill file into its frontmatter, where it has one, and its body.
pub fn split_frontmatter(text: &str) -> (r: (Option<&str>, &str))
    ensures
        (crate::text::opt_str(r.0), r.1@) == parts(text@),
{
    proof {
        lemma_found(text@, "\n---\n"@, 3);
        reveal_strlit("\n---\n");
        reveal_strlit("---\n");
        assert("\n---\n"@.len() == 5 && "---\n"@.len() == 4);
    }
    if !starts_with(text, "---\n") {
        return (None, text);
    }
    let total: usize = text.unicode_len();
    match find_from(text, "\n---\n", 3) {
        Some(at) => {
            let end: usize = if at < 4 {
                4
            } else {
                at
            };
            proof {
                assert(text@.subrange(at + 5, total as int) =~= text@.skip(at + 5));
            }
            (Some(text.substring_char(4, end)), text.substring_char(at + 5, total))
        },
        None => (None, text),
    }
}

impl SkillDefinition {
    /// The definition a skill file in `dir` makes: its own name, where its
    /// frontmatter gives one, or else the directory's.
    pub fn new(named: Option<&str>, dir_name: &str, dir: &str, body: &str) -> (definition: Self)
        ensures
            definition.name@ == match named {
                Some(named) => named@,
                None => dir_name@,
            },
            definition.dir@ == dir@,
            definition.body@ == body@,
    {
        let name = match named {
            Some(named) => named.to_owned(),
            None => dir_name.to_owned(),
        };
        SkillDefinition { name, dir: dir.to_owned(), body: body.to_owned() }
    }
}

/// **A framed skill says both, the preamble first**: the prompt begins with the trimmed
/// preamble and ends with the trimmed body, with nothing of its own but a blank line between
/// the two; and the skill keeps its name and its directory.
pub proof fn lemma_a_framed_skill_says_both(
    definition: SkillDefinition,
    preamble: &str,
    skill: Skill,
)
    requires
        call_ensures(SkillDefinition::into_skill, (&definition, preamble), skill),
    ensures
        skill.name@ == definition.name@,
        skill.dir@ == definition.dir@,
        ({
            let (first, second) = (trimmed(preamble@), trimmed(definition.body@));
            let whole = skill.instructions@;
            let between: int = if first.len() > 0 && second.len() > 0 {
                2
            } else {
                0
            };
            &&& whole.len() == first.len() + between + second.len()
            &&& whole.take(first.len() as int) == first
            &&& whole.skip(first.len() + between) == second
            &&& between == 2 ==> whole[first.len() as int] == '\n' && whole[first.len() as int + 1]
                == '\n'
        }),
{
    reveal_strlit("\n\n");
    let (first, second) = (trimmed(preamble@), trimmed(definition.body@));
    let whole = skill.instructions@;
    if first.len() > 0 && second.len() > 0 {
        assert(whole.take(first.len() as int) =~= first);
        assert(whole.skip(first.len() as int + 2) =~= second);
    } else {
        assert(whole.take(first.len() as int) =~= first);
        assert(whole.skip(first.len() as int) =~= second);
    }
}

/// **A skill file comes apart where it was put together**: a file that opens with a `---`
/// line and closes its frontmatter with the first further one is that frontmatter and what
/// follows; any other file is all body.
pub proof fn lemma_a_skill_file_comes_apart_where_it_was_put_together(
    text: &str,
    front: Seq<char>,
    body: Seq<char>,
    r: (Option<&str>, &str),
)
    requires
        call_ensures(split_frontmatter, (text,), r),
    ensures
        text@ == "---\n"@ + front + "\n---\n"@ + body && (forall|at: int|
            3 <= at < 4 + front.len() ==> !(#[trigger] stands_at(text@, "\n---\n"@, at))) ==> {
            &&& r.0 is Some
            &&& r.0->0@ == front
            &&& r.1@ == body
        },
        text@ == "---\n---\n"@ + body ==> {
            &&& r.0 is Some
            &&& r.0->0@.len() == 0
            &&& r.1@ == body
        },
        !stands_at(text@, "---\n"@, 0) ==> r.0 is None && r.1@ == text@,
        (forall|at: int| !(#[trigger] stands_at(text@, "\n---\n"@, at))) ==> r.0 is None && r.1@
            == text@,
{
    let t = text@;
    reveal_strlit("\n---\n");
    reveal_strlit("---\n");
    reveal_strlit("---\n---\n");
    assert("\n---\n"@.len() == 5 && "---\n"@.len() == 4 && "---\n---\n"@.len() == 8);
    lemma_found(t, "\n---\n"@, 3);
    if t == "---\n"@ + front + "\n---\n"@ + body {
        let n = (4 + front.len()) as int;
        assert(t.subrange(0, 4) =~= "---\n"@);
        assert(stands_at(t, "---\n"@, 0));
        assert(t.subrange(n, n + 5) =~= "\n---\n"@);
        assert(stands_at(t, "\n---\n"@, n));
        if forall|at: int| 3 <= at < n ==> !(#[trigger] stands_at(t, "\n---\n"@, at)) {
            assert(found(t, "\n---\n"@, 3) == Some(n));
            assert(t.subrange(4, n) =~= front);
            assert(t.skip(n + 5) =~= body);
        }
    }
    if t == "---\n---\n"@ + body {
        assert(t.subrange(0, 4) =~= "---\n"@);
        assert(stands_at(t, "---\n"@, 0));
        assert(t.subrange(3, 8) =~= "\n---\n"@);
        assert(stands_at(t, "\n---\n"@, 3));
        assert(found(t, "\n---\n"@, 3) == Some(3int));
        assert(t.skip(8) =~= body);
    }
}

/// **A skill goes by the name it gives itself**, and by its directory's only where it gives
/// none.
pub proof fn lemma_a_skill_goes_by_its_own_name(
    named: Option<&str>,
    dir_name: &str,
    dir: &str,
    body: &str,
    definition: SkillDefinition,
)
    requires
        call_ensures(SkillDefinition::new, (named, dir_name, dir, body), definition),
    ensures
        named is Some ==> definition.name@ == named->0@,
        named is None ==> definition.name@ == dir_name@,
        definition.dir@ == dir@,
        definition.body@ == body@,
{
}

} // verus!
