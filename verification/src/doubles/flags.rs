//! The command line of the `oneharness` stand-in, held to the flags `oneharness run`
//! takes.

use crate::text::{join, joined, same, stands_at, starts_with, texts};
use vstd::prelude::*;
use vstd::string::*;

verus! {

/// Whether a flag takes a value.
pub open spec fn takes_value(arg: Seq<char>) -> bool {
    ||| arg == "--harness"@
    ||| arg == "--model"@
    ||| arg == "--config"@
    ||| arg == "--system"@
    ||| arg == "--system-file"@
    ||| arg == "--session"@
    ||| arg == "--session-dir"@
    ||| arg == "--prompt"@
    ||| arg == "--prompt-file"@
    ||| arg == "--output-format"@
    ||| arg == "--cwd"@
    ||| arg == "--history-name"@
    ||| arg == "--mock-harness"@
}

/// Whether a flag is a toggle.
pub open spec fn is_toggle(arg: Seq<char>) -> bool {
    ||| arg == "--events"@
    ||| arg == "--compact"@
    ||| arg == "--history"@
    ||| arg == "--stream"@
    ||| arg == "--control"@
}

/// What a command line gives, in order: each flag with its value. A toggle's value
/// is empty; what is no flag is passed over.
pub open spec fn given(args: Seq<Seq<char>>) -> Result<Seq<(Seq<char>, Seq<char>)>, Seq<char>>
    decreases args.len(),
{
    if args.len() == 0 {
        Ok(Seq::empty())
    } else if takes_value(args[0]) {
        if args.len() == 1 {
            Err(args[0] + " needs a value"@)
        } else {
            match given(args.skip(2)) {
                Ok(rest) => Ok(seq![(args[0], args[1])] + rest),
                Err(why) => Err(why),
            }
        }
    } else if is_toggle(args[0]) {
        match given(args.skip(1)) {
            Ok(rest) => Ok(seq![(args[0], Seq::empty())] + rest),
            Err(why) => Err(why),
        }
    } else if stands_at(args[0], "--"@, 0) {
        Err("unrecognized flag `"@ + args[0] + "` (the fake mirrors `oneharness run`)"@)
    } else {
        given(args.skip(1))
    }
}

/// The values given to one flag, in order.
pub open spec fn values_of(given: Seq<(Seq<char>, Seq<char>)>, name: Seq<char>) -> Seq<Seq<char>>
    decreases given.len(),
{
    if given.len() == 0 {
        Seq::empty()
    } else {
        let earlier = values_of(given.drop_last(), name);
        if given.last().0 == name {
            earlier.push(given.last().1)
        } else {
            earlier
        }
    }
}

/// One flag of a command line.
#[derive(Debug, Clone, PartialEq, Eq)]
pub struct Flag {
    /// The flag.
    pub name: String,
    /// What it was given.
    pub value: String,
}

/// The flags of a command line.
#[derive(Debug, Clone, PartialEq, Eq)]
pub struct Flags {
    /// Each, in order.
    pub given: Vec<Flag>,
}

impl View for Flags {
    type V = Seq<(Seq<char>, Seq<char>)>;

    open spec fn view(&self) -> Seq<(Seq<char>, Seq<char>)> {
        Seq::new(self.given@.len(), |i: int| (self.given@[i].name@, self.given@[i].value@))
    }
}

fn needs_value(arg: &str) -> (r: bool)
    ensures
        r == takes_value(arg@),
{
    same(arg, "--harness") || same(arg, "--model") || same(arg, "--config") || same(
        arg,
        "--system",
    ) || same(arg, "--system-file") || same(arg, "--session") || same(arg, "--session-dir") || same(
        arg,
        "--prompt",
    ) || same(arg, "--prompt-file") || same(arg, "--output-format") || same(arg, "--cwd") || same(
        arg,
        "--history-name",
    ) || same(arg, "--mock-harness")
}

fn toggles(arg: &str) -> (r: bool)
    ensures
        r == is_toggle(arg@),
{
    same(arg, "--events") || same(arg, "--compact") || same(arg, "--history") || same(
        arg,
        "--stream",
    ) || same(arg, "--control")
}

/// What reading on from `rest` gives, after `done`.
spec fn resumed(
    done: Seq<(Seq<char>, Seq<char>)>,
    rest: Seq<Seq<char>>,
) -> Result<Seq<(Seq<char>, Seq<char>)>, Seq<char>> {
    match given(rest) {
        Ok(more) => Ok(done + more),
        Err(why) => Err(why),
    }
}

/// Read a command line. An unrecognized flag is refused, as is a flag without its
/// value.
pub fn parse_flags(args: &[String]) -> (r: Result<Flags, String>)
    ensures
        match r {
            Ok(flags) => given(texts(args@)) == Ok::<Seq<(Seq<char>, Seq<char>)>, Seq<char>>(
                flags@,
            ),
            Err(why) => given(texts(args@)) == Err::<Seq<(Seq<char>, Seq<char>)>, Seq<char>>(
                why@,
            ),
        },
{
    let ghost all = texts(args@);
    let mut flags = Flags { given: Vec::new() };
    let mut i: usize = 0;
    proof {
        assert(all.skip(0) =~= all);
        if given(all) is Ok {
            assert(flags@ + given(all)->Ok_0 =~= given(all)->Ok_0);
        }
    }
    while i < args.len()
        invariant
            i <= args@.len(),
            all == texts(args@),
            resumed(flags@, all.skip(i as int)) == given(all),
        decreases args@.len() - i,
    {
        let arg = args[i].as_str();
        let ghost done = flags@;
        let ghost rest = all.skip(i as int);
        proof {
            assert(rest[0] == arg@);
            assert(rest.skip(1) =~= all.skip(i + 1));
        }
        if needs_value(arg) {
            if i + 1 >= args.len() {
                let mut why = arg.to_owned();
                why.append(" needs a value");
                return Err(why);
            }
            flags.given.push(Flag { name: arg.to_owned(), value: args[i + 1].clone() });
            proof {
                assert(rest.skip(2) =~= all.skip(i + 2));
                let one = (arg@, args@[i + 1]@);
                assert(flags@ =~= done.push(one));
                if given(all.skip(i + 2)) is Ok {
                    let more = given(all.skip(i + 2))->Ok_0;
                    assert(done + (seq![one] + more) =~= done.push(one) + more);
                }
            }
            i = i + 2;
        } else {
            if toggles(arg) {
                flags.given.push(Flag { name: arg.to_owned(), value: String::new() });
                proof {
                    let one = (arg@, Seq::<char>::empty());
                    assert(flags@ =~= done.push(one));
                    if given(all.skip(i + 1)) is Ok {
                        let more = given(all.skip(i + 1))->Ok_0;
                        assert(done + (seq![one] + more) =~= done.push(one) + more);
                    }
                }
            } else if starts_with(arg, "--") {
                let mut why = "unrecognized flag `".to_owned();
                why.append(arg);
                why.append("` (the fake mirrors `oneharness run`)");
                return Err(why);
            }
            i = i + 1;
        }
    }
    proof {
        assert(all.skip(i as int) =~= Seq::empty());
        assert(flags@ + Seq::empty() =~= flags@);
    }
    Ok(flags)
}

impl Flags {
    /// Whether a flag was given.
    pub fn has(&self, name: &str) -> (r: bool)
        ensures
            r == (values_of(self@, name@).len() > 0),
    {
        self.values(name).len() > 0
    }

    /// What a flag was given; where it was given more than once, all of it, with
    /// commas between.
    pub fn value(&self, name: &str) -> (r: Option<String>)
        ensures
            crate::text::opt_text(r) == if values_of(self@, name@).len() > 0 {
                Some(joined(values_of(self@, name@), ","@))
            } else {
                None
            },
    {
        let values = self.values(name);
        if values.len() > 0 {
            Some(join(values.as_slice(), ","))
        } else {
            None
        }
    }

    fn values(&self, name: &str) -> (values: Vec<String>)
        ensures
            texts(values@) == values_of(self@, name@),
    {
        let mut values: Vec<String> = Vec::new();
        let mut i: usize = 0;
        let ghost all = self@;
        proof {
            assert(all.take(0) =~= Seq::empty());
            assert(texts(values@) =~= Seq::empty());
        }
        while i < self.given.len()
            invariant
                i <= self.given@.len(),
                all == self@,
                texts(values@) == values_of(all.take(i as int), name@),
            decreases self.given@.len() - i,
        {
            let ghost before = texts(values@);
            proof {
                assert(all.take(i + 1).last() == all[i as int]);
                assert(all.take(i + 1).drop_last() =~= all.take(i as int));
            }
            if same(self.given[i].name.as_str(), name) {
                values.push(self.given[i].value.clone());
                proof {
                    assert(texts(values@) =~= before.push(self.given@[i as int].value@));
                }
            }
            i = i + 1;
        }
        proof {
            assert(all.take(i as int) =~= all);
        }
        values
    }
}

/// Whether `init` may overwrite what is there.
pub open spec fn forced(args: Seq<Seq<char>>) -> bool {
    args.contains("--force"@)
}

/// Where `init` writes: the first argument that is no flag, or the usual place.
pub open spec fn init_path(args: Seq<Seq<char>>) -> Seq<char>
    decreases args.len(),
{
    if args.len() == 0 {
        "oneharness.toml"@
    } else if stands_at(args[0], "--"@, 0) {
        init_path(args.skip(1))
    } else {
        args[0]
    }
}

/// Read the command line of `init`: whether it is forced, and where it writes.
pub fn read_init(args: &[String]) -> (r: (bool, String))
    ensures
        r.0 == forced(texts(args@)),
        r.1@ == init_path(texts(args@)),
{
    let ghost all = texts(args@);
    let mut force = false;
    let mut path: Option<String> = None;
    let mut i: usize = 0;
    proof {
        assert(all.skip(0) =~= all);
    }
    while i < args.len()
        invariant
            i <= args@.len(),
            all == texts(args@),
            force == exists|k: int| 0 <= k < i && #[trigger] all[k] == "--force"@,
            match path {
                Some(path) => path@ == init_path(all),
                None => init_path(all.skip(i as int)) == init_path(all),
            },
        decreases args@.len() - i,
    {
        proof {
            assert(all[i as int] == args@[i as int]@);
            assert(all.skip(i as int)[0] == all[i as int]);
            assert(all.skip(i as int).skip(1) =~= all.skip(i + 1));
        }
        if same(args[i].as_str(), "--force") {
            force = true;
        }
        if path.is_none() && !starts_with(args[i].as_str(), "--") {
            path = Some(args[i].clone());
        }
        i = i + 1;
    }
    proof {
        assert(all.skip(i as int) =~= Seq::empty());
    }
    let place = match path {
        Some(path) => path,
        None => "oneharness.toml".to_owned(),
    };
    (force, place)
}

/// **A command line is read flag by flag**: a flag with its value, or a toggle, and then the
/// rest as it would be read alone; a flag without its value and an unknown one are refused.
pub proof fn lemma_a_command_line_is_read_flag_by_flag(
    args: &[String],
    rest: &[String],
    flag: String,
    value: String,
    r: Result<Flags, String>,
    q: Result<Flags, String>,
)
    requires
        call_ensures(parse_flags, (args,), r),
        call_ensures(parse_flags, (rest,), q),
    ensures
        args@ == seq![flag, value] + rest@ && (flag@ == "--session"@ || flag@ == "--system"@
            || flag@ == "--config"@ || flag@ == "--cwd"@ || flag@ == "--prompt-file"@ || flag@
            == "--mock-harness"@ || flag@ == "--history-name"@) ==> {
            &&& r is Ok <==> q is Ok
            &&& r is Ok ==> r->Ok_0@ == seq![(flag@, value@)] + q->Ok_0@
        },
        args@ == seq![flag] + rest@ && (flag@ == "--events"@ || flag@ == "--compact"@ || flag@
            == "--history"@ || flag@ == "--stream"@ || flag@ == "--control"@) ==> {
            &&& r is Ok <==> q is Ok
            &&& r is Ok ==> r->Ok_0@.len() == q->Ok_0@.len() + 1 && r->Ok_0@[0].0 == flag@
                && r->Ok_0@.skip(1) == q->Ok_0@
        },
        args@ == seq![flag] && (flag@ == "--session"@ || flag@ == "--system"@) ==> r is Err,
        args@.len() == 0 ==> r is Ok && r->Ok_0@.len() == 0,
{
    let (all, more) = (texts(args@), texts(rest@));
    if args@ == seq![flag, value] + rest@ {
        assert(all =~= seq![flag@, value@] + more);
        assert(all.skip(2) =~= more);
    }
    if args@ == seq![flag] + rest@ {
        assert(all =~= seq![flag@] + more);
        assert(all.skip(1) =~= more);
        if is_toggle(flag@) {
            lemma_toggles_take_nothing(flag@);
        }
        if r is Ok && q is Ok && is_toggle(flag@) {
            assert(r->Ok_0@.skip(1) =~= q->Ok_0@);
        }
    }
    if args@ == seq![flag] {
        assert(all =~= seq![flag@]);
    }
}

proof fn lemma_toggles_take_nothing(arg: Seq<char>)
    requires
        is_toggle(arg),
    ensures
        !takes_value(arg),
{
    reveal_strlit("--events");
    reveal_strlit("--compact");
    reveal_strlit("--history");
    reveal_strlit("--stream");
    reveal_strlit("--control");
    reveal_strlit("--harness");
    reveal_strlit("--model");
    reveal_strlit("--config");
    reveal_strlit("--system");
    reveal_strlit("--system-file");
    reveal_strlit("--session");
    reveal_strlit("--session-dir");
    reveal_strlit("--prompt");
    reveal_strlit("--prompt-file");
    reveal_strlit("--output-format");
    reveal_strlit("--cwd");
    reveal_strlit("--history-name");
    reveal_strlit("--mock-harness");
    assert("--events"@.len() == 8 && "--events"@[2] == 'e');
    assert("--compact"@.len() == 9 && "--compact"@[2] == 'c');
    assert("--history"@.len() == 9 && "--history"@[3] == 'i');
    assert("--stream"@.len() == 8 && "--stream"@[3] == 't');
    assert("--control"@.len() == 9 && "--control"@[2] == 'c');
    assert("--harness"@.len() == 9 && "--harness"@[3] == 'a');
    assert("--model"@.len() == 7);
    assert("--config"@.len() == 8 && "--config"@[2] == 'c');
    assert("--system"@.len() == 8 && "--system"@[3] == 'y');
    assert("--system-file"@.len() == 13);
    assert("--session"@.len() == 9 && "--session"@[2] == 's');
    assert("--session-dir"@.len() == 13);
    assert("--prompt"@.len() == 8 && "--prompt"@[2] == 'p');
    assert("--prompt-file"@.len() == 13);
    assert("--output-format"@.len() == 15);
    assert("--cwd"@.len() == 5);
    assert("--history-name"@.len() == 14);
    assert("--mock-harness"@.len() == 14);
}

/// **A flag's value is the one it was given**: the only one, where it stands once; and none
/// where it does not stand.
pub proof fn lemma_a_flags_value_is_the_one_given(
    flags: Flags,
    name: &str,
    i: int,
    stands: bool,
    r: Option<String>,
)
    requires
        call_ensures(Flags::has, (&flags, name), stands),
        call_ensures(Flags::value, (&flags, name), r),
    ensures
        stands <==> r is Some,
        (forall|k: int| 0 <= k < flags.given@.len() ==> (#[trigger] flags.given@[k]).name@ != name@)
            ==> !stands,
        0 <= i < flags.given@.len() && flags.given@[i].name@ == name@ && (forall|k: int|
            0 <= k < flags.given@.len() && k != i ==> (#[trigger] flags.given@[k]).name@ != name@)
            ==> r is Some && r->0@ == flags.given@[i].value@,
{
    let all = flags@;
    assert forall|k: int| 0 <= k < all.len() implies (#[trigger] all[k]).0
        == flags.given@[k].name@ by {}
    if forall|k: int| 0 <= k < flags.given@.len() ==> (#[trigger] flags.given@[k]).name@ != name@ {
        assert forall|k: int| 0 <= k < all.len() implies (#[trigger] all[k]).0 != name@ by {
            assert(flags.given@[k].name@ != name@);
        }
        lemma_values(all, name@, -1);
    }
    if 0 <= i < all.len() && all[i].0 == name@ && forall|k: int|
        0 <= k < all.len() && k != i ==> (#[trigger] flags.given@[k]).name@ != name@ {
        assert forall|k: int| 0 <= k < all.len() && k != i implies (#[trigger] all[k]).0
            != name@ by {
            assert(flags.given@[k].name@ != name@);
        }
        lemma_values(all, name@, i);
    }
}

proof fn lemma_values(all: Seq<(Seq<char>, Seq<char>)>, name: Seq<char>, i: int)
    requires
        -1 <= i < all.len(),
        i >= 0 ==> all[i].0 == name,
        forall|k: int| 0 <= k < all.len() && k != i ==> (#[trigger] all[k]).0 != name,
    ensures
        i < 0 ==> values_of(all, name).len() == 0,
        i >= 0 ==> values_of(all, name) == seq![all[i].1],
    decreases all.len(),
{
    if all.len() > 0 {
        let earlier = all.drop_last();
        let last = all.len() - 1;
        assert forall|k: int| 0 <= k < earlier.len() && k != i implies (#[trigger] earlier[k]).0
            != name by {
            assert(earlier[k] == all[k]);
        }
        if i == last {
            lemma_values(earlier, name, -1);
            assert(values_of(all, name) =~= seq![all[i].1]);
        } else {
            assert(all[last].0 != name);
            lemma_values(earlier, name, i);
        }
    }
}

} // verus!
