//! The harness stand-in: it says what the markers in its prompt tell it to.

use super::marker::{all_marked, marked, marker, markers};
use crate::text::{decimal, decimal_of, join, joined, same, texts};
use vstd::prelude::*;
use vstd::string::*;

verus! {

/// A character as this stand-in writes it between quotes.
pub open spec fn plain_escaped(c: char) -> Seq<char> {
    if c == '\\' {
        seq!['\\', '\\']
    } else if c == '"' {
        seq!['\\', '"']
    } else {
        seq![c]
    }
}

/// A text as this stand-in writes it between quotes: the backslash and the quote
/// escaped, nothing else.
pub open spec fn all_plain_escaped(s: Seq<char>) -> Seq<char>
    decreases s.len(),
{
    if s.len() == 0 {
        Seq::empty()
    } else {
        all_plain_escaped(s.drop_last()) + plain_escaped(s.last())
    }
}

/// A text as a JSON string.
pub open spec fn literal(s: Seq<char>) -> Seq<char> {
    "\""@ + all_plain_escaped(s) + "\""@
}

/// A text as a JSON string. Enough for what a marker can carry.
pub fn json_string(value: &str) -> (r: String)
    ensures
        r@ == literal(value@),
{
    let total: usize = value.unicode_len();
    let mut out = String::new();
    let mut i: usize = 0;
    proof {
        assert(value@.take(0) =~= Seq::empty());
    }
    while i < total
        invariant
            i <= total,
            total == value@.len(),
            out@ == all_plain_escaped(value@.take(i as int)),
        decreases total - i,
    {
        proof {
            assert(value@.take(i + 1).last() == value@[i as int]);
            assert(value@.take(i + 1).drop_last() =~= value@.take(i as int));
        }
        let c = value.get_char(i);
        if c == '\\' {
            proof {
                reveal_strlit("\\\\");
                assert("\\\\"@ =~= seq!['\\', '\\']);
            }
            out.append("\\\\");
        } else if c == '"' {
            proof {
                reveal_strlit("\\\"");
                assert("\\\""@ =~= seq!['\\', '"']);
            }
            out.append("\\\"");
        } else {
            proof {
                assert(value@.subrange(i as int, i + 1) =~= seq![c]);
            }
            out.append(value.substring_char(i, i + 1));
        }
        i = i + 1;
    }
    proof {
        assert(value@.take(total as int) =~= value@);
    }
    let mut quoted = "\"".to_owned();
    quoted.append(out.as_str());
    quoted.append("\"");
    quoted
}

/// Everything a run was told, as one text to read markers from: its arguments, and
/// what it was given on stdin where it was told to read that.
pub open spec fn told(args: Seq<Seq<char>>, stdin: Seq<char>) -> Seq<char> {
    if reads_input(args) {
        joined(args, "\u{1f}"@) + "\u{1f}"@ + stdin
    } else {
        joined(args, "\u{1f}"@)
    }
}

/// Whether a run reads stdin: an `--input-format` with something behind it.
pub open spec fn reads_input(args: Seq<Seq<char>>) -> bool {
    exists|i: int| 0 <= i < args.len() - 1 && #[trigger] args[i] == "--input-format"@
}

/// Whether a run reads stdin.
pub fn reads_stdin(args: &[String]) -> (r: bool)
    ensures
        r == reads_input(texts(args@)),
{
    let ghost all = texts(args@);
    let mut i: usize = 0;
    while i < args.len()
        invariant
            i <= args@.len(),
            all == texts(args@),
            forall|k: int| 0 <= k < i && k < all.len() - 1 ==> #[trigger] all[k] != "--input-format"@,
        decreases args@.len() - i,
    {
        if i + 1 < args.len() && same(args[i].as_str(), "--input-format") {
            proof {
                assert(all[i as int] == "--input-format"@);
            }
            return true;
        }
        i = i + 1;
    }
    false
}

/// Everything a run was told.
pub fn steering(args: &[String], stdin: &str) -> (r: String)
    ensures
        r@ == told(texts(args@), stdin@),
{
    let mut text = join(args, "\u{1f}");
    if reads_stdin(args) {
        text.append("\u{1f}");
        text.append(stdin);
    }
    text
}

/// Whether a run was asked to stream.
pub open spec fn asks_stream(args: Seq<Seq<char>>) -> bool {
    exists|i: int|
        0 <= i < args.len() - 1 && #[trigger] args[i] == "--output-format"@ && args[i + 1]
            == "stream-json"@
}

/// Whether a run was asked to stream.
pub fn streams(args: &[String]) -> (r: bool)
    ensures
        r == asks_stream(texts(args@)),
{
    let ghost all = texts(args@);
    let mut i: usize = 0;
    while i < args.len()
        invariant
            i <= args@.len(),
            all == texts(args@),
            forall|k: int|
                0 <= k < i && k < all.len() - 1 ==> !(#[trigger] all[k] == "--output-format"@
                    && all[k + 1] == "stream-json"@),
        decreases args@.len() - i,
    {
        if i + 1 < args.len() && same(args[i].as_str(), "--output-format") && same(
            args[i + 1].as_str(),
            "stream-json",
        ) {
            proof {
                assert(all[i as int] == "--output-format"@);
                assert(all[i + 1] == "stream-json"@);
            }
            return true;
        }
        i = i + 1;
    }
    false
}

/// The line of one tool call.
pub open spec fn call_line(index: nat, command: Seq<char>) -> Seq<char> {
    "{\"type\":\"assistant\",\"message\":{\"content\":[{\"type\":\"tool_use\",\"id\":\"t"@
        + decimal(index) + "\",\"name\":\"Bash\",\"input\":{\"command\":"@ + literal(command)
        + "}}]}}"@
}

/// The lines of these tool calls, in order.
pub open spec fn call_lines(commands: Seq<Seq<char>>) -> Seq<Seq<char>> {
    Seq::new(commands.len(), |i: int| call_line(i as nat, commands[i]))
}

/// The lines of the tool calls a run is told to make, where it was asked to stream.
pub fn events(told: &str, stream: bool) -> (lines: Vec<String>)
    ensures
        texts(lines@) == if stream {
            call_lines(all_marked(told@, "event"@))
        } else {
            Seq::empty()
        },
{
    let mut lines: Vec<String> = Vec::new();
    proof {
        assert(texts(lines@) =~= Seq::empty());
    }
    if !stream {
        return lines;
    }
    let commands = markers(told, "event");
    let ghost all = texts(commands@);
    let mut i: usize = 0;
    while i < commands.len()
        invariant
            i <= commands@.len(),
            all == texts(commands@),
            texts(lines@) =~= call_lines(all.take(i as int)),
        decreases commands@.len() - i,
    {
        let mut line =
            "{\"type\":\"assistant\",\"message\":{\"content\":[{\"type\":\"tool_use\",\"id\":\"t".to_owned();
        line.append(decimal_of(i as u64).as_str());
        line.append("\",\"name\":\"Bash\",\"input\":{\"command\":");
        line.append(json_string(commands[i].as_str()).as_str());
        line.append("}}]}}");
        let ghost earlier = texts(lines@);
        lines.push(line);
        proof {
            assert(texts(lines@) =~= earlier.push(call_line(i as nat, all[i as int])));
            assert(call_lines(all.take(i + 1)) =~= call_lines(all.take(i as int)).push(
                call_line(i as nat, all[i as int]),
            ));
        }
        i = i + 1;
    }
    proof {
        assert(all.take(i as int) =~= all);
    }
    lines
}

/// The line a run ends with: its reply, `ok` where it was told none.
pub fn result_line(told: &str) -> (line: String)
    ensures
        line@ == "{\"type\":\"result\",\"subtype\":\"success\",\"is_error\":false,\"result\":"@
            + literal(
            match marked(told@, "reply"@) {
                Some(reply) => reply,
                None => "ok"@,
            },
        ) + ",\"session_id\":\"fake-harness-session\"}"@,
{
    let reply = match marker(told, "reply") {
        Some(reply) => reply,
        None => "ok",
    };
    let mut line =
        "{\"type\":\"result\",\"subtype\":\"success\",\"is_error\":false,\"result\":".to_owned();
    line.append(json_string(reply).as_str());
    line.append(",\"session_id\":\"fake-harness-session\"}");
    line
}

/// **A run is told by its arguments, and by stdin where it reads that**.
pub proof fn lemma_a_run_is_told_by_its_arguments(
    args: &[String],
    stdin: &str,
    i: int,
    reads: bool,
    streaming: bool,
    r: String,
)
    requires
        call_ensures(steering, (args, stdin), r),
        call_ensures(reads_stdin, (args,), reads),
        call_ensures(streams, (args,), streaming),
        0 <= i < args@.len(),
    ensures
        crate::text::has(r@, args@[i]@),
        reads ==> crate::text::has(r@, stdin@),
        args@[i]@ == "--input-format"@ && i + 1 < args@.len() ==> reads,
        args@[i]@ == "--output-format"@ && i + 1 < args@.len() && args@[i + 1]@ == "stream-json"@
            ==> streaming,
        (forall|k: int| 0 <= k < args@.len() ==> (#[trigger] args@[k])@ != "--input-format"@)
            ==> !reads,
        (forall|k: int| 0 <= k < args@.len() ==> (#[trigger] args@[k])@ != "stream-json"@)
            ==> !streaming,
{
    let all = texts(args@);
    assert(forall|k: int| 0 <= k < all.len() ==> #[trigger] all[k] == args@[k]@);
    let base = joined(all, "\u{1f}"@);
    crate::text::lemma_joined_has(all, "\u{1f}"@, i);
    assert(all[i] == args@[i]@);
    if reads {
        let none = Seq::<char>::empty();
        crate::text::lemma_has_between(none, base, "\u{1f}"@ + stdin@);
        assert(none + base + ("\u{1f}"@ + stdin@) =~= r@);
        crate::text::lemma_has_through(r@, base, args@[i]@);
        crate::text::lemma_has_between(base + "\u{1f}"@, stdin@, none);
        assert(base + "\u{1f}"@ + stdin@ + none =~= r@);
    }
    if i + 1 < args@.len() {
        assert(all[i + 1] == args@[i + 1]@);
    }
}

/// **A run makes the calls it is told, in their order, and only while streaming**.
pub proof fn lemma_a_run_makes_the_calls_it_is_told(
    told: &str,
    stream: bool,
    name: &str,
    commands: Vec<String>,
    i: int,
    lines: Vec<String>,
)
    requires
        call_ensures(events, (told, stream), lines),
        name@ == "event"@,
        call_ensures(markers, (told, name), commands),
    ensures
        !stream ==> lines@.len() == 0,
        stream ==> lines@.len() == commands@.len(),
        stream && 0 <= i < commands@.len() ==> crate::text::has(
            lines@[i]@,
            literal(commands@[i]@),
        ) && crate::text::has(lines@[i]@, decimal(i as nat)),
{
    let all = texts(lines@);
    assert(all.len() == lines@.len());
    let told_all = texts(commands@);
    assert(told_all.len() == commands@.len());
    if stream && 0 <= i < commands@.len() {
        assert(all[i] == lines@[i]@);
        assert(told_all[i] == commands@[i]@);
        let line = lines@[i]@;
        let front =
            "{\"type\":\"assistant\",\"message\":{\"content\":[{\"type\":\"tool_use\",\"id\":\"t"@;
        let middle = "\",\"name\":\"Bash\",\"input\":{\"command\":"@;
        let back = "}}]}}"@;
        let number = decimal(i as nat);
        let command = literal(commands@[i]@);
        assert(line == front + number + middle + command + back);
        crate::text::lemma_has_between(front + number + middle, command, back);
        crate::text::lemma_has_between(front, number, middle + command + back);
        assert(front + number + (middle + command + back) =~= line);
    }
}

/// **A literal stands between quotes, and means the text**: what needs no escape stands for
/// itself.
pub proof fn lemma_a_literal_means_the_text(value: &str, r: String)
    requires
        call_ensures(json_string, (value,), r),
    ensures
        r@.len() >= value@.len() + 2,
        r@[0] == '"' && r@.last() == '"',
        (forall|i: int|
            0 <= i < value@.len() ==> (#[trigger] value@[i]) != '"' && value@[i] != '\\') ==> r@
            == "\""@ + value@ + "\""@,
{
    reveal_strlit("\"");
    lemma_plain_text(value@);
}

proof fn lemma_plain_text(s: Seq<char>)
    ensures
        all_plain_escaped(s).len() >= s.len(),
        (forall|i: int| 0 <= i < s.len() ==> (#[trigger] s[i]) != '"' && s[i] != '\\')
            ==> all_plain_escaped(s) == s,
    decreases s.len(),
{
    if s.len() > 0 {
        let front = s.drop_last();
        lemma_plain_text(front);
        if forall|i: int| 0 <= i < s.len() ==> (#[trigger] s[i]) != '"' && s[i] != '\\' {
            assert forall|i: int| 0 <= i < front.len() implies (#[trigger] front[i]) != '"'
                && front[i] != '\\' by {
                assert(front[i] == s[i]);
            }
            assert(s[s.len() - 1] == s.last());
            assert(all_plain_escaped(s) =~= s);
        }
    } else {
        assert(all_plain_escaped(s) =~= s);
    }
}

} // verus!
