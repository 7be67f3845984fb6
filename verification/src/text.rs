//! Text as sequences of characters: the vocabulary every message, label and
//! argument list of this crate is specified in, and the functions that compute it.

use vstd::prelude::*;
use vstd::string::*;

verus! {

/// Whether `c` has the Unicode `White_Space` property.
pub open spec fn white(c: char) -> bool {
    let n = c as u32;
    ||| 0x9 <= n <= 0xd
    ||| n == 0x20
    ||| n == 0x85
    ||| n == 0xa0
    ||| n == 0x1680
    ||| 0x2000 <= n <= 0x200a
    ||| n == 0x2028
    ||| n == 0x2029
    ||| n == 0x202f
    ||| n == 0x205f
    ||| n == 0x3000
}

/// `s` without its leading white space.
pub open spec fn trimmed_start(s: Seq<char>) -> Seq<char>
    decreases s.len(),
{
    if s.len() > 0 && white(s[0]) {
        trimmed_start(s.drop_first())
    } else {
        s
    }
}

/// `s` without its trailing white space.
pub open spec fn trimmed_end(s: Seq<char>) -> Seq<char>
    decreases s.len(),
{
    if s.len() > 0 && white(s.last()) {
        trimmed_end(s.drop_last())
    } else {
        s
    }
}

/// `s` without white space at either end.
pub open spec fn trimmed(s: Seq<char>) -> Seq<char> {
    trimmed_end(trimmed_start(s))
}

/// Whether `s` holds nothing but white space.
pub open spec fn blank(s: Seq<char>) -> bool {
    forall|i: int| 0 <= i < s.len() ==> white(#[trigger] s[i])
}

/// The parts in order, with `sep` between two of them.
pub open spec fn joined(parts: Seq<Seq<char>>, sep: Seq<char>) -> Seq<char>
    decreases parts.len(),
{
    if parts.len() == 0 {
        Seq::empty()
    } else if parts.len() == 1 {
        parts[0]
    } else {
        joined(parts.drop_last(), sep) + sep + parts.last()
    }
}

/// Whether `needle` stands in `s` at index `at`.
pub open spec fn stands_at(s: Seq<char>, needle: Seq<char>, at: int) -> bool {
    &&& 0 <= at
    &&& at + needle.len() <= s.len()
    &&& s.subrange(at, at + needle.len()) == needle
}

/// Whether `needle` occurs in `s`.
pub open spec fn has(s: Seq<char>, needle: Seq<char>) -> bool {
    exists|at: int| stands_at(s, needle, at)
}

/// The first index from `from` on at which `needle` stands in `s`, where there is
/// one.
pub open spec fn found(s: Seq<char>, needle: Seq<char>, from: int) -> Option<int>
    decreases s.len() + 1 - from,
{
    if from < 0 || from > s.len() {
        None
    } else if stands_at(s, needle, from) {
        Some(from)
    } else {
        found(s, needle, from + 1)
    }
}

/// Looking for a text gives the first place at which it stands.
pub proof fn lemma_found(s: Seq<char>, needle: Seq<char>, from: int)
    requires
        0 <= from,
    ensures
        match found(s, needle, from) {
            Some(at) => {
                &&& from <= at
                &&& stands_at(s, needle, at)
                &&& forall|j: int| from <= j < at ==> !stands_at(s, needle, j)
            },
            None => forall|j: int| from <= j ==> !stands_at(s, needle, j),
        },
    decreases s.len() + 1 - from,
{
    if from <= s.len() && !stands_at(s, needle, from) {
        lemma_found(s, needle, from + 1);
    } else if from > s.len() {
        assert forall|j: int| from <= j implies !stands_at(s, needle, j) by {
            assert(j + needle.len() > s.len());
        }
    }
}

/// The character of one decimal digit.
pub open spec fn digit(d: nat) -> char {
    if d == 0 {
        '0'
    } else if d == 1 {
        '1'
    } else if d == 2 {
        '2'
    } else if d == 3 {
        '3'
    } else if d == 4 {
        '4'
    } else if d == 5 {
        '5'
    } else if d == 6 {
        '6'
    } else if d == 7 {
        '7'
    } else if d == 8 {
        '8'
    } else {
        '9'
    }
}

/// `n` in decimal, without leading zeros.
pub open spec fn decimal(n: nat) -> Seq<char>
    decreases n,
{
    if n < 10 {
        seq![digit(n)]
    } else {
        decimal(n / 10).push(digit(n % 10))
    }
}

/// `n` in decimal, with a leading `-` when it is negative.
pub open spec fn signed_decimal(n: int) -> Seq<char> {
    if n < 0 {
        "-"@ + decimal((-n) as nat)
    } else {
        decimal(n as nat)
    }
}

/// Whether `c` is an ASCII decimal digit.
pub open spec fn is_digit(c: char) -> bool {
    '0' <= c <= '9'
}

/// The number a run of digits stands for.
pub open spec fn digits_value(s: Seq<char>) -> nat
    decreases s.len(),
{
    if s.len() == 0 {
        0
    } else {
        (digits_value(s.drop_last()) * 10 + (s.last() as u32 - '0' as u32)) as nat
    }
}

/// The digits of an unsigned integer literal: all of it, or what follows one
/// leading `+`.
pub open spec fn unsigned_digits(s: Seq<char>) -> Seq<char> {
    if s.len() > 0 && s[0] == '+' {
        s.drop_first()
    } else {
        s
    }
}

/// The unsigned integer that `s` spells, when it spells one.
pub open spec fn unsigned_value(s: Seq<char>) -> Option<nat> {
    let digits = unsigned_digits(s);
    if digits.len() > 0 && forall|i: int| 0 <= i < digits.len() ==> is_digit(#[trigger] digits[i]) {
        Some(digits_value(digits))
    } else {
        None
    }
}

/// `c`, in lower case when it is an ASCII letter.
pub open spec fn ascii_lower(c: char) -> char {
    if 'A' <= c <= 'Z' {
        ((c as u8 + 32) as u8) as char
    } else {
        c
    }
}

/// Whether `a` and `b` are the same text when the case of ASCII letters is
/// disregarded.
pub open spec fn same_but_case(a: Seq<char>, b: Seq<char>) -> bool {
    &&& a.len() == b.len()
    &&& forall|i: int| 0 <= i < a.len() ==> ascii_lower(#[trigger] a[i]) == ascii_lower(b[i])
}

/// The views of a list of strings.
pub open spec fn texts(v: Seq<String>) -> Seq<Seq<char>> {
    Seq::new(v.len(), |i: int| v[i]@)
}

/// The view of an optional string.
pub open spec fn opt_text(o: Option<String>) -> Option<Seq<char>> {
    match o {
        Some(s) => Some(s@),
        None => None,
    }
}

/// The view of an optional string slice.
pub open spec fn opt_str(o: Option<&str>) -> Option<Seq<char>> {
    match o {
        Some(s) => Some(s@),
        None => None,
    }
}

/// Whether `a` and `b` hold the same characters.
pub fn same(a: &str, b: &str) -> (r: bool)
    ensures
        r == (a@ == b@),
{
    a.to_owned() == b.to_owned()
}

/// Whether `c` has the Unicode `White_Space` property.
pub fn is_white(c: char) -> (r: bool)
    ensures
        r == white(c),
{
    let n: u32 = c as u32;
    (0x9 <= n && n <= 0xd) || n == 0x20 || n == 0x85 || n == 0xa0 || n == 0x1680 || (0x2000 <= n
        && n <= 0x200a) || n == 0x2028 || n == 0x2029 || n == 0x202f || n == 0x205f || n == 0x3000
}

/// A trimmed text is a slice of the text.
proof fn lemma_trim_start_step(s: Seq<char>, k: int)
    requires
        0 <= k < s.len(),
        white(s[k]),
    ensures
        trimmed_start(s.skip(k)) == trimmed_start(s.skip(k + 1)),
{
    assert(s.skip(k).drop_first() =~= s.skip(k + 1));
}

proof fn lemma_trim_end_step(s: Seq<char>, k: int)
    requires
        0 < k <= s.len(),
        white(s[k - 1]),
    ensures
        trimmed_end(s.take(k)) == trimmed_end(s.take(k - 1)),
{
    assert(s.take(k).drop_last() =~= s.take(k - 1));
}

/// `s` without its leading white space.
pub fn trim_start(s: &str) -> (r: &str)
    ensures
        r@ == trimmed_start(s@),
{
    let n: usize = s.unicode_len();
    let mut k: usize = 0;
    proof {
        assert(s@.skip(0) =~= s@);
    }
    while k < n && is_white(s.get_char(k))
        invariant
            n == s@.len(),
            k <= n,
            trimmed_start(s@.skip(k as int)) == trimmed_start(s@),
        decreases n - k,
    {
        proof {
            lemma_trim_start_step(s@, k as int);
        }
        k = k + 1;
    }
    proof {
        assert(s@.subrange(k as int, n as int) =~= s@.skip(k as int));
    }
    s.substring_char(k, n)
}

/// `s` without its trailing white space.
pub fn trim_end(s: &str) -> (r: &str)
    ensures
        r@ == trimmed_end(s@),
{
    let n: usize = s.unicode_len();
    let mut k: usize = n;
    proof {
        assert(s@.take(n as int) =~= s@);
    }
    while k > 0 && is_white(s.get_char(k - 1))
        invariant
            n == s@.len(),
            k <= n,
            trimmed_end(s@.take(k as int)) == trimmed_end(s@),
        decreases k,
    {
        proof {
            lemma_trim_end_step(s@, k as int);
        }
        k = k - 1;
    }
    proof {
        assert(s@.subrange(0, k as int) =~= s@.take(k as int));
    }
    s.substring_char(0, k)
}

/// `s` without white space at either end.
pub fn trim(s: &str) -> (r: &str)
    ensures
        r@ == trimmed(s@),
{
    trim_end(trim_start(s))
}

/// A text trims to nothing exactly when it is blank.
pub proof fn lemma_blank_trims_to_nothing(s: Seq<char>)
    ensures
        blank(s) <==> trimmed(s).len() == 0,
        blank(s) <==> trimmed_start(s).len() == 0,
    decreases s.len(),
{
    if s.len() > 0 && white(s[0]) {
        let rest = s.drop_first();
        lemma_blank_trims_to_nothing(rest);
        assert(blank(s) ==> blank(rest)) by {
            if blank(s) {
                assert forall|i: int| 0 <= i < rest.len() implies white(#[trigger] rest[i]) by {
                    assert(rest[i] == s[i + 1]);
                }
            }
        }
        assert(blank(rest) ==> blank(s)) by {
            if blank(rest) {
                assert forall|i: int| 0 <= i < s.len() implies white(#[trigger] s[i]) by {
                    if i > 0 {
                        assert(s[i] == rest[i - 1]);
                    }
                }
            }
        }
    } else if s.len() > 0 {
        assert(!white(s[0]));
        lemma_trimmed_end_keeps_head(s);
    }
}

/// Trimming the end keeps a first character that is not white space.
proof fn lemma_trimmed_end_keeps_head(s: Seq<char>)
    requires
        s.len() > 0,
        !white(s[0]),
    ensures
        trimmed_end(s).len() > 0,
    decreases s.len(),
{
    if white(s.last()) {
        assert(s.len() > 1);
        assert(s.drop_last()[0] == s[0]);
        lemma_trimmed_end_keeps_head(s.drop_last());
    }
}

/// Whether `s` holds nothing but white space.
pub fn is_blank(s: &str) -> (r: bool)
    ensures
        r == blank(s@),
{
    let n: usize = s.unicode_len();
    let mut k: usize = 0;
    while k < n
        invariant
            n == s@.len(),
            k <= n,
            forall|i: int| 0 <= i < k ==> white(#[trigger] s@[i]),
        decreases n - k,
    {
        if !is_white(s.get_char(k)) {
            proof {
                assert(!white(s@[k as int]));
            }
            return false;
        }
        k = k + 1;
    }
    true
}

/// `joined` one part at a time: appending a part appends the separator first,
/// unless the part is the first.
pub proof fn lemma_joined_push(parts: Seq<Seq<char>>, part: Seq<char>, sep: Seq<char>)
    ensures
        joined(parts.push(part), sep) == if parts.len() == 0 {
            part
        } else {
            joined(parts, sep) + sep + part
        },
{
    assert(parts.push(part).drop_last() =~= parts);
}

/// The parts in order, with `sep` between two of them.
pub fn join(parts: &[String], sep: &str) -> (r: String)
    ensures
        r@ == joined(texts(parts@), sep@),
{
    let mut out = String::new();
    let mut i: usize = 0;
    proof {
        assert(texts(parts@).take(0) =~= Seq::empty());
    }
    while i < parts.len()
        invariant
            i <= parts@.len(),
            out@ == joined(texts(parts@).take(i as int), sep@),
        decreases parts@.len() - i,
    {
        proof {
            let done = texts(parts@).take(i as int);
            assert(texts(parts@).take(i + 1) =~= done.push(parts@[i as int]@));
            lemma_joined_push(done, parts@[i as int]@, sep@);
        }
        if i > 0 {
            out.append(sep);
        }
        proof {
            assert(i == 0 ==> Seq::<char>::empty() + parts@[i as int]@ =~= parts@[i as int]@);
        }
        out.append(parts[i].as_str());
        i = i + 1;
    }
    proof {
        assert(texts(parts@).take(i as int) =~= texts(parts@));
    }
    out
}

/// Whether `needle` stands in `s` at index `at`.
pub fn occurs_at(s: &str, needle: &str, at: usize) -> (r: bool)
    ensures
        r == stands_at(s@, needle@, at as int),
{
    let n: usize = s.unicode_len();
    let m: usize = needle.unicode_len();
    if at > n || m > n - at {
        return false;
    }
    same(s.substring_char(at, at + m), needle)
}

/// The first index, from `from` on, at which `needle` stands in `s`.
pub fn find_from(s: &str, needle: &str, from: usize) -> (r: Option<usize>)
    ensures
        match r {
            Some(at) => found(s@, needle@, from as int) == Some(at as int),
            None => found(s@, needle@, from as int) is None,
        },
{
    let n: usize = s.unicode_len();
    let mut at: usize = from;
    while at <= n
        invariant
            n == s@.len(),
            from <= at,
            found(s@, needle@, from as int) == found(s@, needle@, at as int),
        decreases n + 1 - at,
    {
        if occurs_at(s, needle, at) {
            return Some(at);
        }
        if at == n {
            return None;
        }
        at = at + 1;
    }
    None
}

/// Whether `needle` occurs in `s`.
pub fn contains(s: &str, needle: &str) -> (r: bool)
    ensures
        r == has(s@, needle@),
{
    proof {
        lemma_found(s@, needle@, 0);
    }
    find_from(s, needle, 0).is_some()
}

fn digit_text(d: u64) -> (r: &'static str)
    requires
        d < 10,
    ensures
        r@ == seq![digit(d as nat)],
{
    proof {
        reveal_strlit("0");
        reveal_strlit("1");
        reveal_strlit("2");
        reveal_strlit("3");
        reveal_strlit("4");
        reveal_strlit("5");
        reveal_strlit("6");
        reveal_strlit("7");
        reveal_strlit("8");
        reveal_strlit("9");
    }
    let r = if d == 0 {
        "0"
    } else if d == 1 {
        "1"
    } else if d == 2 {
        "2"
    } else if d == 3 {
        "3"
    } else if d == 4 {
        "4"
    } else if d == 5 {
        "5"
    } else if d == 6 {
        "6"
    } else if d == 7 {
        "7"
    } else if d == 8 {
        "8"
    } else {
        "9"
    };
    proof {
        assert(r@ =~= seq![digit(d as nat)]);
    }
    r
}

/// `n` in decimal.
pub fn decimal_of(n: u64) -> (r: String)
    ensures
        r@ == decimal(n as nat),
    decreases n,
{
    if n < 10 {
        digit_text(n).to_owned()
    } else {
        let mut head = decimal_of(n / 10);
        let tail = digit_text(n % 10);
        head.append(tail);
        proof {
            assert(head@ =~= decimal(n as nat));
        }
        head
    }
}

/// `n` in decimal, with a leading `-` when it is negative.
pub fn signed_decimal_of(n: i64) -> (r: String)
    ensures
        r@ == signed_decimal(n as int),
{
    if n < 0 {
        let magnitude: u64 = if n == i64::MIN {
            0x8000_0000_0000_0000u64
        } else {
            (-n) as u64
        };
        let mut out = "-".to_owned();
        out.append(decimal_of(magnitude).as_str());
        out
    } else {
        decimal_of(n as u64)
    }
}

proof fn lemma_digits_value_grows(s: Seq<char>, k: int)
    requires
        0 <= k <= s.len(),
        forall|i: int| 0 <= i < s.len() ==> is_digit(#[trigger] s[i]),
    ensures
        digits_value(s.take(k)) <= digits_value(s),
    decreases s.len() - k,
{
    if k < s.len() {
        lemma_digits_value_grows(s, k + 1);
        assert(s.take(k + 1).drop_last() =~= s.take(k));
        assert(s.take(k + 1).last() == s[k]);
        assert(is_digit(s[k]));
    } else {
        assert(s.take(k) =~= s);
    }
}

/// The unsigned 32-bit integer that `s` spells, when it spells one that fits.
pub fn parse_u32(s: &str) -> (r: Option<u32>)
    ensures
        match unsigned_value(s@) {
            Some(n) if n <= u32::MAX => r == Some(n as u32),
            _ => r is None,
        },
{
    let len: usize = s.unicode_len();
    let start: usize = if len > 0 && s.get_char(0) == '+' {
        1
    } else {
        0
    };
    let ghost digits = unsigned_digits(s@);
    proof {
        assert(digits =~= s@.skip(start as int));
    }
    if start == len {
        return None;
    }
    let mut i: usize = start;
    while i < len
        invariant
            start <= i <= len,
            start <= 1,
            len == s@.len(),
            digits == s@.skip(start as int),
            digits == unsigned_digits(s@),
            forall|j: int| 0 <= j < i - start ==> is_digit(#[trigger] digits[j]),
        decreases len - i,
    {
        let c = s.get_char(i);
        proof {
            assert(digits[i - start] == c);
        }
        if !('0' <= c && c <= '9') {
            proof {
                assert(!is_digit(digits[i - start]));
            }
            return None;
        }
        i = i + 1;
    }
    let mut value: u32 = 0;
    let mut k: usize = start;
    proof {
        assert(digits.take(0) =~= Seq::empty());
    }
    while k < len
        invariant
            start <= k <= len,
            start <= 1,
            len == s@.len(),
            digits == s@.skip(start as int),
            digits == unsigned_digits(s@),
            digits.len() > 0,
            forall|j: int| 0 <= j < digits.len() ==> is_digit(#[trigger] digits[j]),
            value == digits_value(digits.take(k - start)),
        decreases len - k,
    {
        let c = s.get_char(k);
        let ghost at = k - start;
        proof {
            assert(digits[at] == c);
            assert(is_digit(digits[at]));
            assert(digits.take(at + 1).drop_last() =~= digits.take(at));
            lemma_digits_value_grows(digits, at + 1);
        }
        let d: u32 = c as u32 - '0' as u32;
        if value > (u32::MAX - d) / 10 {
            proof {
                assert(value * 10 + d > u32::MAX);
            }
            return None;
        }
        value = value * 10 + d;
        k = k + 1;
    }
    proof {
        assert(digits.take(k - start) =~= digits);
    }
    Some(value)
}

fn lower(c: char) -> (r: char)
    ensures
        r == ascii_lower(c),
{
    if 'A' <= c && c <= 'Z' {
        ((c as u8) + 32) as char
    } else {
        c
    }
}

/// Whether `a` and `b` are the same text when the case of ASCII letters is
/// disregarded.
pub fn same_ignoring_case(a: &str, b: &str) -> (r: bool)
    ensures
        r == same_but_case(a@, b@),
{
    let n: usize = a.unicode_len();
    if n != b.unicode_len() {
        return false;
    }
    let mut i: usize = 0;
    while i < n
        invariant
            i <= n,
            n == a@.len(),
            n == b@.len(),
            forall|j: int| 0 <= j < i ==> ascii_lower(#[trigger] a@[j]) == ascii_lower(b@[j]),
        decreases n - i,
    {
        if lower(a.get_char(i)) != lower(b.get_char(i)) {
            proof {
                assert(ascii_lower(a@[i as int]) != ascii_lower(b@[i as int]));
            }
            return false;
        }
        i = i + 1;
    }
    true
}

/// The same strings once more.
pub fn copy_texts(v: &Vec<String>) -> (r: Vec<String>)
    ensures
        r@ == v@,
{
    let mut out: Vec<String> = Vec::new();
    let mut i: usize = 0;
    while i < v.len()
        invariant
            i <= v@.len(),
            out@ == v@.take(i as int),
        decreases v@.len() - i,
    {
        out.push(v[i].clone());
        i = i + 1;
        proof {
            assert(out@ =~= v@.take(i as int));
        }
    }
    proof {
        assert(v@.take(i as int) =~= v@);
    }
    out
}

/// The same optional string once more.
pub fn copy_opt(o: &Option<String>) -> (r: Option<String>)
    ensures
        r == *o,
{
    match o {
        Some(s) => Some(s.clone()),
        None => None,
    }
}

/// The first `count` characters of `s`, or all of it when it is shorter.
pub fn head(s: &str, count: usize) -> (r: &str)
    ensures
        r@ == s@.take(if s@.len() < count {
            s@.len() as int
        } else {
            count as int
        }),
{
    let n: usize = s.unicode_len();
    let k: usize = if n < count {
        n
    } else {
        count
    };
    proof {
        assert(s@.subrange(0, k as int) =~= s@.take(k as int));
    }
    s.substring_char(0, k)
}

/// What stands before the first `sep`, or all of it.
pub open spec fn first_piece(s: Seq<char>, sep: Seq<char>) -> Seq<char> {
    match found(s, sep, 0) {
        Some(at) => s.take(at),
        None => s,
    }
}

/// What stands between the first `sep` and the next (or the end), where there is a
/// first.
pub open spec fn second_piece(s: Seq<char>, sep: Seq<char>) -> Option<Seq<char>> {
    match found(s, sep, 0) {
        Some(at) => Some(first_piece(s.skip(at + sep.len()), sep)),
        None => None,
    }
}

/// What stands before the first `sep`, or all of it.
pub fn before<'a>(s: &'a str, sep: &str) -> (r: &'a str)
    ensures
        r@ == first_piece(s@, sep@),
{
    proof {
        lemma_found(s@, sep@, 0);
    }
    match find_from(s, sep, 0) {
        Some(at) => {
            proof {
                assert(s@.subrange(0, at as int) =~= s@.take(at as int));
            }
            s.substring_char(0, at)
        },
        None => s,
    }
}

/// What stands between the first `sep` and the next (or the end), where there is a
/// first.
pub fn between<'a>(s: &'a str, sep: &str) -> (r: Option<&'a str>)
    ensures
        opt_str(r) == second_piece(s@, sep@),
{
    proof {
        lemma_found(s@, sep@, 0);
    }
    match find_from(s, sep, 0) {
        Some(at) => {
            let end: usize = s.unicode_len();
            let start: usize = at + sep.unicode_len();
            proof {
                assert(s@.subrange(start as int, end as int) =~= s@.skip(start as int));
            }
            Some(before(s.substring_char(start, end), sep))
        },
        None => None,
    }
}

/// What stands before the first `sep` in `s` and what stands after it, where there is
/// one.
pub open spec fn halves(s: Seq<char>, sep: Seq<char>) -> Option<(Seq<char>, Seq<char>)> {
    match found(s, sep, 0) {
        Some(at) => Some((s.take(at), s.skip(at + sep.len()))),
        None => None,
    }
}

/// Split `s` at the first `sep`.
pub fn split_once<'a>(s: &'a str, sep: &str) -> (r: Option<(&'a str, &'a str)>)
    ensures
        match r {
            Some((first, rest)) => halves(s@, sep@) == Some((first@, rest@)),
            None => halves(s@, sep@) is None,
        },
{
    proof {
        lemma_found(s@, sep@, 0);
    }
    let total: usize = s.unicode_len();
    let width: usize = sep.unicode_len();
    match find_from(s, sep, 0) {
        Some(at) => {
            let first = s.substring_char(0, at);
            let rest = s.substring_char(at + width, total);
            proof {
                assert(s@.subrange(0, at as int) =~= s@.take(at as int));
                assert(s@.subrange(at + width, total as int) =~= s@.skip(at + width));
            }
            Some((first, rest))
        },
        None => None,
    }
}

/// Whether `s` begins with `prefix`.
pub fn starts_with(s: &str, prefix: &str) -> (r: bool)
    ensures
        r == stands_at(s@, prefix@, 0),
{
    occurs_at(s, prefix, 0)
}

/// The pieces of a text between the places where `c` stands.
pub open spec fn pieces(s: Seq<char>, c: char) -> Seq<Seq<char>>
    decreases s.len(),
{
    if s.len() == 0 {
        seq![Seq::empty()]
    } else {
        let earlier = pieces(s.drop_last(), c);
        if s.last() == c {
            earlier.push(Seq::empty())
        } else {
            earlier.drop_last().push(earlier.last().push(s.last()))
        }
    }
}

/// The pieces of a text between the places where `c` stands.
pub fn split(s: &str, c: char) -> (r: Vec<String>)
    ensures
        texts(r@) == pieces(s@, c),
{
    let n: usize = s.unicode_len();
    let mut done: Vec<String> = Vec::new();
    let mut start: usize = 0;
    let mut i: usize = 0;
    proof {
        assert(s@.take(0) =~= Seq::empty());
        assert(s@.subrange(0, 0) =~= Seq::empty());
        assert(texts(done@).push(s@.subrange(0, 0)) =~= pieces(s@.take(0), c));
    }
    while i < n
        invariant
            start <= i <= n,
            n == s@.len(),
            texts(done@).push(s@.subrange(start as int, i as int)) == pieces(s@.take(i as int), c),
        decreases n - i,
    {
        let ghost now = s@.take(i + 1);
        let ghost earlier = pieces(s@.take(i as int), c);
        let ghost so_far = texts(done@);
        proof {
            assert(now.drop_last() =~= s@.take(i as int));
            assert(earlier.drop_last() =~= so_far);
        }
        if s.get_char(i) == c {
            done.push(s.substring_char(start, i).to_owned());
            start = i + 1;
            proof {
                assert(texts(done@) =~= earlier);
                assert(s@.subrange(start as int, i + 1) =~= Seq::empty());
            }
        } else {
            proof {
                assert(s@.subrange(start as int, i + 1) =~= s@.subrange(
                    start as int,
                    i as int,
                ).push(s@[i as int]));
            }
        }
        i = i + 1;
    }
    proof {
        assert(s@.take(i as int) =~= s@);
    }
    let ghost so_far = texts(done@);
    done.push(s.substring_char(start, n).to_owned());
    proof {
        assert(texts(done@) =~= so_far.push(s@.subrange(start as int, n as int)));
    }
    done
}

/// The signed integer that `s` spells, when it spells one that fits.
pub open spec fn signed_value(s: Seq<char>) -> Option<int> {
    if s.len() > 0 && s[0] == '-' {
        match digits_only(s.drop_first()) {
            Some(n) => Some(-(n as int)),
            None => None,
        }
    } else {
        match unsigned_value(s) {
            Some(n) => Some(n as int),
            None => None,
        }
    }
}

/// The number a run of digits stands for, where there is nothing but digits.
pub open spec fn digits_only(s: Seq<char>) -> Option<nat> {
    if s.len() > 0 && forall|i: int| 0 <= i < s.len() ==> is_digit(#[trigger] s[i]) {
        Some(digits_value(s))
    } else {
        None
    }
}

/// The signed 32-bit integer that `s` spells, when it spells one that fits.
pub fn parse_i32(s: &str) -> (r: Option<i32>)
    ensures
        match signed_value(s@) {
            Some(n) if i32::MIN <= n <= i32::MAX => r == Some(n as i32),
            _ => r is None,
        },
{
    let len: usize = s.unicode_len();
    if len > 0 && s.get_char(0) == '-' {
        let rest = s.substring_char(1, len);
        proof {
            assert(rest@ =~= s@.drop_first());
        }
        if len > 1 && rest.get_char(0) == '+' {
            proof {
                assert(!is_digit(rest@[0]));
            }
            return None;
        }
        proof {
            assert(unsigned_digits(rest@) =~= rest@);
        }
        return match parse_u32(rest) {
            Some(n) => if n <= 0x8000_0000u32 {
                Some((-(n as i64)) as i32)
            } else {
                None
            },
            None => None,
        };
    }
    match parse_u32(s) {
        Some(n) => if n <= 0x7fff_ffffu32 {
            Some(n as i32)
        } else {
            None
        },
        None => None,
    }
}

/// A text occurs in whatever it was put into.
pub proof fn lemma_has_between(a: Seq<char>, b: Seq<char>, c: Seq<char>)
    ensures
        has(a + b + c, b),
{
    let whole = a + b + c;
    assert(whole.subrange(a.len() as int, (a.len() + b.len()) as int) =~= b);
    assert(stands_at(whole, b, a.len() as int));
}

/// What occurs in a part of a text occurs in the text.
pub proof fn lemma_has_through(a: Seq<char>, b: Seq<char>, c: Seq<char>)
    requires
        has(a, b),
        has(b, c),
    ensures
        has(a, c),
{
    let i = choose|i: int| stands_at(a, b, i);
    let j = choose|j: int| stands_at(b, c, j);
    assert(a.subrange(i + j, i + j + c.len()) =~= b.subrange(j, j + c.len()));
    assert(stands_at(a, c, i + j));
}

/// Each part occurs in what the parts are joined to.
pub proof fn lemma_joined_has(parts: Seq<Seq<char>>, sep: Seq<char>, i: int)
    requires
        0 <= i < parts.len(),
    ensures
        has(joined(parts, sep), parts[i]),
    decreases parts.len(),
{
    let earlier = parts.drop_last();
    let last = parts.last();
    assert(parts =~= earlier.push(last));
    lemma_joined_push(earlier, last, sep);
    let none = Seq::<char>::empty();
    if i == parts.len() - 1 {
        if earlier.len() == 0 {
            lemma_has_between(none, last, none);
            assert(none + last + none =~= last);
        } else {
            let front = joined(earlier, sep) + sep;
            lemma_has_between(front, last, none);
            assert(front + last + none =~= joined(earlier, sep) + sep + last);
        }
    } else {
        lemma_joined_has(earlier, sep, i);
        assert(earlier[i] == parts[i]);
        lemma_has_between(none, joined(earlier, sep), sep + last);
        assert(none + joined(earlier, sep) + (sep + last) =~= joined(earlier, sep) + sep + last);
        lemma_has_through(joined(parts, sep), joined(earlier, sep), parts[i]);
    }
}

/// Whether `s` is these parts and nothing else, `sep` between two of them: part `i`
/// stands at `at[i]`, the separator right behind it, and the next part right behind that.
pub open spec fn laid_out(
    s: Seq<char>,
    parts: Seq<Seq<char>>,
    sep: Seq<char>,
    at: Seq<int>,
) -> bool {
    &&& at.len() == parts.len()
    &&& parts.len() == 0 ==> s.len() == 0
    &&& parts.len() > 0 ==> at[0] == 0 && at.last() + parts.last().len() == s.len()
    &&& forall|i: int| 0 <= i < parts.len() ==> stands_at(s, parts[i], #[trigger] at[i])
    &&& forall|i: int|
        0 < i < parts.len() ==> {
            &&& (#[trigger] at[i]) == at[i - 1] + parts[i - 1].len() + sep.len()
            &&& stands_at(s, sep, at[i] - sep.len())
        }
}

/// **Joining loses nothing, adds nothing and keeps the order**: what parts are joined to
/// is the parts, one after another, with the separator between two of them.
pub proof fn lemma_joined_is_laid_out(parts: Seq<Seq<char>>, sep: Seq<char>)
    ensures
        exists|at: Seq<int>| laid_out(joined(parts, sep), parts, sep, at),
    decreases parts.len(),
{
    let whole = joined(parts, sep);
    if parts.len() == 0 {
        assert(laid_out(whole, parts, sep, Seq::empty()));
    } else if parts.len() == 1 {
        assert(whole.subrange(0, parts[0].len() as int) =~= parts[0]);
        assert(laid_out(whole, parts, sep, seq![0int]));
    } else {
        let earlier = parts.drop_last();
        let front = joined(earlier, sep);
        lemma_joined_is_laid_out(earlier, sep);
        let at = choose|at: Seq<int>| laid_out(front, earlier, sep, at);
        let last = parts.last();
        let all = at.push((front.len() + sep.len()) as int);
        assert forall|i: int| 0 <= i < parts.len() implies stands_at(
            whole,
            parts[i],
            #[trigger] all[i],
        ) by {
            if i < earlier.len() {
                assert(stands_at(front, earlier[i], at[i]));
                assert(whole.subrange(at[i], at[i] + parts[i].len()) =~= front.subrange(
                    at[i],
                    at[i] + parts[i].len(),
                ));
            } else {
                assert(whole.subrange(all[i], all[i] + last.len()) =~= last);
            }
        }
        assert forall|i: int| 0 < i < parts.len() implies {
            &&& (#[trigger] all[i]) == all[i - 1] + parts[i - 1].len() + sep.len()
            &&& stands_at(whole, sep, all[i] - sep.len())
        } by {
            if i < earlier.len() {
                assert(at[i] == at[i - 1] + earlier[i - 1].len() + sep.len());
                let place = at[i] - sep.len();
                assert(stands_at(front, sep, place));
                assert(whole.subrange(place, place + sep.len()) =~= front.subrange(
                    place,
                    place + sep.len(),
                ));
            } else {
                let place = front.len() as int;
                assert(whole.subrange(place, place + sep.len()) =~= sep);
                assert(earlier.last() == parts[i - 1]);
            }
        }
        assert(laid_out(whole, parts, sep, all));
    }
}

/// Whether these texts stand in `s` one after another, `at` their places: none begins
/// before the one before it has ended.
pub open spec fn stand_in_order(s: Seq<char>, parts: Seq<Seq<char>>, at: Seq<int>) -> bool {
    &&& at.len() == parts.len()
    &&& forall|i: int| 0 <= i < parts.len() ==> stands_at(s, parts[i], #[trigger] at[i])
    &&& forall|i: int, j: int|
        0 <= i < j < parts.len() ==> (#[trigger] at[i]) + parts[i].len() <= #[trigger] at[j]
}

/// Whether these texts stand in `s` one after another.
pub open spec fn has_in_order(s: Seq<char>, parts: Seq<Seq<char>>) -> bool {
    exists|at: Seq<int>| stand_in_order(s, parts, at)
}

/// Joined parts stand one after another.
pub proof fn lemma_joined_in_order(parts: Seq<Seq<char>>, sep: Seq<char>)
    ensures
        has_in_order(joined(parts, sep), parts),
{
    lemma_joined_is_laid_out(parts, sep);
    let whole = joined(parts, sep);
    let at = choose|at: Seq<int>| laid_out(whole, parts, sep, at);
    assert forall|i: int, j: int| 0 <= i < j < parts.len() implies (#[trigger] at[i])
        + parts[i].len() <= #[trigger] at[j] by {
        lemma_laid_out_apart(whole, parts, sep, at, i, j);
    }
    assert(stand_in_order(whole, parts, at));
}

proof fn lemma_laid_out_apart(
    s: Seq<char>,
    parts: Seq<Seq<char>>,
    sep: Seq<char>,
    at: Seq<int>,
    i: int,
    j: int,
)
    requires
        laid_out(s, parts, sep, at),
        0 <= i < j < parts.len(),
    ensures
        at[i] + parts[i].len() <= at[j],
    decreases j,
{
    assert(at[j] == at[j - 1] + parts[j - 1].len() + sep.len());
    if i < j - 1 {
        lemma_laid_out_apart(s, parts, sep, at, i, j - 1);
    }
}

/// What stands in order in a text stands in order in what that text stands in.
pub proof fn lemma_in_order_within(whole: Seq<char>, s: Seq<char>, parts: Seq<Seq<char>>)
    requires
        has(whole, s),
        has_in_order(s, parts),
    ensures
        has_in_order(whole, parts),
{
    let from = choose|from: int| stands_at(whole, s, from);
    let at = choose|at: Seq<int>| stand_in_order(s, parts, at);
    let moved = Seq::new(at.len(), |i: int| at[i] + from);
    assert forall|i: int| 0 <= i < parts.len() implies stands_at(
        whole,
        parts[i],
        #[trigger] moved[i],
    ) by {
        assert(stands_at(s, parts[i], at[i]));
        assert(whole.subrange(moved[i], moved[i] + parts[i].len()) =~= s.subrange(
            at[i],
            at[i] + parts[i].len(),
        ));
    }
    assert(stand_in_order(whole, parts, moved));
}

/// What each part opens with stands in order where the parts do.
pub proof fn lemma_in_order_inside(
    whole: Seq<char>,
    parts: Seq<Seq<char>>,
    inner: Seq<Seq<char>>,
    from: Seq<int>,
)
    requires
        has_in_order(whole, parts),
        inner.len() == parts.len(),
        from.len() == parts.len(),
        forall|i: int| 0 <= i < parts.len() ==> stands_at(parts[i], inner[i], #[trigger] from[i]),
    ensures
        has_in_order(whole, inner),
{
    let at = choose|at: Seq<int>| stand_in_order(whole, parts, at);
    let moved = Seq::new(at.len(), |i: int| at[i] + from[i]);
    assert forall|i: int| 0 <= i < inner.len() implies stands_at(
        whole,
        inner[i],
        #[trigger] moved[i],
    ) by {
        assert(stands_at(parts[i], inner[i], from[i]));
        assert(stands_at(whole, parts[i], at[i]));
        assert(whole.subrange(moved[i], moved[i] + inner[i].len()) =~= parts[i].subrange(
            from[i],
            from[i] + inner[i].len(),
        ));
    }
    assert forall|i: int, j: int| 0 <= i < j < inner.len() implies (#[trigger] moved[i])
        + inner[i].len() <= #[trigger] moved[j] by {
        assert(stands_at(parts[i], inner[i], from[i]));
        assert(stands_at(parts[j], inner[j], from[j]));
        assert(at[i] + parts[i].len() <= at[j]);
    }
    assert(stand_in_order(whole, inner, moved));
}

/// **Trimming takes white space away and nothing else**: what is left begins and ends
/// with something, and only white space stood around it.
pub proof fn lemma_trimming_takes_white_space_only(s: Seq<char>)
    ensures
        exists|front: Seq<char>, back: Seq<char>|
            s == #[trigger] (front + trimmed(s) + back) && blank(front) && blank(back),
        trimmed(s).len() > 0 ==> !white(trimmed(s)[0]) && !white(trimmed(s).last()),
{
    lemma_start_taken(s);
    let rest = trimmed_start(s);
    lemma_end_taken(rest);
    let kept = trimmed_end(rest);
    let front = s.take(s.len() - rest.len());
    let back = rest.skip(kept.len() as int);
    assert(s =~= front + kept + back);
    assert forall|i: int| 0 <= i < back.len() implies white(#[trigger] back[i]) by {
        assert(back[i] == rest[kept.len() + i]);
    }
    if kept.len() > 0 {
        assert(kept[0] == rest[0]);
    }
    assert(front + trimmed(s) + back == s);
    assert(blank(front) && blank(back));
}

proof fn lemma_start_taken(s: Seq<char>)
    ensures
        trimmed_start(s).len() <= s.len(),
        trimmed_start(s) == s.skip(s.len() - trimmed_start(s).len()),
        blank(s.take(s.len() - trimmed_start(s).len())),
        trimmed_start(s).len() > 0 ==> !white(trimmed_start(s)[0]),
    decreases s.len(),
{
    if s.len() > 0 && white(s[0]) {
        let rest = s.drop_first();
        lemma_start_taken(rest);
        let kept = trimmed_start(s);
        assert(kept =~= s.skip(s.len() - kept.len()));
        let front = s.take(s.len() - kept.len());
        assert forall|i: int| 0 <= i < front.len() implies white(#[trigger] front[i]) by {
            if i > 0 {
                assert(front[i] == rest.take(rest.len() - kept.len())[i - 1]);
            }
        }
    } else {
        assert(s =~= s.skip(0));
        assert(s.take(0) =~= Seq::empty());
    }
}

proof fn lemma_end_taken(s: Seq<char>)
    ensures
        trimmed_end(s).len() <= s.len(),
        trimmed_end(s) == s.take(trimmed_end(s).len() as int),
        forall|i: int| trimmed_end(s).len() <= i < s.len() ==> white(#[trigger] s[i]),
        trimmed_end(s).len() > 0 ==> !white(trimmed_end(s).last()),
    decreases s.len(),
{
    if s.len() > 0 && white(s.last()) {
        let rest = s.drop_last();
        lemma_end_taken(rest);
        let kept = trimmed_end(s);
        assert(kept =~= s.take(kept.len() as int));
        assert forall|i: int| kept.len() <= i < s.len() implies white(#[trigger] s[i]) by {
            if i < rest.len() {
                assert(rest[i] == s[i]);
            }
        }
    } else {
        assert(s =~= s.take(s.len() as int));
    }
}

/// **A number is written as itself**: its digits, read again, give it back, and none of
/// them is superfluous.
pub proof fn lemma_decimal_reads_back(n: nat)
    ensures
        decimal(n).len() > 0,
        forall|i: int| 0 <= i < decimal(n).len() ==> is_digit(#[trigger] decimal(n)[i]),
        digits_value(decimal(n)) == n,
        n > 0 ==> decimal(n)[0] != '0',
    decreases n,
{
    if n < 10 {
        assert(decimal(n).drop_last() =~= Seq::empty());
        assert(digits_value(decimal(n).drop_last()) == 0);
    } else {
        lemma_decimal_reads_back(n / 10);
        let front = decimal(n / 10);
        let all = decimal(n);
        assert(all.drop_last() =~= front);
        assert forall|i: int| 0 <= i < all.len() implies is_digit(#[trigger] all[i]) by {
            if i < front.len() {
                assert(all[i] == front[i]);
            }
        }
        assert(all[0] == front[0]);
    }
}

// --- What the operations give -----------------------------------------------
/// **White space is what Unicode says**: a tab, a line break and a space are, a no-break
/// space too, and no printing ASCII character is.
pub proof fn lemma_what_is_white(c: char, r: bool)
    requires
        call_ensures(is_white, (c,), r),
    ensures
        c == ' ' || c == '\t' || c == '\n' || c == '\r' || c == '\u{a0}' ==> r,
        '!' <= c <= '~' ==> !r,
{
}

/// **What is trimmed is inside**: only white space is taken, all of it at the ends, and
/// nothing is left exactly where there was nothing else.
pub proof fn lemma_trim_takes_white_space_only(s: &str, t: &str, r: bool)
    requires
        call_ensures(trim, (s,), t),
        call_ensures(is_blank, (s,), r),
    ensures
        exists|front: Seq<char>, back: Seq<char>|
            s@ == #[trigger] (front + t@ + back) && (forall|i: int|
                0 <= i < front.len() ==> white(#[trigger] front[i])) && (forall|i: int|
                0 <= i < back.len() ==> white(#[trigger] back[i])),
        t@.len() > 0 ==> !white(t@[0]) && !white(t@.last()),
        r <==> t@.len() == 0,
        r <==> forall|i: int| 0 <= i < s@.len() ==> white(#[trigger] s@[i]),
{
    lemma_trimming_takes_white_space_only(s@);
    lemma_blank_trims_to_nothing(s@);
    let (front, back) = choose|front: Seq<char>, back: Seq<char>|
        s@ == #[trigger] (front + trimmed(s@) + back) && blank(front) && blank(back);
    assert(s@ == front + t@ + back && blank(front) && blank(back));
    if t@.len() > 0 {
        assert(s@[front.len() as int] == t@[0]);
    } else {
        assert forall|i: int| 0 <= i < s@.len() implies white(#[trigger] s@[i]) by {
            if i < front.len() {
                assert(s@[i] == front[i]);
            } else {
                assert(s@[i] == back[i - front.len()]);
            }
        }
    }
}

/// **What is looked for is found where it first stands**, and only there.
pub proof fn lemma_the_first_place_is_found(
    s: &str,
    needle: &str,
    from: usize,
    at: Option<usize>,
    r: bool,
)
    requires
        call_ensures(find_from, (s, needle, from), at),
        call_ensures(contains, (s, needle), r),
    ensures
        at is Some ==> {
            &&& from <= at->0
            &&& at->0 + needle@.len() <= s@.len()
            &&& forall|i: int|
                0 <= i < needle@.len() ==> s@[at->0 + i] == #[trigger] needle@[i]
        },
        forall|front: Seq<char>, back: Seq<char>|
            s@ == #[trigger] (front + needle@ + back) ==> r && (front.len() >= from ==> at is Some
                && at->0 <= front.len()),
        r ==> exists|front: Seq<char>, back: Seq<char>| s@ == #[trigger] (front + needle@ + back),
{
    lemma_found(s@, needle@, from as int);
    if at is Some {
        let k = at->0 as int;
        assert forall|i: int| 0 <= i < needle@.len() implies s@[k + i]
            == #[trigger] needle@[i] by {
            assert(s@.subrange(k, k + needle@.len())[i] == s@[k + i]);
        }
    }
    assert forall|front: Seq<char>, back: Seq<char>|
        s@ == #[trigger] (front + needle@ + back) implies r && (front.len() >= from ==> at is Some
        && at->0 <= front.len()) by {
        let n = front.len() as int;
        assert(s@.subrange(n, n + needle@.len()) =~= needle@);
        assert(stands_at(s@, needle@, n));
    }
    if r {
        let k = choose|k: int| stands_at(s@, needle@, k);
        let (front, back) = (s@.take(k), s@.skip(k + needle@.len()));
        assert(s@ =~= front + needle@ + back);
    }
}

/// **A joined text is its parts, one after another**, with the separator between two.
pub proof fn lemma_a_joined_text_is_its_parts(parts: &[String], sep: &str, r: String)
    requires
        call_ensures(join, (parts, sep), r),
    ensures
        exists|at: Seq<int>| laid_out(r@, texts(parts@), sep@, at),
        parts@.len() == 0 ==> r@.len() == 0,
        parts@.len() == 1 ==> r@ == parts@[0]@,
        parts@.len() == 2 ==> r@ == parts@[0]@ + sep@ + parts@[1]@,
{
    let all = texts(parts@);
    lemma_joined_is_laid_out(all, sep@);
    if parts@.len() == 2 {
        assert(all.drop_last()[0] == parts@[0]@);
        assert(joined(all.drop_last(), sep@) == parts@[0]@);
    }
}

/// **A number that is written is read back**: its decimal text spells it, without a sign, a
/// blank or a superfluous zero.
pub proof fn lemma_a_written_number_is_read_back(n: u64, s: String, t: &str, r: Option<u32>)
    requires
        call_ensures(decimal_of, (n,), s),
        t@ == s@,
        call_ensures(parse_u32, (t,), r),
    ensures
        n <= u32::MAX ==> r == Some(n as u32),
        n > u32::MAX ==> r is None,
        s@.len() > 0,
        forall|i: int| 0 <= i < s@.len() ==> '0' <= #[trigger] s@[i] <= '9',
        n > 0 ==> s@[0] != '0',
        n < 10 ==> s@.len() == 1 && s@[0] as u32 == '0' as u32 + n,
{
    lemma_decimal_reads_back(n as nat);
    assert(unsigned_digits(s@) == s@) by {
        assert(is_digit(s@[0]));
    }
    assert forall|i: int| 0 <= i < s@.len() implies '0' <= #[trigger] s@[i] <= '9' by {
        assert(is_digit(decimal(n as nat)[i]));
    }
}

/// **One more digit is ten times as much and that digit**: how a numeral is read, whatever
/// stands before its last digit; and what is no numeral is no number.
pub proof fn lemma_a_numeral_is_read_by_its_digits(
    s: &str,
    longer: &str,
    c: char,
    r: Option<u32>,
    q: Option<u32>,
)
    requires
        call_ensures(parse_u32, (s,), r),
        call_ensures(parse_u32, (longer,), q),
        longer@ == s@.push(c),
    ensures
        r is Some && '0' <= c <= '9' && r->0 * 10 + (c as u32 - '0' as u32) <= u32::MAX
            ==> q is Some && q->0 == r->0 * 10 + (c as u32 - '0' as u32),
        !('0' <= c <= '9' || (c == '+' && s@.len() == 0)) ==> q is None,
        s@.len() == 0 ==> r is None,
{
    let (a, b) = (unsigned_digits(s@), unsigned_digits(longer@));
    if r is Some {
        assert(s@.len() > 0);
        assert(longer@[0] == s@[0]);
        assert(b =~= a.push(c));
        assert(b.drop_last() =~= a);
        if '0' <= c <= '9' {
            assert forall|i: int| 0 <= i < b.len() implies is_digit(#[trigger] b[i]) by {
                if i < a.len() {
                    assert(b[i] == a[i]);
                }
            }
        }
    }
    if !('0' <= c <= '9' || (c == '+' && s@.len() == 0)) {
        if s@.len() > 0 {
            assert(longer@[0] == s@[0]);
        } else {
            assert(longer@ =~= seq![c]);
        }
        assert(b.len() > 0 ==> b.last() == c);
        assert(b.len() > 0 ==> !is_digit(b[b.len() - 1]));
    }
}

/// **A text is split at the first separator**: what stands before it, and what stands behind
/// it; unsplit where there is none.
pub proof fn lemma_a_text_is_split_at_the_first_separator(
    s: &str,
    sep: &str,
    halved: Option<(&str, &str)>,
    head: &str,
)
    requires
        call_ensures(split_once, (s, sep), halved),
        call_ensures(before, (s, sep), head),
    ensures
        halved is Some ==> {
            &&& s@ == (halved->0).0@ + sep@ + (halved->0).1@
            &&& head@ == (halved->0).0@
            &&& forall|front: Seq<char>, back: Seq<char>|
                s@ == #[trigger] (front + sep@ + back) ==> front.len() >= head@.len()
        },
        halved is None ==> head@ == s@ && forall|front: Seq<char>, back: Seq<char>|
            s@ != #[trigger] (front + sep@ + back),
{
    lemma_found(s@, sep@, 0);
    assert forall|front: Seq<char>, back: Seq<char>|
        s@ == #[trigger] (front + sep@ + back) implies stands_at(
        s@,
        sep@,
        front.len() as int,
    ) by {
        let n = front.len() as int;
        assert(s@.subrange(n, n + sep@.len()) =~= sep@);
    }
    if halved is Some {
        assert(s@ =~= (halved->0).0@ + sep@ + (halved->0).1@);
    }
}

/// **Case is all that is disregarded**: equal texts are the same, texts of different length
/// are not, and two that differ in anything but the case of a letter are not.
pub proof fn lemma_case_is_all_that_is_disregarded(a: &str, b: &str, i: int, r: bool, q: bool)
    requires
        call_ensures(same_ignoring_case, (a, b), r),
        call_ensures(same_ignoring_case, (b, a), q),
        0 <= i < a@.len(),
    ensures
        r == q,
        a@ == b@ ==> r,
        a@.len() != b@.len() ==> !r,
        r && !('a' <= a@[i] <= 'z' || 'A' <= a@[i] <= 'Z') ==> b@[i] == a@[i],
        r && 'a' <= a@[i] <= 'z' ==> b@[i] == a@[i] || b@[i] as u32 + 32 == a@[i] as u32,
{
    if r {
        assert(ascii_lower(a@[i]) == ascii_lower(b@[i]));
        assert forall|k: int| 0 <= k < b@.len() implies ascii_lower(#[trigger] b@[k])
            == ascii_lower(a@[k]) by {
            assert(ascii_lower(a@[k]) == ascii_lower(b@[k]));
        }
    }
    if q {
        assert forall|k: int| 0 <= k < a@.len() implies ascii_lower(#[trigger] a@[k])
            == ascii_lower(b@[k]) by {
            assert(ascii_lower(b@[k]) == ascii_lower(a@[k]));
        }
    }
}

proof fn lemma_pieces_join(s: Seq<char>, c: char)
    ensures
        pieces(s, c).len() > 0,
        joined(pieces(s, c), seq![c]) == s,
        forall|k: int| 0 <= k < pieces(s, c).len() ==> !(#[trigger] pieces(s, c)[k]).contains(c),
    decreases s.len(),
{
    let all = pieces(s, c);
    let sep = seq![c];
    if s.len() == 0 {
        assert(all[0] =~= Seq::empty());
        assert(joined(all, sep) =~= s);
    } else {
        let front = s.drop_last();
        let earlier = pieces(front, c);
        lemma_pieces_join(front, c);
        if s.last() == c {
            lemma_joined_push(earlier, Seq::empty(), sep);
            assert(all.drop_last() =~= earlier);
            assert(joined(all, sep) =~= s);
            assert forall|k: int| 0 <= k < all.len() implies !(#[trigger] all[k]).contains(c) by {
                if k < earlier.len() {
                    assert(all[k] == earlier[k]);
                }
            }
        } else {
            let most = earlier.drop_last();
            let last = earlier.last();
            assert(earlier =~= most.push(last));
            assert(all =~= most.push(last.push(s.last())));
            assert(all.drop_last() =~= most);
            if most.len() > 0 {
                assert(joined(earlier, sep) =~= joined(most, sep) + sep + last);
                assert(joined(all, sep) =~= joined(most, sep) + sep + last.push(s.last()));
            }
            assert(joined(all, sep) =~= joined(earlier, sep).push(s.last()));
            assert(s =~= front.push(s.last()));
            assert forall|k: int| 0 <= k < all.len() implies !(#[trigger] all[k]).contains(c) by {
                if k < most.len() {
                    assert(all[k] == earlier[k]);
                } else {
                    assert(!earlier[earlier.len() - 1].contains(c));
                    let whole = all[k];
                    if whole.contains(c) {
                        let j = choose|j: int| 0 <= j < whole.len() && whole[j] == c;
                        assert(j < last.len());
                        assert(last[j] == c);
                    }
                }
            }
        }
    }
}

/// **The pieces of a text are the text**: put together again with what stood between them
/// they give it back, and nothing that separates is left in any of them.
pub proof fn lemma_the_pieces_of_a_text_are_the_text(s: &str, c: char, k: int, r: Vec<String>)
    requires
        call_ensures(split, (s, c), r),
        0 <= k < r@.len(),
    ensures
        joined(texts(r@), seq![c]) == s@,
        exists|at: Seq<int>| laid_out(s@, texts(r@), seq![c], at),
        !r@[k]@.contains(c),
{
    lemma_pieces_join(s@, c);
    lemma_joined_is_laid_out(texts(r@), seq![c]);
    assert(texts(r@)[k] == r@[k]@);
    assert(!pieces(s@, c)[k].contains(c));
}

} // verus!
