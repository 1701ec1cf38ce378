//! Small operations on text that the rest of the library is built from.

use vstd::prelude::*;
use vstd::string::*;

verus! {

/// The characters of `s`, in order.
pub fn chars_of(s: &str) -> (out: Vec<char>)
    ensures
        out@ == s@,
{
    let mut out: Vec<char> = Vec::new();
    for c in it: s.chars()
        invariant
            it.seq() == s@,
            out@ == s@.take(it.index() as int),
    {
        out.push(c);
        assert(out@ =~= s@.take(it.index() + 1));
    }
    assert(out@ =~= s@);
    out
}

/// Whether two strings hold the same characters.
pub fn str_eq(a: &str, b: &str) -> (same: bool)
    ensures
        same == (a@ == b@),
{
    String::from_str(a) == String::from_str(b)
}

/// The text of an optional string.
pub open spec fn opt_text(s: Option<String>) -> Option<Seq<char>> {
    match s {
        Some(t) => Some(t@),
        None => None,
    }
}

/// The texts of a list of strings.
pub open spec fn texts(list: Seq<String>) -> Seq<Seq<char>> {
    list.map_values(|s: String| s@)
}

/// In a list without duplicates, taking one entry out takes its value out
/// of the set of values.
pub proof fn lemma_remove_to_set(ids: Seq<Seq<char>>, i: int)
    requires
        ids.no_duplicates(),
        0 <= i < ids.len(),
    ensures
        ids.remove(i).no_duplicates(),
        ids.remove(i).to_set() == ids.to_set().remove(ids[i]),
{
    let rest = ids.remove(i);
    ids.remove_ensures(i);
    assert forall|x: Seq<char>| rest.to_set().contains(x) <==> ids.to_set().remove(
        ids[i],
    ).contains(x) by {
        if rest.contains(x) {
            let j = choose|j: int| 0 <= j < rest.len() && rest[j] == x;
            if j < i {
                assert(ids[j] == x);
            } else {
                assert(ids[j + 1] == x);
            }
        }
        if ids.contains(x) && x != ids[i] {
            let j = choose|j: int| 0 <= j < ids.len() && ids[j] == x;
            if j < i {
                assert(rest[j] == x);
            } else {
                assert(rest[j - 1] == x);
            }
        }
    }
    assert(rest.to_set() =~= ids.to_set().remove(ids[i]));
}

/// `needle` stands in `hay` at position `at`.
pub open spec fn occurs_at(hay: Seq<char>, needle: Seq<char>, at: int) -> bool {
    0 <= at && at + needle.len() <= hay.len() && hay.subrange(at, at + needle.len()) == needle
}

/// The first position at or after `from` where `needle` stands in `hay`.
pub open spec fn first_occurrence_from(hay: Seq<char>, needle: Seq<char>, from: int) -> Option<int>
    decreases hay.len() + 1 - from,
{
    if 0 <= from && from + needle.len() <= hay.len() {
        if occurs_at(hay, needle, from) {
            Some(from)
        } else {
            first_occurrence_from(hay, needle, from + 1)
        }
    } else {
        None
    }
}

/// The first position where `needle` stands in `hay`.
pub open spec fn first_occurrence(hay: Seq<char>, needle: Seq<char>) -> Option<int> {
    first_occurrence_from(hay, needle, 0)
}

/// `s` without the run of `c` at its start.
pub open spec fn strip_start(s: Seq<char>, c: char) -> Seq<char>
    decreases s.len(),
{
    if s.len() > 0 && s.first() == c {
        strip_start(s.drop_first(), c)
    } else {
        s
    }
}

/// `s` without the run of `c` at its end.
pub open spec fn strip_end(s: Seq<char>, c: char) -> Seq<char>
    decreases s.len(),
{
    if s.len() > 0 && s.last() == c {
        strip_end(s.drop_last(), c)
    } else {
        s
    }
}

/// `s` without the runs of `c` at both ends.
pub open spec fn trim_matches(s: Seq<char>, c: char) -> Seq<char> {
    strip_end(strip_start(s, c), c)
}

/// What `first_occurrence_from` finds is an occurrence, and the earliest one
/// from `from` on; where it finds nothing, there is none.
pub proof fn lemma_first_occurrence_from(hay: Seq<char>, needle: Seq<char>, from: int)
    requires
        0 <= from,
    ensures
        match first_occurrence_from(hay, needle, from) {
            Some(at) => from <= at && occurs_at(hay, needle, at) && forall|j: int|
                from <= j < at ==> !occurs_at(hay, needle, j),
            None => forall|j: int| from <= j ==> !occurs_at(hay, needle, j),
        },
    decreases hay.len() + 1 - from,
{
    if from + needle.len() > hay.len() {
    } else if occurs_at(hay, needle, from) {
    } else {
        lemma_first_occurrence_from(hay, needle, from + 1);
    }
}

/// Whether `needle` stands in `hay[lo..hi]` at `at`, counted from `lo`.
fn matches_at(hay: &Vec<char>, lo: usize, hi: usize, needle: &Vec<char>, at: usize) -> (out: bool)
    requires
        lo <= at,
        at + needle.len() <= hi <= hay.len(),
    ensures
        out == occurs_at(hay@.subrange(lo as int, hi as int), needle@, at - lo),
{
    let ghost window = hay@.subrange(lo as int, hi as int);
    let mut k: usize = 0;
    while k < needle.len()
        invariant
            k <= needle.len(),
            lo <= at,
            at + needle.len() <= hi <= hay.len(),
            window == hay@.subrange(lo as int, hi as int),
            forall|j: int| 0 <= j < k ==> hay@[at + j] == needle@[j],
        decreases needle.len() - k,
    {
        if hay[at + k] != needle[k] {
            assert(window.subrange(at - lo, at - lo + needle.len())[k as int] == hay@[at + k]);
            return false;
        }
        k = k + 1;
    }
    assert(window.subrange(at - lo, at - lo + needle.len()) =~= needle@);
    true
}

/// The first place where `needle` stands in `hay[lo..hi]`, as an index into
/// `hay`.
pub fn find_in(hay: &Vec<char>, lo: usize, hi: usize, needle: &Vec<char>) -> (out: Option<usize>)
    requires
        lo <= hi <= hay.len(),
    ensures
        match out {
            Some(at) => lo <= at && at + needle.len() <= hi && first_occurrence(
                hay@.subrange(lo as int, hi as int),
                needle@,
            ) == Some(at - lo),
            None => first_occurrence(hay@.subrange(lo as int, hi as int), needle@) is None,
        },
{
    let ghost window = hay@.subrange(lo as int, hi as int);
    let n: usize = needle.len();
    if hi - lo < n {
        return None;
    }
    let last: usize = hi - n;
    let mut at: usize = lo;
    while at <= last
        invariant
            lo <= at <= last + 1,
            last + n == hi,
            n == needle.len(),
            lo <= hi <= hay.len(),
            window == hay@.subrange(lo as int, hi as int),
            first_occurrence(window, needle@) == first_occurrence_from(window, needle@, at - lo),
        decreases last + 1 - at,
    {
        if matches_at(hay, lo, hi, needle, at) {
            return Some(at);
        }
        assert(n > 0) by {
            if n == 0 {
                assert(window.subrange(at - lo, at - lo) =~= needle@);
            }
        }
        at = at + 1;
    }
    None
}

/// The bounds of `hay[lo..hi]` without the runs of `c` at both ends.
pub fn trim_bounds(hay: &Vec<char>, lo: usize, hi: usize, c: char) -> (out: (usize, usize))
    requires
        lo <= hi <= hay.len(),
    ensures
        lo <= out.0 <= out.1 <= hi,
        hay@.subrange(out.0 as int, out.1 as int) == trim_matches(
            hay@.subrange(lo as int, hi as int),
            c,
        ),
{
    let mut a: usize = lo;
    while a < hi && hay[a] == c
        invariant
            lo <= a <= hi <= hay.len(),
            strip_start(hay@.subrange(lo as int, hi as int), c) == strip_start(
                hay@.subrange(a as int, hi as int),
                c,
            ),
        decreases hi - a,
    {
        assert(hay@.subrange(a as int, hi as int).drop_first() =~= hay@.subrange(
            a + 1,
            hi as int,
        ));
        a = a + 1;
    }
    assert(strip_start(hay@.subrange(a as int, hi as int), c) == hay@.subrange(
        a as int,
        hi as int,
    ));
    let mut b: usize = hi;
    while a < b && hay[b - 1] == c
        invariant
            a <= b <= hi <= hay.len(),
            strip_end(hay@.subrange(a as int, hi as int), c) == strip_end(
                hay@.subrange(a as int, b as int),
                c,
            ),
        decreases b - a,
    {
        assert(hay@.subrange(a as int, b as int).drop_last() =~= hay@.subrange(
            a as int,
            b - 1,
        ));
        b = b - 1;
    }
    assert(strip_end(hay@.subrange(a as int, b as int), c) == hay@.subrange(a as int, b as int));
    (a, b)
}

/// The character that writes a digit.
pub open spec fn digit_char(d: nat) -> char {
    if d == 0 {
        '0'
    } else if d == 1 {
        '1'
    } else if d == 2 {
        '2'
    } else if d == 3 {
        '3'
    } else if d == 4 {
        '4'
    } else if d == 5 {
        '5'
    } else if d == 6 {
        '6'
    } else if d == 7 {
        '7'
    } else if d == 8 {
        '8'
    } else {
        '9'
    }
}

/// A number in decimal, without leading zeros.
pub open spec fn decimal(n: nat) -> Seq<char>
    decreases n,
{
    if n < 10 {
        seq![digit_char(n)]
    } else {
        decimal(n / 10).push(digit_char(n % 10))
    }
}

fn digit_str(d: u64) -> (out: &'static str)
    requires
        d < 10,
    ensures
        out@ == seq![digit_char(d as nat)],
{
    proof {
        reveal_strlit("0");
        reveal_strlit("1");
        reveal_strlit("2");
        reveal_strlit("3");
        reveal_strlit("4");
        reveal_strlit("5");
        reveal_strlit("6");
        reveal_strlit("7");
        reveal_strlit("8");
        reveal_strlit("9");
    }
    let out = if d == 0 {
        "0"
    } else if d == 1 {
        "1"
    } else if d == 2 {
        "2"
    } else if d == 3 {
        "3"
    } else if d == 4 {
        "4"
    } else if d == 5 {
        "5"
    } else if d == 6 {
        "6"
    } else if d == 7 {
        "7"
    } else if d == 8 {
        "8"
    } else {
        "9"
    };
    assert(out@ =~= seq![digit_char(d as nat)]);
    out
}

/// Writes a number in decimal.
pub fn decimal_string(n: u64) -> (out: String)
    ensures
        out@ == decimal(n as nat),
    decreases n,
{
    if n < 10 {
        String::from_str(digit_str(n))
    } else {
        let mut out = decimal_string(n / 10);
        out.append(digit_str(n % 10));
        assert(out@ =~= decimal(n as nat));
        out
    }
}

/// Every number has at least one digit.
pub proof fn lemma_decimal_nonempty(n: nat)
    ensures
        decimal(n).len() >= 1,
        n >= 10 ==> decimal(n).len() >= 2,
    decreases n,
{
    if n >= 10 {
        lemma_decimal_nonempty(n / 10);
    }
}

/// Different numbers are written differently.
pub proof fn lemma_decimal_injective(a: nat, b: nat)
    requires
        decimal(a) == decimal(b),
    ensures
        a == b,
    decreases a,
{
    lemma_decimal_nonempty(a);
    lemma_decimal_nonempty(b);
    if a < 10 {
        assert(decimal(a)[0] == digit_char(a));
        assert(decimal(b)[0] == digit_char(b));
    } else {
        let x = decimal(a / 10);
        let y = decimal(b / 10);
        assert(x.push(digit_char(a % 10)).last() == digit_char(a % 10));
        assert(y.push(digit_char(b % 10)).last() == digit_char(b % 10));
        assert(x.push(digit_char(a % 10)).drop_last() =~= x);
        assert(y.push(digit_char(b % 10)).drop_last() =~= y);
        lemma_decimal_injective(a / 10, b / 10);
    }
}

} // verus!
