use vstd::prelude::*;
use crate::format::views;

verus! {

/// What `textwrap::indent` returns for a text and a prefix: the prefix is
/// prepended to every line that holds more than whitespace; the result
/// depends on the two arguments alone.
pub uninterp spec fn indented(text: Seq<char>, prefix: Seq<char>) -> Seq<char>;

/// What `str::trim` returns: the text without its leading and trailing
/// whitespace; the result depends on the characters alone.
pub uninterp spec fn trimmed(text: Seq<char>) -> Seq<char>;

/// Every non-overlapping match of `from`, found from the left, replaced
/// by `to`.
pub open spec fn replace_s(s: Seq<char>, from: Seq<char>, to: Seq<char>) -> Seq<char>
    decreases s.len(),
    when from.len() > 0
{
    if s.len() < from.len() {
        s
    } else if s.subrange(0, from.len() as int) == from {
        to + replace_s(s.skip(from.len() as int), from, to)
    } else {
        seq![s[0]] + replace_s(s.skip(1), from, to)
    }
}

/// Relies on textwrap::indent: the result depends on the text and the
/// prefix alone, and an empty text yields an empty result.
#[verifier::external_body]
pub(crate) fn indent_text(text: &str, prefix: &str) -> (r: String)
    ensures
        r@ == indented(text@, prefix@),
        text@.len() == 0 ==> r@.len() == 0,
{
    textwrap::indent(text, prefix)
}

/// Relies on str::replace: all non-overlapping matches of `from`, found
/// from left to right, are replaced by `to`.
#[verifier::external_body]
pub(crate) fn replace_text(text: &str, from: &str, to: &str) -> (r: String)
    requires
        from@.len() > 0,
    ensures
        r@ == replace_s(text@, from@, to@),
{
    text.replace(from, to)
}

/// Relies on str::trim: removes leading and trailing whitespace, nothing
/// else; the result depends on the characters alone.
#[verifier::external_body]
pub(crate) fn trim_text(text: &str) -> (r: String)
    ensures
        r@ == trimmed(text@),
        r@.len() <= text@.len(),
        text@.len() == 0 ==> r@.len() == 0,
{
    text.trim().to_owned()
}

/// `n` space characters.
pub open spec fn spaces(n: nat) -> Seq<char> {
    Seq::new(n, |i: int| ' ')
}

pub(crate) fn make_spaces(n: usize) -> (r: String)
    ensures
        r@ == spaces(n as nat),
{
    let mut s = String::new();
    let mut i: usize = 0;
    while i < n
        invariant
            i <= n,
            s@ == spaces(i as nat),
        decreases n - i,
    {
        s.append(" ");
        proof {
            reveal_strlit(" ");
            assert(s@ =~= spaces((i + 1) as nat));
        }
        i = i + 1;
    }
    s
}

/// The decimal digit character for `d < 10`.
pub open spec fn dec_digit(d: nat) -> char {
    if d == 0 {
        '0'
    } else if d == 1 {
        '1'
    } else if d == 2 {
        '2'
    } else if d == 3 {
        '3'
    } else if d == 4 {
        '4'
    } else if d == 5 {
        '5'
    } else if d == 6 {
        '6'
    } else if d == 7 {
        '7'
    } else if d == 8 {
        '8'
    } else {
        '9'
    }
}

/// The decimal rendering of `n`, without a sign and without leading zeros
/// (a single zero for `n == 0`).
pub open spec fn dec_str(n: nat) -> Seq<char>
    decreases n,
{
    if n < 10 {
        seq![dec_digit(n)]
    } else {
        dec_str(n / 10).push(dec_digit(n % 10))
    }
}

fn digit_str(d: usize) -> (r: &'static str)
    requires
        d < 10,
    ensures
        r@ == seq![dec_digit(d as nat)],
{
    proof {
        reveal_strlit("0");
        reveal_strlit("1");
        reveal_strlit("2");
        reveal_strlit("3");
        reveal_strlit("4");
        reveal_strlit("5");
        reveal_strlit("6");
        reveal_strlit("7");
        reveal_strlit("8");
        reveal_strlit("9");
    }
    let r: &'static str = if d == 0 {
        "0"
    } else if d == 1 {
        "1"
    } else if d == 2 {
        "2"
    } else if d == 3 {
        "3"
    } else if d == 4 {
        "4"
    } else if d == 5 {
        "5"
    } else if d == 6 {
        "6"
    } else if d == 7 {
        "7"
    } else if d == 8 {
        "8"
    } else {
        "9"
    };
    proof {
        assert(r@ =~= seq![dec_digit(d as nat)]);
    }
    r
}

/// Renders `n` in decimal.
pub fn usize_dec(n: usize) -> (r: String)
    ensures
        r@ == dec_str(n as nat),
    decreases n,
{
    if n < 10 {
        let mut s = String::new();
        s.append(digit_str(n));
        proof {
            assert(s@ =~= dec_str(n as nat));
        }
        s
    } else {
        let mut s = usize_dec(n / 10);
        s.append(digit_str(n % 10));
        proof {
            assert(s@ =~= dec_str(n as nat));
        }
        s
    }
}

/// The parts from position `k` on, joined by a comma and a space.
pub open spec fn join_comma_from(parts: Seq<Seq<char>>, k: int) -> Seq<char>
    decreases parts.len() - k,
{
    if k < 0 || k >= parts.len() {
        Seq::empty()
    } else if k == parts.len() - 1 {
        parts[k]
    } else {
        parts[k] + ", "@ + join_comma_from(parts, k + 1)
    }
}

pub(crate) fn join_comma(parts: &Vec<String>, k: usize) -> (r: String)
    requires
        k <= parts@.len(),
    ensures
        r@ == join_comma_from(views(parts@), k as int),
    decreases parts@.len() - k,
{
    if k >= parts.len() {
        let r = String::new();
        proof {
            assert(r@ =~= join_comma_from(views(parts@), k as int));
        }
        r
    } else if k == parts.len() - 1 {
        let r = parts[k].clone();
        proof {
            assert(views(parts@)[k as int] == parts@[k as int]@);
        }
        r
    } else {
        let mut s = parts[k].clone();
        s.append(", ");
        let rest = join_comma(parts, k + 1);
        s.append(rest.as_str());
        proof {
            assert(views(parts@)[k as int] == parts@[k as int]@);
            assert(s@ =~= join_comma_from(views(parts@), k as int));
        }
        s
    }
}

pub(crate) fn clone_strings(v: &Vec<String>) -> (r: Vec<String>)
    ensures
        r@.len() == v@.len(),
        views(r@) == views(v@),
{
    let mut r: Vec<String> = Vec::new();
    let mut i: usize = 0;
    while i < v.len()
        invariant
            i <= v@.len(),
            r@.len() == i,
            forall|k: int| 0 <= k < i ==> views(r@)[k] == views(v@)[k],
        decreases v@.len() - i,
    {
        r.push(v[i].clone());
        i = i + 1;
    }
    proof {
        assert(views(r@) =~= views(v@));
    }
    r
}

/// Whether one of the strings of `v` has the view `n`.
pub open spec fn contains_view(v: Seq<String>, n: Seq<char>) -> bool {
    views(v).contains(n)
}

pub(crate) fn contains_name(v: &Vec<String>, s: &String) -> (r: bool)
    ensures
        r == contains_view(v@, s@),
{
    let mut i: usize = 0;
    while i < v.len()
        invariant
            i <= v@.len(),
            forall|k: int| 0 <= k < i ==> views(v@)[k] != s@,
        decreases v@.len() - i,
    {
        if v[i] == *s {
            proof {
                assert(views(v@)[i as int] == s@);
            }
            return true;
        }
        proof {
            assert(views(v@)[i as int] == v@[i as int]@);
        }
        i = i + 1;
    }
    proof {
        assert forall|k: int| 0 <= k < views(v@).len() implies views(v@)[k] != s@ by {}
        assert(!views(v@).contains(s@));
    }
    false
}

} // verus!
