//! Character-level helpers on strings: order, prefixes, trimming, decimal numerals.

use vstd::prelude::*;
use vstd::string::{StrSliceExecFns, StringExecFns};

verus! {

/// `a` comes before `b`, or equals it, in the order of their code points.
pub open spec fn str_le(a: Seq<char>, b: Seq<char>) -> bool
    decreases a.len(),
{
    if a.len() == 0 {
        true
    } else if b.len() == 0 {
        false
    } else if a[0] != b[0] {
        a[0] < b[0]
    } else {
        str_le(a.drop_first(), b.drop_first())
    }
}

/// Every string is at most itself.
pub proof fn str_le_reflexive(a: Seq<char>)
    ensures
        str_le(a, a),
    decreases a.len(),
{
    if a.len() > 0 {
        str_le_reflexive(a.drop_first());
    }
}

/// Two strings that are each at most the other are equal.
pub proof fn str_le_antisymmetric(a: Seq<char>, b: Seq<char>)
    requires
        str_le(a, b),
        str_le(b, a),
    ensures
        a == b,
    decreases a.len(),
{
    if a.len() > 0 && b.len() > 0 {
        str_le_antisymmetric(a.drop_first(), b.drop_first());
        assert(a =~= seq![a[0]] + a.drop_first());
        assert(b =~= seq![b[0]] + b.drop_first());
    } else {
        assert(a =~= b);
    }
}

/// The order on strings is transitive.
pub proof fn str_le_transitive(a: Seq<char>, b: Seq<char>, c: Seq<char>)
    requires
        str_le(a, b),
        str_le(b, c),
    ensures
        str_le(a, c),
    decreases a.len(),
{
    if a.len() > 0 && a[0] == b[0] && b[0] == c[0] {
        str_le_transitive(a.drop_first(), b.drop_first(), c.drop_first());
    }
}

/// Any two strings are comparable.
pub proof fn str_le_total(a: Seq<char>, b: Seq<char>)
    ensures
        str_le(a, b) || str_le(b, a),
    decreases a.len(),
{
    if a.len() > 0 && b.len() > 0 && a[0] == b[0] {
        str_le_total(a.drop_first(), b.drop_first());
    }
}

/// The first character in which two strings differ decides their order; where one string ends
/// before there is any, the shorter one comes first.
pub proof fn the_first_difference_decides(a: Seq<char>, b: Seq<char>, i: int)
    requires
        0 <= i <= a.len(),
        i <= b.len(),
        forall|j: int| 0 <= j < i ==> a[j] == b[j],
    ensures
        i == a.len() ==> str_le(a, b),
        i == b.len() && b.len() < a.len() ==> !str_le(a, b),
        i < a.len() && i < b.len() && a[i] < b[i] ==> str_le(a, b) && !str_le(b, a),
        i < a.len() && i < b.len() && a[i] > b[i] ==> str_le(b, a) && !str_le(a, b),
    decreases i,
{
    if i > 0 {
        let a1 = a.drop_first();
        let b1 = b.drop_first();
        assert forall|j: int| 0 <= j < i - 1 implies a1[j] == b1[j] by {
            assert(a[j + 1] == b[j + 1]);
        }
        assert(a[0] == b[0]);
        the_first_difference_decides(a1, b1, i - 1);
    }
}

/// Tells whether `a` is at least `b` in the order of their code points.
pub fn str_ge(a: &str, b: &str) -> (r: bool)
    ensures
        r == str_le(b@, a@),
{
    let mut xs = a.chars();
    let mut ys = b.chars();
    loop
        invariant
            str_le(b@, a@) == str_le(
                vstd::std_specs::iter::IteratorSpec::remaining(&ys),
                vstd::std_specs::iter::IteratorSpec::remaining(&xs),
            ),
            vstd::std_specs::iter::IteratorSpec::decrease(&ys) is Some,
        decreases vstd::std_specs::iter::IteratorSpec::decrease(&ys)->0,
    {
        match (xs.next(), ys.next()) {
            (_, None) => {
                return true;
            },
            (None, Some(_)) => {
                return false;
            },
            (Some(x), Some(y)) => {
                if x != y {
                    return y < x;
                }
            },
        }
    }
}

/// Tells whether two strings are the same.
pub fn same_text(a: &str, b: &str) -> (r: bool)
    ensures
        r == (a@ == b@),
{
    proof {
        str_le_reflexive(a@);
        if str_le(a@, b@) && str_le(b@, a@) {
            str_le_antisymmetric(a@, b@);
        }
    }
    str_ge(a, b) && str_ge(b, a)
}

/// `s` begins with `prefix`, character by character.
spec fn matches_prefix(prefix: Seq<char>, s: Seq<char>) -> bool
    decreases prefix.len(),
{
    if prefix.len() == 0 {
        true
    } else if s.len() == 0 {
        false
    } else {
        prefix[0] == s[0] && matches_prefix(prefix.drop_first(), s.drop_first())
    }
}

proof fn lemma_matches_prefix(prefix: Seq<char>, s: Seq<char>)
    ensures
        matches_prefix(prefix, s) == prefix.is_prefix_of(s),
    decreases prefix.len(),
{
    if prefix.len() > 0 && s.len() > 0 {
        let p1 = prefix.drop_first();
        let s1 = s.drop_first();
        lemma_matches_prefix(p1, s1);
        if prefix.is_prefix_of(s) {
            assert(s.subrange(0, prefix.len() as int)[0] == s[0]);
            assert(p1 =~= s1.subrange(0, p1.len() as int));
        }
        if matches_prefix(prefix, s) {
            assert forall|i: int| 0 <= i < prefix.len() implies prefix[i] == s[i] by {
                if i > 0 {
                    assert(prefix[i] == p1[i - 1]);
                    assert(s1.subrange(0, p1.len() as int)[i - 1] == s[i]);
                }
            }
            assert(prefix =~= s.subrange(0, prefix.len() as int));
        }
    } else if prefix.len() == 0 {
        assert(prefix =~= s.subrange(0, 0));
    }
}

/// Tells whether `s` begins with `prefix`.
pub fn starts_with(s: &str, prefix: &str) -> (r: bool)
    ensures
        r == prefix@.is_prefix_of(s@),
{
    proof {
        lemma_matches_prefix(prefix@, s@);
    }
    let mut xs = s.chars();
    let mut ps = prefix.chars();
    loop
        invariant
            prefix@.is_prefix_of(s@) == matches_prefix(
                vstd::std_specs::iter::IteratorSpec::remaining(&ps),
                vstd::std_specs::iter::IteratorSpec::remaining(&xs),
            ),
            vstd::std_specs::iter::IteratorSpec::decrease(&ps) is Some,
        decreases vstd::std_specs::iter::IteratorSpec::decrease(&ps)->0,
    {
        match (ps.next(), xs.next()) {
            (None, _) => {
                return true;
            },
            (Some(_), None) => {
                return false;
            },
            (Some(p), Some(x)) => {
                if p != x {
                    return false;
                }
            },
        }
    }
}

/// The characters with the Unicode property White_Space.
pub open spec fn whitespace(c: char) -> bool {
    ||| '\u{9}' <= c <= '\u{d}'
    ||| c == ' '
    ||| c == '\u{85}'
    ||| c == '\u{a0}'
    ||| c == '\u{1680}'
    ||| '\u{2000}' <= c <= '\u{200a}'
    ||| c == '\u{2028}'
    ||| c == '\u{2029}'
    ||| c == '\u{202f}'
    ||| c == '\u{205f}'
    ||| c == '\u{3000}'
}

/// Tells whether `c` is white space.
pub fn is_whitespace(c: char) -> (r: bool)
    ensures
        r == whitespace(c),
{
    ('\u{9}' <= c && c <= '\u{d}') || c == ' ' || c == '\u{85}' || c == '\u{a0}' || c == '\u{1680}'
        || ('\u{2000}' <= c && c <= '\u{200a}') || c == '\u{2028}' || c == '\u{2029}' || c
        == '\u{202f}' || c == '\u{205f}' || c == '\u{3000}'
}

/// `s` without the white space at its start.
pub open spec fn trimmed_start(s: Seq<char>) -> Seq<char>
    decreases s.len(),
{
    if s.len() > 0 && whitespace(s[0]) {
        trimmed_start(s.drop_first())
    } else {
        s
    }
}

/// `s` without the white space at its end.
pub open spec fn trimmed_end(s: Seq<char>) -> Seq<char>
    decreases s.len(),
{
    if s.len() > 0 && whitespace(s.last()) {
        trimmed_end(s.drop_last())
    } else {
        s
    }
}

/// `s` without the white space at its start and end.
pub open spec fn trimmed(s: Seq<char>) -> Seq<char> {
    trimmed_end(trimmed_start(s))
}

/// White space is: tab to carriage return, space, next line, no-break space, ogham space, the
/// spaces from en quad to hair space, line and paragraph separator, narrow no-break space,
/// mathematical space, and ideographic space.
pub proof fn white_space_by_code_point(c: char)
    ensures
        whitespace(c) <==> {
            let n = c as int;
            9 <= n <= 13 || n == 32 || n == 133 || n == 160 || n == 5760 || 8192 <= n <= 8202 || n
                == 8232 || n == 8233 || n == 8239 || n == 8287 || n == 12288
        },
{
}

/// Trimming takes away white space at both ends and nothing else: what is left stands in the
/// text in one piece, everything before and after it is white space, and it neither begins nor
/// ends with any.
pub proof fn trimming_takes_white_space_at_the_ends(s: Seq<char>) -> (ends: (int, int))
    ensures
        0 <= ends.0 <= ends.1 <= s.len(),
        trimmed(s) == s.subrange(ends.0, ends.1),
        forall|i: int| 0 <= i < ends.0 || ends.1 <= i < s.len() ==> whitespace(#[trigger] s[i]),
        ends.0 < ends.1 ==> !whitespace(s[ends.0]) && !whitespace(s[ends.1 - 1]),
{
    let from = lemma_trimmed_start(s);
    let start = trimmed_start(s);
    let to = lemma_trimmed_end(start);
    assert(trimmed(s) =~= s.subrange(from, from + to));
    assert forall|i: int| 0 <= i < from || from + to <= i < s.len() implies whitespace(
        #[trigger] s[i],
    ) by {
        if i >= from {
            assert(start[i - from] == s[i]);
        }
    }
    if to > 0 {
        assert(start[0] == s[from]);
        assert(start[to - 1] == s[from + to - 1]);
    }
    (from, from + to)
}

proof fn lemma_trimmed_start(s: Seq<char>) -> (from: int)
    ensures
        0 <= from <= s.len(),
        trimmed_start(s) == s.skip(from),
        forall|i: int| 0 <= i < from ==> whitespace(#[trigger] s[i]),
        from < s.len() ==> !whitespace(s[from]),
    decreases s.len(),
{
    if s.len() > 0 && whitespace(s[0]) {
        let rest = s.drop_first();
        let from = lemma_trimmed_start(rest);
        assert(rest.skip(from) =~= s.skip(from + 1));
        assert forall|i: int| 0 <= i < from + 1 implies whitespace(#[trigger] s[i]) by {
            if i > 0 {
                assert(rest[i - 1] == s[i]);
            }
        }
        from + 1
    } else {
        assert(s.skip(0) =~= s);
        0
    }
}

proof fn lemma_trimmed_end(s: Seq<char>) -> (to: int)
    ensures
        0 <= to <= s.len(),
        trimmed_end(s) == s.take(to),
        forall|i: int| to <= i < s.len() ==> whitespace(#[trigger] s[i]),
        to > 0 ==> !whitespace(s[to - 1]),
    decreases s.len(),
{
    if s.len() > 0 && whitespace(s.last()) {
        let rest = s.drop_last();
        let to = lemma_trimmed_end(rest);
        assert(rest.take(to) =~= s.take(to));
        assert forall|i: int| to <= i < s.len() implies whitespace(#[trigger] s[i]) by {
            if i < s.len() - 1 {
                assert(rest[i] == s[i]);
            }
        }
        to
    } else {
        assert(s.take(s.len() as int) =~= s);
        s.len() as int
    }
}

/// The characters of a string.
fn char_list(s: &str) -> (r: Vec<char>)
    ensures
        r@ == s@,
{
    let mut cs = s.chars();
    let mut r: Vec<char> = Vec::new();
    loop
        invariant
            r@ + vstd::std_specs::iter::IteratorSpec::remaining(&cs) == s@,
            vstd::std_specs::iter::IteratorSpec::decrease(&cs) is Some,
        decreases vstd::std_specs::iter::IteratorSpec::decrease(&cs)->0,
    {
        match cs.next() {
            None => {
                assert(r@ =~= s@);
                return r;
            },
            Some(c) => {
                r.push(c);
            },
        }
    }
}

/// `s` without the white space at its start and end.
pub fn trim(s: &str) -> (r: &str)
    ensures
        r@ == trimmed(s@),
{
    let cs = char_list(s);
    let mut from: usize = 0;
    assert(s@.skip(0) =~= s@);
    while from < cs.len() && is_whitespace(cs[from])
        invariant
            cs@ == s@,
            0 <= from <= cs@.len(),
            trimmed_start(s@) == trimmed_start(s@.skip(from as int)),
        decreases cs@.len() - from,
    {
        assert(s@.skip(from as int)[0] == s@[from as int]);
        assert(s@.skip(from as int).drop_first() =~= s@.skip(from + 1));
        from = from + 1;
    }
    let ghost start = s@.skip(from as int);
    assert(start.len() > 0 ==> start[0] == s@[from as int]);
    assert(trimmed_start(s@) == start);
    let mut to: usize = cs.len();
    assert(s@.subrange(from as int, to as int) =~= start);
    while to > from && is_whitespace(cs[to - 1])
        invariant
            cs@ == s@,
            from <= to <= cs@.len(),
            trimmed_end(start) == trimmed_end(s@.subrange(from as int, to as int)),
        decreases to,
    {
        let ghost now = s@.subrange(from as int, to as int);
        assert(now.last() == s@[to - 1]);
        assert(now.drop_last() =~= s@.subrange(from as int, to - 1));
        to = to - 1;
    }
    let ghost rest = s@.subrange(from as int, to as int);
    assert(rest.len() > 0 ==> rest.last() == s@[to - 1]);
    s.substring_char(from, to)
}

/// The decimal digit `d` as a character.
pub open spec fn digit(d: nat) -> char {
    (48 + d) as char
}

/// The decimal numeral of `n`, without leading zeros.
pub open spec fn decimal(n: nat) -> Seq<char>
    decreases n,
{
    if n < 10 {
        seq![digit(n)]
    } else {
        decimal(n / 10).push(digit(n % 10))
    }
}

/// The number that a sequence of decimal digits is read as.
pub open spec fn numeral_value(s: Seq<char>) -> int
    decreases s.len(),
{
    if s.len() == 0 {
        0
    } else {
        numeral_value(s.drop_last()) * 10 + (s.last() as int - '0' as int)
    }
}

/// A numeral is made of decimal digits, has no leading zero but that of 0 itself, and is read
/// as the number that it stands for.
pub proof fn numerals(n: nat)
    ensures
        decimal(n).len() > 0,
        forall|i: int| 0 <= i < decimal(n).len() ==> '0' <= #[trigger] decimal(n)[i] <= '9',
        decimal(n)[0] == '0' ==> n == 0,
        n < 10 ==> decimal(n).len() == 1,
        numeral_value(decimal(n)) == n,
    decreases n,
{
    let s = decimal(n);
    if n < 10 {
        assert(s.drop_last() =~= Seq::<char>::empty());
        assert(numeral_value(s.drop_last()) == 0);
        assert(s.last() as int == 48 + n);
    } else {
        let shorter = decimal(n / 10);
        numerals(n / 10);
        assert(s.drop_last() =~= shorter);
        assert(numeral_value(s.drop_last()) == n / 10);
        assert(s.last() as int == 48 + n % 10);
        assert(s[0] == shorter[0]);
        assert forall|i: int| 0 <= i < s.len() implies '0' <= #[trigger] s[i] <= '9' by {
            if i < shorter.len() {
                assert(s[i] == shorter[i]);
            }
        }
    }
}

fn digit_text(d: u64) -> (r: &'static str)
    requires
        d < 10,
    ensures
        r@ == seq![digit(d as nat)],
{
    proof {
        reveal_strlit("0");
        reveal_strlit("1");
        reveal_strlit("2");
        reveal_strlit("3");
        reveal_strlit("4");
        reveal_strlit("5");
        reveal_strlit("6");
        reveal_strlit("7");
        reveal_strlit("8");
        reveal_strlit("9");
    }
    if d == 0 {
        "0"
    } else if d == 1 {
        "1"
    } else if d == 2 {
        "2"
    } else if d == 3 {
        "3"
    } else if d == 4 {
        "4"
    } else if d == 5 {
        "5"
    } else if d == 6 {
        "6"
    } else if d == 7 {
        "7"
    } else if d == 8 {
        "8"
    } else {
        "9"
    }
}

/// Appends the decimal numeral of `n` to `out`.
pub fn push_decimal(out: &mut String, n: u64)
    ensures
        final(out)@ == old(out)@ + decimal(n as nat),
    decreases n,
{
    if n >= 10 {
        push_decimal(out, n / 10);
    }
    out.append(digit_text(n % 10));
    proof {
        if n >= 10 {
            assert(old(out)@ + decimal((n / 10) as nat) + seq![digit((n % 10) as nat)] =~= old(
                out,
            )@ + decimal(n as nat));
        }
    }
}

/// The concatenation of two strings.
pub fn joined(a: &str, b: &str) -> (r: String)
    ensures
        r@ == a@ + b@,
{
    let mut r: String = a.to_string();
    r.append(b);
    r
}

/// Calls that compare texts go by their characters: `str_ge` by the first in which they differ,
/// `same_text` by all of them, `starts_with` by those of the prefix.
pub proof fn texts_are_compared_by_their_characters(
    a: &str,
    b: &str,
    ge: bool,
    same: bool,
    starts: bool,
    i: int,
    rest: Seq<char>,
)
    requires
        call_ensures(str_ge, (a, b), ge),
        call_ensures(same_text, (a, b), same),
        call_ensures(starts_with, (a, b), starts),
    ensures
        same <==> a@ == b@,
        same ==> ge,
        0 <= i < b@.len() && i <= a@.len() && (forall|j: int| 0 <= j < i ==> a@[j] == b@[j]) && (i
            == a@.len() || a@[i] < b@[i]) ==> !ge,
        0 <= i < a@.len() && i <= b@.len() && (forall|j: int| 0 <= j < i ==> a@[j] == b@[j]) && (i
            == b@.len() || a@[i] > b@[i]) ==> ge,
        a@ == b@ + rest ==> starts,
        starts ==> b@.len() <= a@.len() && (0 <= i < b@.len() ==> a@[i] == b@[i]),
{
    str_le_reflexive(a@);
    if 0 <= i <= a@.len() && i <= b@.len() && (forall|j: int| 0 <= j < i ==> a@[j] == b@[j]) {
        the_first_difference_decides(a@, b@, i);
        the_first_difference_decides(b@, a@, i);
    }
    if a@ == b@ + rest {
        assert(b@ =~= a@.subrange(0, b@.len() as int));
    }
    if starts && 0 <= i < b@.len() {
        assert(a@.subrange(0, b@.len() as int)[i] == a@[i]);
    }
}

/// A call of `trim` gives the text without the white space at its ends, and takes nothing else.
pub proof fn trim_takes_only_white_space(s: &str, r: &str) -> (ends: (int, int))
    requires
        call_ensures(trim, (s,), r),
    ensures
        0 <= ends.0 <= ends.1 <= s@.len(),
        r@ == s@.subrange(ends.0, ends.1),
        forall|i: int| 0 <= i < ends.0 || ends.1 <= i < s@.len() ==> whitespace(#[trigger] s@[i]),
        r@.len() > 0 ==> !whitespace(r@[0]) && !whitespace(r@.last()),
{
    let ends = trimming_takes_white_space_at_the_ends(s@);
    ends
}

/// A call of `is_whitespace` tells white space by its code point.
pub proof fn is_whitespace_goes_by_code_point(c: char, r: bool)
    requires
        call_ensures(is_whitespace, (c,), r),
    ensures
        r <==> {
            let n = c as int;
            9 <= n <= 13 || n == 32 || n == 133 || n == 160 || n == 5760 || 8192 <= n <= 8202 || n
                == 8232 || n == 8233 || n == 8239 || n == 8287 || n == 12288
        },
{
    white_space_by_code_point(c);
}

/// A number is written behind what is there in decimal digits that are read as that number, with
/// no leading zero; two texts are joined whole, the first one first.
pub proof fn texts_are_put_together(
    out: &mut String,
    n: u64,
    u: (),
    a: &str,
    b: &str,
    both: String,
)
    requires
        call_ensures(push_decimal, (out, n), u),
        call_ensures(joined, (a, b), both),
    ensures
        old(out)@.is_prefix_of(final(out)@),
        ({
            let numeral = final(out)@.skip(old(out)@.len() as int);
            &&& numeral.len() > 0
            &&& forall|i: int| 0 <= i < numeral.len() ==> '0' <= #[trigger] numeral[i] <= '9'
            &&& numeral[0] == '0' ==> n == 0 && numeral.len() == 1
            &&& numeral_value(numeral) == n
        }),
        both@ == a@ + b@,
{
    numerals(n as nat);
    assert(old(out)@ =~= final(out)@.subrange(0, old(out)@.len() as int));
    assert(final(out)@.skip(old(out)@.len() as int) =~= decimal(n as nat));
}

} // verus!
