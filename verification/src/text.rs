//! Operations on text, stated over sequences of characters.

use vstd::prelude::*;
use vstd::string::*;

verus! {

/// The characters that count as white space: those with the Unicode
/// property `White_Space`.
pub open spec fn is_space(c: char) -> bool {
    let n = c as u32;
    ||| 0x09 <= n <= 0x0D
    ||| n == 0x20
    ||| n == 0x85
    ||| n == 0xA0
    ||| n == 0x1680
    ||| 0x2000 <= n <= 0x200A
    ||| n == 0x2028
    ||| n == 0x2029
    ||| n == 0x202F
    ||| n == 0x205F
    ||| n == 0x3000
}

/// `s` without the white space it starts with.
pub open spec fn skip_leading_spaces(s: Seq<char>) -> Seq<char>
    decreases s.len(),
{
    if s.len() > 0 && is_space(s[0]) {
        skip_leading_spaces(s.drop_first())
    } else {
        s
    }
}

/// `s` without the white space it ends with.
pub open spec fn drop_trailing_spaces(s: Seq<char>) -> Seq<char>
    decreases s.len(),
{
    if s.len() > 0 && is_space(s.last()) {
        drop_trailing_spaces(s.drop_last())
    } else {
        s
    }
}

/// `s` without surrounding white space.
pub open spec fn trimmed(s: Seq<char>) -> Seq<char> {
    drop_trailing_spaces(skip_leading_spaces(s))
}

/// `pat` stands in `s` at position `i`.
pub open spec fn occurs_at(s: Seq<char>, pat: Seq<char>, i: int) -> bool {
    0 <= i && i + pat.len() <= s.len() && s.subrange(i, i + pat.len()) == pat
}

/// `pat` stands somewhere in `s`.
pub open spec fn occurs(s: Seq<char>, pat: Seq<char>) -> bool {
    exists|i: int| occurs_at(s, pat, i)
}

/// `i` is the leftmost position at which `pat` stands in `s`.
pub open spec fn is_first_occurrence(s: Seq<char>, pat: Seq<char>, i: int) -> bool {
    occurs_at(s, pat, i) && forall|j: int| 0 <= j < i ==> !occurs_at(s, pat, j)
}

/// The leftmost position at which `pat` stands in `s`, where it occurs.
pub open spec fn first_occurrence(s: Seq<char>, pat: Seq<char>) -> int {
    choose|i: int| is_first_occurrence(s, pat, i)
}

/// What stands in `s` before the leftmost `pat`, where `pat` occurs.
pub open spec fn before_first(s: Seq<char>, pat: Seq<char>) -> Seq<char> {
    s.subrange(0, first_occurrence(s, pat))
}

/// What stands in `s` after the leftmost `pat`, where `pat` occurs.
pub open spec fn after_first(s: Seq<char>, pat: Seq<char>) -> Seq<char> {
    s.subrange(first_occurrence(s, pat) + pat.len(), s.len() as int)
}

/// What stands before and after the leftmost `pat` in `s`.
pub open spec fn split_once(s: Seq<char>, pat: Seq<char>) -> Option<(Seq<char>, Seq<char>)> {
    if occurs(s, pat) {
        Some((before_first(s, pat), after_first(s, pat)))
    } else {
        None
    }
}

/// The code point of `c`, with the letters `A` to `Z` taken as `a` to `z`.
pub open spec fn ascii_lower(c: char) -> int {
    if 'A' as u32 <= c as u32 <= 'Z' as u32 {
        c as u32 + 32
    } else {
        c as u32 as int
    }
}

/// `a` and `b` are the same text but for the case of ASCII letters.
pub open spec fn eq_ignore_case(a: Seq<char>, b: Seq<char>) -> bool {
    a.len() == b.len() && forall|i: int|
        0 <= i < a.len() ==> ascii_lower(#[trigger] a[i]) == ascii_lower(b[i])
}

/// `a` comes before `b` in the lexicographic order of code points: at the
/// first position where they differ `a` has the smaller character, or `a`
/// ends there and `b` goes on.
pub open spec fn lex_lt(a: Seq<char>, b: Seq<char>) -> bool {
    exists|k: int|
        0 <= k <= a.len() && k <= b.len() && #[trigger] a.take(k) == b.take(k) && k < b.len() && (k
            < a.len() ==> (a[k] as u32) < (b[k] as u32))
}

/// How one text stands to another in an order.
#[derive(Debug, Clone, Copy, PartialEq, Eq, Structural)]
pub enum Order {
    Before,
    Same,
    After,
}

/// The parts, with `sep` between each two neighbours.
pub open spec fn joined(parts: Seq<Seq<char>>, sep: Seq<char>) -> Seq<char>
    decreases parts.len(),
{
    if parts.len() == 0 {
        Seq::empty()
    } else if parts.len() == 1 {
        parts[0]
    } else {
        joined(parts.drop_last(), sep) + sep + parts.last()
    }
}

/// The texts that a list of strings holds.
pub open spec fn texts(v: Seq<String>) -> Seq<Seq<char>> {
    v.map_values(|s: String| s@)
}

/// Where `a` is the place of the first character that is no white space,
/// `s` without its leading white space starts there.
proof fn lemma_skip_leading_spaces(s: Seq<char>, a: int)
    requires
        0 <= a <= s.len(),
        forall|i: int| 0 <= i < a ==> is_space(s[i]),
        a < s.len() ==> !is_space(s[a]),
    ensures
        skip_leading_spaces(s) == s.subrange(a, s.len() as int),
    decreases a,
{
    if a == 0 {
        assert(s.subrange(0, s.len() as int) == s);
    } else {
        let t = s.drop_first();
        assert forall|i: int| 0 <= i < a - 1 implies is_space(t[i]) by {
            assert(t[i] == s[i + 1]);
        }
        lemma_skip_leading_spaces(t, a - 1);
        assert(t.subrange(a - 1, t.len() as int) == s.subrange(a, s.len() as int));
    }
}

/// Where `b` is the place behind the last character that is no white
/// space, `s` without its trailing white space ends there.
proof fn lemma_drop_trailing_spaces(s: Seq<char>, b: int)
    requires
        0 <= b <= s.len(),
        forall|i: int| b <= i < s.len() ==> is_space(s[i]),
        b > 0 ==> !is_space(s[b - 1]),
    ensures
        drop_trailing_spaces(s) == s.subrange(0, b),
    decreases s.len() - b,
{
    if b == s.len() {
        assert(s.subrange(0, b) == s);
    } else {
        let t = s.drop_last();
        lemma_drop_trailing_spaces(t, b);
        assert(t.subrange(0, b) == s.subrange(0, b));
    }
}

/// Two texts that agree up to `k`, where `a` does not have the smaller
/// character at `k` nor ends there before `b`, are not in order.
proof fn lemma_not_lex_lt(a: Seq<char>, b: Seq<char>, k: int)
    requires
        0 <= k <= a.len(),
        k <= b.len(),
        a.take(k) == b.take(k),
        !(k < b.len() && (k == a.len() || (a[k] as u32) < (b[k] as u32))),
        k < a.len() && k < b.len() ==> a[k] != b[k],
    ensures
        !lex_lt(a, b),
{
    assert forall|j: int|
        !(0 <= j <= a.len() && j <= b.len() && #[trigger] a.take(j) == b.take(j) && j < b.len()
            && (j < a.len() ==> (a[j] as u32) < (b[j] as u32))) by {
        if 0 <= j <= a.len() && j <= b.len() && a.take(j) == b.take(j) {
            if j > k {
                assert(a.take(j)[k] == a[k]);
                assert(b.take(j)[k] == b[k]);
            } else if j < k {
                assert(a.take(k)[j] == a[j]);
                assert(b.take(k)[j] == b[j]);
            }
        }
    }
}

/// Characters with the same code point are the same.
pub proof fn lemma_code_injective(c: char, d: char)
    requires
        c as u32 == d as u32,
    ensures
        c == d,
{
}

/// At most one position is the leftmost occurrence.
pub proof fn lemma_first_occurrence(s: Seq<char>, pat: Seq<char>, i: int)
    requires
        is_first_occurrence(s, pat, i),
    ensures
        occurs(s, pat),
        first_occurrence(s, pat) == i,
{
    let j = first_occurrence(s, pat);
    assert(is_first_occurrence(s, pat, j));
    if j < i {
        assert(!occurs_at(s, pat, j));
    }
    if i < j {
        assert(!occurs_at(s, pat, i));
    }
}

/// Tells whether `c` is white space.
pub fn is_whitespace(c: char) -> (r: bool)
    ensures
        r == is_space(c),
{
    let n: u32 = c as u32;
    (0x09 <= n && n <= 0x0D) || n == 0x20 || n == 0x85 || n == 0xA0 || n == 0x1680 || (0x2000 <= n
        && n <= 0x200A) || n == 0x2028 || n == 0x2029 || n == 0x202F || n == 0x205F || n == 0x3000
}

/// The characters of `s`, in order.
pub fn chars_of(s: &str) -> (v: Vec<char>)
    ensures
        v@ == s@,
{
    let mut v: Vec<char> = Vec::new();
    for c in it: s.chars()
        invariant
            it.seq() == s@,
            v@ == s@.take(it.index()),
    {
        v.push(c);
        assert(s@.take(it.index() + 1) == s@.take(it.index()).push(s@[it.index()]));
    }
    assert(s@.take(s@.len() as int) == s@);
    v
}

/// The part of `s` that is left when the white space around it is taken away.
pub fn trim<'a>(s: &'a str) -> (t: &'a str)
    ensures
        t@ == trimmed(s@),
{
    let cs = chars_of(s);
    let n: usize = cs.len();
    let mut a: usize = 0;
    while a < n && is_whitespace(cs[a])
        invariant
            a <= n,
            n == cs.len(),
            forall|i: int| 0 <= i < a ==> is_space(cs@[i]),
        decreases n - a,
    {
        a += 1;
    }
    let mut b: usize = n;
    while b > a && is_whitespace(cs[b - 1])
        invariant
            a <= b <= n,
            n == cs.len(),
            forall|i: int| b <= i < n ==> is_space(cs@[i]),
        decreases b,
    {
        b -= 1;
    }
    proof {
        let rest = s@.subrange(a as int, n as int);
        lemma_skip_leading_spaces(s@, a as int);
        lemma_drop_trailing_spaces(rest, b - a);
        assert(rest.subrange(0, b - a) == s@.subrange(a as int, b as int));
    }
    s.substring_char(a, b)
}

/// Looks for the leftmost place where `pat` stands in `s`.
pub fn find(s: &Vec<char>, pat: &Vec<char>) -> (r: Option<usize>)
    ensures
        match r {
            Some(i) => is_first_occurrence(s@, pat@, i as int),
            None => !occurs(s@, pat@),
        },
{
    let n: usize = s.len();
    let m: usize = pat.len();
    if m > n {
        return None;
    }
    let mut i: usize = 0;
    while i <= n - m
        invariant
            m <= n,
            n == s.len(),
            m == pat.len(),
            i <= n - m + 1,
            forall|j: int| 0 <= j < i ==> !occurs_at(s@, pat@, j),
        decreases n - m + 1 - i,
    {
        let mut k: usize = 0;
        while k < m && s[i + k] == pat[k]
            invariant
                m <= n,
                n == s.len(),
                m == pat.len(),
                i <= n - m,
                k <= m,
                forall|j: int| 0 <= j < k ==> s@[i + j] == pat@[j],
            decreases m - k,
        {
            k += 1;
        }
        if k == m {
            assert(s@.subrange(i as int, i + m) == pat@);
            return Some(i);
        }
        assert(!occurs_at(s@, pat@, i as int)) by {
            if occurs_at(s@, pat@, i as int) {
                assert(s@.subrange(i as int, i + m)[k as int] == pat@[k as int]);
            }
        }
        i += 1;
    }
    None
}

/// Splits `s` at the leftmost place where `pat` stands in it.
pub fn split_on_first<'a>(s: &'a str, pat: &Vec<char>) -> (r: Option<(&'a str, &'a str)>)
    ensures
        match split_once(s@, pat@) {
            Some((before, after)) => r matches Some((x, y)) && x@ == before && y@ == after,
            None => r is None,
        },
{
    let cs = chars_of(s);
    match find(&cs, pat) {
        Some(i) => {
            proof {
                lemma_first_occurrence(s@, pat@, i as int);
            }
            assert(i + pat.len() <= cs.len());
            Some((s.substring_char(0, i), s.substring_char(i + pat.len(), cs.len())))
        },
        None => None,
    }
}

/// Tells whether `a` and `b` are the same text when the case of ASCII
/// letters is left out of account.
pub fn eq_ignore_ascii_case(a: &str, b: &str) -> (r: bool)
    ensures
        r == eq_ignore_case(a@, b@),
{
    let x = chars_of(a);
    let y = chars_of(b);
    if x.len() != y.len() {
        return false;
    }
    let mut i: usize = 0;
    while i < x.len()
        invariant
            x@ == a@,
            y@ == b@,
            x.len() == y.len(),
            i <= x.len(),
            forall|j: int| 0 <= j < i ==> ascii_lower(x@[j]) == ascii_lower(y@[j]),
        decreases x.len() - i,
    {
        if lower_code(x[i]) != lower_code(y[i]) {
            assert(ascii_lower(a@[i as int]) != ascii_lower(b@[i as int]));
            return false;
        }
        i += 1;
    }
    true
}

/// The code point of `c` once an ASCII capital is made small.
pub fn lower_code(c: char) -> (n: u32)
    ensures
        n == ascii_lower(c),
{
    let n: u32 = c as u32;
    if 'A' as u32 <= n && n <= 'Z' as u32 {
        n + 32
    } else {
        n
    }
}

/// Compares `a` with `b` in the lexicographic order of code points.
pub fn lex_compare(a: &str, b: &str) -> (r: Order)
    ensures
        r == Order::Before <==> lex_lt(a@, b@),
        r == Order::Same <==> a@ == b@,
        r == Order::After <==> lex_lt(b@, a@),
{
    let x = chars_of(a);
    let y = chars_of(b);
    let mut i: usize = 0;
    while i < x.len() && i < y.len() && x[i] == y[i]
        invariant
            i <= x.len(),
            i <= y.len(),
            forall|j: int| 0 <= j < i ==> x@[j] == y@[j],
        decreases x.len() - i,
    {
        i += 1;
    }
    let ghost k = i as int;
    assert(x@.take(k) == y@.take(k));
    if i < x.len() && i < y.len() {
        let cx: u32 = x[i] as u32;
        let cy: u32 = y[i] as u32;
        proof {
            if cx == cy {
                lemma_code_injective(x@[k], y@[k]);
            }
            assert(x@ != y@);
        }
        if cx < cy {
            proof {
                lemma_not_lex_lt(y@, x@, k);
            }
            Order::Before
        } else {
            proof {
                lemma_not_lex_lt(x@, y@, k);
            }
            Order::After
        }
    } else if i < y.len() {
        proof {
            lemma_not_lex_lt(y@, x@, k);
        }
        Order::Before
    } else if i < x.len() {
        proof {
            lemma_not_lex_lt(x@, y@, k);
        }
        Order::After
    } else {
        proof {
            lemma_not_lex_lt(x@, y@, k);
            lemma_not_lex_lt(y@, x@, k);
            assert(x@ =~= y@);
        }
        Order::Same
    }
}

/// A list with the same texts.
pub fn copy_names(names: &Vec<String>) -> (r: Vec<String>)
    ensures
        r@ == names@,
{
    let mut r: Vec<String> = Vec::new();
    let mut i: usize = 0;
    while i < names.len()
        invariant
            i <= names.len(),
            r@ == names@.take(i as int),
        decreases names.len() - i,
    {
        r.push(names[i].clone());
        assert(names@.take(i + 1) == names@.take(i as int).push(names@[i as int]));
        i += 1;
    }
    assert(names@.take(names@.len() as int) == names@);
    r
}

/// Tells whether two lists hold the same texts in the same order.
pub fn same_names(a: &Vec<String>, b: &Vec<String>) -> (r: bool)
    ensures
        r == (texts(a@) == texts(b@)),
{
    if a.len() != b.len() {
        assert(texts(a@).len() != texts(b@).len());
        return false;
    }
    let mut i: usize = 0;
    while i < a.len()
        invariant
            a.len() == b.len(),
            i <= a.len(),
            forall|j: int| 0 <= j < i ==> a@[j]@ == b@[j]@,
        decreases a.len() - i,
    {
        if !(a[i] == b[i]) {
            assert(texts(a@)[i as int] != texts(b@)[i as int]);
            return false;
        }
        i += 1;
    }
    assert(texts(a@) =~= texts(b@));
    true
}

/// The parts in order, with `sep` between each two neighbours.
pub fn join(parts: &Vec<String>, sep: &str) -> (s: String)
    ensures
        s@ == joined(texts(parts@), sep@),
{
    let mut s = String::new();
    let mut i: usize = 0;
    while i < parts.len()
        invariant
            i <= parts.len(),
            s@ == joined(texts(parts@).take(i as int), sep@),
        decreases parts.len() - i,
    {
        proof {
            let all = texts(parts@);
            assert(all.take(i + 1).drop_last() == all.take(i as int));
            assert(all.take(i + 1).last() == parts@[i as int]@);
            if i > 0 {
                assert(all.take(i as int).len() > 0);
            } else {
                assert(s@ + parts@[i as int]@ == parts@[i as int]@);
            }
        }
        if i > 0 {
            s.append(sep);
        }
        s.append(parts[i].as_str());
        i += 1;
    }
    assert(texts(parts@).take(parts@.len() as int) == texts(parts@));
    s
}

} // verus!
