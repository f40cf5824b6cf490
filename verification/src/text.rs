//! Character-level string helpers with exact specifications.
use vstd::prelude::*;

verus! {

/// Appends one character to a string.
///
/// Trusted: wraps `String::push`, whose documentation says it appends the
/// given `char` to the end of the `String`.
#[verifier::external_body]
pub(crate) fn push_char(s: &mut String, c: char)
    ensures
        final(s)@ == old(s)@.push(c),
{
    s.push(c);
}

/// The characters of `s`, in order.
pub fn chars_of(s: &str) -> (r: Vec<char>)
    ensures
        r@ == s@,
{
    let mut out: Vec<char> = Vec::new();
    for c in it: s.chars()
        invariant
            out@ == it.seq().take(it.index() as int),
    {
        out.push(c);
    }
    out
}

} // verus!

verus! {

/// Whether two strings hold the same characters.
pub fn str_eq(a: &str, b: &str) -> (r: bool)
    ensures
        r == (a@ == b@),
{
    let ac = chars_of(a);
    let bc = chars_of(b);
    if ac.len() != bc.len() {
        return false;
    }
    let n = ac.len();
    let mut i: usize = 0;
    while i < n
        invariant
            ac@ == a@,
            bc@ == b@,
            n == ac@.len(),
            n == bc@.len(),
            i <= n,
            ac@.take(i as int) == bc@.take(i as int),
        decreases n - i,
    {
        if ac[i] != bc[i] {
            assert(ac@[i as int] != bc@[i as int]);
            return false;
        }
        assert(ac@.take(i + 1) =~= ac@.take(i as int).push(ac@[i as int]));
        assert(bc@.take(i + 1) =~= bc@.take(i as int).push(bc@[i as int]));
        i = i + 1;
    }
    assert(ac@ =~= ac@.take(n as int));
    assert(bc@ =~= bc@.take(n as int));
    true
}

} // verus!

verus! {

/// The concatenation of `f(c)` over the characters `c` of `s`, in order.
pub open spec fn expand(s: Seq<char>, f: spec_fn(char) -> Seq<char>) -> Seq<char>
    decreases s.len(),
{
    if s.len() == 0 {
        seq![]
    } else {
        f(s[0]) + expand(s.drop_first(), f)
    }
}

/// Expanding one more character appends its expansion.
pub proof fn lemma_expand_push(s: Seq<char>, c: char, f: spec_fn(char) -> Seq<char>)
    ensures
        expand(s.push(c), f) == expand(s, f) + f(c),
    decreases s.len(),
{
    if s.len() == 0 {
        let e: Seq<char> = seq![];
        assert(s.push(c).drop_first() =~= e);
        assert(expand(e, f) =~= e);
        assert(expand(s, f) =~= e);
        assert(expand(s.push(c), f) =~= f(c) + e);
    } else {
        assert(s.push(c).drop_first() =~= s.drop_first().push(c));
        lemma_expand_push(s.drop_first(), c, f);
        assert(expand(s.push(c), f) =~= f(s[0]) + (expand(s.drop_first(), f) + f(c)));
    }
}

/// Expansion distributes over concatenation.
pub proof fn lemma_expand_concat(a: Seq<char>, b: Seq<char>, f: spec_fn(char) -> Seq<char>)
    ensures
        expand(a + b, f) == expand(a, f) + expand(b, f),
    decreases a.len(),
{
    if a.len() == 0 {
        assert(a + b =~= b);
        assert(expand(a, f) =~= seq![]);
        assert(expand(a + b, f) =~= expand(a, f) + expand(b, f));
    } else {
        assert((a + b).drop_first() =~= a.drop_first() + b);
        lemma_expand_concat(a.drop_first(), b, f);
        assert(expand(a + b, f) =~= f(a[0]) + (expand(a.drop_first(), f) + expand(b, f)));
    }
}

/// The expansion that replaces every occurrence of `target` by `replacement`.
pub open spec fn char_replacer(target: char, replacement: Seq<char>) -> spec_fn(char) -> Seq<char> {
    |c: char| if c == target { replacement } else { seq![c] }
}

/// Appends `piece` to `out`.
pub fn push_str(out: &mut String, piece: &str)
    ensures
        final(out)@ == old(out)@ + piece@,
{
    let cs = chars_of(piece);
    let n = cs.len();
    let mut i: usize = 0;
    while i < n
        invariant
            n == cs@.len(),
            cs@ == piece@,
            i <= n,
            out@ == old(out)@ + cs@.take(i as int),
        decreases n - i,
    {
        assert(cs@.take(i + 1) =~= cs@.take(i as int).push(cs@[i as int]));
        push_char(out, cs[i]);
        i = i + 1;
    }
    assert(cs@.take(n as int) =~= cs@);
}

/// `s` with every `target` character replaced by `replacement`, like
/// `str::replace` with a `char` pattern.
pub fn replace_char(s: &str, target: char, replacement: &str) -> (r: String)
    ensures
        r@ == expand(s@, char_replacer(target, replacement@)),
{
    let cs = chars_of(s);
    let n = cs.len();
    let mut out = String::new();
    let mut i: usize = 0;
    while i < n
        invariant
            n == cs@.len(),
            cs@ == s@,
            i <= n,
            out@ == expand(cs@.take(i as int), char_replacer(target, replacement@)),
        decreases n - i,
    {
        let c = cs[i];
        proof {
            assert(cs@.take(i + 1) =~= cs@.take(i as int).push(c));
            lemma_expand_push(cs@.take(i as int), c, char_replacer(target, replacement@));
        }
        if c == target {
            push_str(&mut out, replacement);
        } else {
            push_char(&mut out, c);
            assert(seq![c] == char_replacer(target, replacement@)(c));
        }
        i = i + 1;
    }
    assert(cs@.take(n as int) =~= cs@);
    out
}

/// `needle` occurs in `hay` starting at position `i`.
pub open spec fn occurs_at(hay: Seq<char>, needle: Seq<char>, i: int) -> bool {
    0 <= i && i + needle.len() <= hay.len() && hay.subrange(i, i + needle.len()) == needle
}

/// `needle` is a substring of `hay` (the empty string is a substring of every string).
pub open spec fn has_substring(hay: Seq<char>, needle: Seq<char>) -> bool {
    exists|i: int| occurs_at(hay, needle, i)
}

/// Whether `needle` occurs at position `i` of `hay`, on character vectors.
fn matches_at(hay: &Vec<char>, needle: &Vec<char>, i: usize) -> (r: bool)
    requires
        i + needle@.len() <= hay@.len(),
    ensures
        r == occurs_at(hay@, needle@, i as int),
{
    let m = needle.len();
    let hl = hay.len();
    let mut j: usize = 0;
    while j < m
        invariant
            m == needle@.len(),
            hl == hay@.len(),
            i + m <= hay@.len(),
            j <= m,
            hay@.subrange(i as int, i + j) == needle@.take(j as int),
        decreases m - j,
    {
        if hay[i + j] != needle[j] {
            assert(hay@.subrange(i as int, i + m)[j as int] == hay@[i + j]);
            return false;
        }
        assert(hay@.subrange(i as int, i + j + 1) =~= hay@.subrange(i as int, i + j).push(hay@[i + j]));
        assert(needle@.take(j + 1) =~= needle@.take(j as int).push(needle@[j as int]));
        j = j + 1;
    }
    assert(needle@.take(m as int) =~= needle@);
    true
}

/// Whether `needle` is a substring of `hay`, like `str::contains` with a
/// string pattern.
pub fn contains(hay: &str, needle: &str) -> (r: bool)
    ensures
        r == has_substring(hay@, needle@),
{
    let h = chars_of(hay);
    let nd = chars_of(needle);
    if nd.len() > h.len() {
        assert forall|i: int| !occurs_at(hay@, needle@, i) by {}
        return false;
    }
    let last = h.len() - nd.len();
    let mut i: usize = 0;
    while i <= last
        invariant
            h@ == hay@,
            nd@ == needle@,
            last + nd@.len() == h@.len(),
            forall|k: int| 0 <= k < i ==> !occurs_at(hay@, needle@, k),
        decreases last + 1 - i,
    {
        if matches_at(&h, &nd, i) {
            return true;
        }
        if i == last {
            assert forall|k: int| !occurs_at(hay@, needle@, k) by {
                if 0 <= k <= last {
                } 
            }
            return false;
        }
        i = i + 1;
    }
    false
}

} // verus!

verus! {

/// `s` with the occurrences of `pattern` (found left to right, without
/// overlap) replaced by `replacement`, like `str::replace` with a non-empty
/// string pattern.
pub open spec fn replaced(s: Seq<char>, pattern: Seq<char>, replacement: Seq<char>) -> Seq<char>
    decreases s.len(),
{
    if pattern.len() == 0 || s.len() < pattern.len() {
        s
    } else if s.take(pattern.len() as int) == pattern {
        replacement + replaced(s.skip(pattern.len() as int), pattern, replacement)
    } else {
        seq![s[0]] + replaced(s.drop_first(), pattern, replacement)
    }
}

/// `s` with every occurrence of the non-empty `pattern` replaced by
/// `replacement`.
pub fn replace_str(s: &str, pattern: &str, replacement: &str) -> (r: String)
    requires
        pattern@.len() > 0,
    ensures
        r@ == replaced(s@, pattern@, replacement@),
{
    let cs = chars_of(s);
    let ps = chars_of(pattern);
    let n = cs.len();
    let m = ps.len();
    let mut out = String::new();
    let mut i: usize = 0;
    assert(cs@.skip(0) =~= cs@);
    while i < n
        invariant
            n == cs@.len(),
            m == ps@.len(),
            m > 0,
            cs@ == s@,
            ps@ == pattern@,
            i <= n,
            out@ + replaced(cs@.skip(i as int), ps@, replacement@) == replaced(cs@, ps@, replacement@),
        decreases n - i,
    {
        let ghost rest = cs@.skip(i as int);
        if m <= n - i && matches_at(&cs, &ps, i) {
            assert(rest.take(m as int) =~= cs@.subrange(i as int, i + m));
            assert(rest.skip(m as int) =~= cs@.skip(i + m));
            let ghost before = out@;
            push_str(&mut out, replacement);
            assert(out@ + replaced(cs@.skip(i + m), ps@, replacement@) =~= before + replaced(rest, ps@, replacement@));
            i = i + m;
        } else {
            assert(rest.drop_first() =~= cs@.skip(i + 1));
            assert(rest[0] == cs@[i as int]);
            proof {
                if rest.len() < m {
                    assert(replaced(rest.drop_first(), ps@, replacement@) == rest.drop_first());
                    assert(rest =~= seq![rest[0]] + rest.drop_first());
                } else {
                    assert(rest.take(m as int) =~= cs@.subrange(i as int, i + m));
                }
            }
            let ghost before = out@;
            push_char(&mut out, cs[i]);
            assert(out@ + replaced(cs@.skip(i + 1), ps@, replacement@) =~= before + replaced(rest, ps@, replacement@));
            i = i + 1;
        }
    }
    assert(cs@.skip(n as int) =~= seq![]);
    assert(out@ + seq![] =~= out@);
    out
}

/// The decimal digit character for `d` (`0 <= d < 10`).
pub open spec fn digit_char(d: nat) -> char {
    ((48 + d) as u8) as char
}

/// The decimal representation of `n`, without leading zeros.
pub open spec fn decimal_digits(n: nat) -> Seq<char>
    decreases n,
{
    if n < 10 {
        seq![digit_char(n)]
    } else {
        decimal_digits(n / 10).push(digit_char(n % 10))
    }
}

/// The decimal representation of `n`, as `n.to_string()` writes it.
pub fn decimal(n: u64) -> (r: String)
    ensures
        r@ == decimal_digits(n as nat),
    decreases n,
{
    if n < 10 {
        let mut s = String::new();
        push_char(&mut s, ((48 + n) as u8) as char);
        s
    } else {
        let mut s = decimal(n / 10);
        push_char(&mut s, ((48 + n % 10) as u8) as char);
        s
    }
}

} // verus!
