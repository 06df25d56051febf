//! Character-level helpers on `str`.
use vstd::prelude::*;
use vstd::string::StrSliceExecFns;

verus! {

/// `p` is a prefix of `s`.
pub open spec fn has_prefix(s: Seq<char>, p: Seq<char>) -> bool {
    p.len() <= s.len() && s.subrange(0, p.len() as int) == p
}

/// `p` occurs somewhere in `s`.
pub open spec fn has_infix(s: Seq<char>, p: Seq<char>) -> bool {
    exists|i: int| 0 <= i && i + p.len() <= s.len() && #[trigger] s.subrange(i, i + p.len()) == p
}

/// ASCII whitespace as `u8::is_ascii_whitespace` has it.
pub open spec fn is_ascii_ws(c: char) -> bool {
    c == ' ' || c == '\t' || c == '\n' || c == '\r' || c == '\x0C'
}

/// `s` without its leading and trailing ASCII whitespace.
pub open spec fn trim_ws(s: Seq<char>) -> Seq<char>
    decreases s.len(),
{
    if s.len() > 0 && is_ascii_ws(s[0]) {
        trim_ws(s.drop_first())
    } else if s.len() > 0 && is_ascii_ws(s.last()) {
        trim_ws(s.drop_last())
    } else {
        s
    }
}

/// The characters of `s`.
pub fn chars_of(s: &str) -> (r: Vec<char>)
    ensures
        r@ == s@,
{
    let mut r: Vec<char> = Vec::new();
    let chars = s.chars();
    proof {
        broadcast use vstd::string::axiom_spec_iter;
    }
    for c in it: chars
        invariant
            r@ == it.seq().subrange(0, it.index() as int),
            it.seq() == s@,
    {
        r.push(c);
    }
    r
}

fn is_ws(c: char) -> (b: bool)
    ensures
        b == is_ascii_ws(c),
{
    c == ' ' || c == '\t' || c == '\n' || c == '\r' || c == '\x0C'
}

/// If `text` starts with `pattern`, the text that follows it.
pub fn starts_with<'a>(text: &'a str, pattern: &str) -> (r: Option<&'a str>)
    ensures
        match r {
            Some(rest) => has_prefix(text@, pattern@) && rest@ == text@.subrange(
                pattern@.len() as int,
                text@.len() as int,
            ),
            None => !has_prefix(text@, pattern@),
        },
{
    let t = chars_of(text);
    let p = chars_of(pattern);
    if p.len() > t.len() {
        return None;
    }
    for i in 0..p.len()
        invariant
            t@ == text@,
            p@ == pattern@,
            p@.len() <= t@.len(),
            forall|j: int| 0 <= j < i ==> t@[j] == p@[j],
    {
        if t[i] != p[i] {
            assert(text@.subrange(0, pattern@.len() as int)[i as int] != pattern@[i as int]);
            return None;
        }
    }
    assert(text@.subrange(0, pattern@.len() as int) == pattern@);
    Some(text.substring_char(p.len(), t.len()))
}

/// Whether `pattern` occurs in `text`.
pub fn contains(text: &str, pattern: &str) -> (b: bool)
    ensures
        b == has_infix(text@, pattern@),
{
    let t = chars_of(text);
    let p = chars_of(pattern);
    if p.len() > t.len() {
        return false;
    }
    let last = t.len() - p.len();
    let mut i: usize = 0;
    loop
        invariant
            t@ == text@,
            p@ == pattern@,
            p@.len() <= t@.len(),
            last == t@.len() - p@.len(),
            i <= last,
            forall|k: int|
                0 <= k < i ==> #[trigger] text@.subrange(k, k + pattern@.len()) != pattern@,
        decreases last - i,
    {
        let mut j: usize = 0;
        let mut same = true;
        while j < p.len()
            invariant
                t@ == text@,
                p@ == pattern@,
                p@.len() <= t@.len(),
                i <= last == t@.len() - p@.len(),
                j <= p@.len(),
                same == forall|l: int| 0 <= l < j ==> t@[i + l] == p@[l],
            decreases p@.len() - j,
        {
            assert(i + j < t@.len() && t@.len() == t.len());
            if t[i + j] != p[j] {
                same = false;
            }
            j = j + 1;
        }
        if same {
            assert(text@.subrange(i as int, i + pattern@.len()) == pattern@);
            return true;
        }
        let ghost l = choose|l: int| 0 <= l < j && t@[i + l] != p@[l];
        assert(text@.subrange(i as int, i + pattern@.len())[l] != pattern@[l]);
        if i == last {
            assert forall|k: int| 0 <= k && k + pattern@.len() <= text@.len() implies #[trigger] text@.subrange(
                k,
                k + pattern@.len(),
            ) != pattern@ by {
                assert(k <= i);
            }
            return false;
        }
        i = i + 1;
    }
}

/// `s` without its leading and trailing ASCII whitespace.
pub fn trim_ascii(s: &str) -> (r: &str)
    ensures
        r@ == trim_ws(s@),
{
    let c = chars_of(s);
    let mut a: usize = 0;
    let mut b: usize = c.len();
    assert(s@.subrange(0, s@.len() as int) == s@);
    while a < b && is_ws(c[a])
        invariant
            c@ == s@,
            a <= b == c@.len(),
            trim_ws(s@) == trim_ws(s@.subrange(a as int, b as int)),
        decreases b - a,
    {
        assert(s@.subrange(a as int, b as int).drop_first() == s@.subrange(a + 1, b as int));
        a = a + 1;
    }
    while b > a && is_ws(c[b - 1])
        invariant
            c@ == s@,
            a <= b <= c@.len(),
            a < b ==> !is_ascii_ws(s@[a as int]),
            trim_ws(s@) == trim_ws(s@.subrange(a as int, b as int)),
        decreases b - a,
    {
        assert(s@.subrange(a as int, b as int).drop_last() == s@.subrange(a as int, b - 1));
        b = b - 1;
    }
    s.substring_char(a, b)
}

} // verus!
