//! Character classes and whitespace trimming over `char` sequences, as `str` defines them.

use vstd::prelude::*;
use vstd::string::StrSliceExecFns;

verus! {

/// The Unicode `White_Space` property, which `char::is_whitespace` and `str::trim` follow.
pub open spec fn is_space(c: char) -> bool {
    let u = c as u32;
    ||| 0x09 <= u && u <= 0x0d
    ||| u == 0x20
    ||| u == 0x85
    ||| u == 0xa0
    ||| u == 0x1680
    ||| 0x2000 <= u && u <= 0x200a
    ||| u == 0x2028
    ||| u == 0x2029
    ||| u == 0x202f
    ||| u == 0x205f
    ||| u == 0x3000
}

/// The Unicode general category `Cc`, which `char::is_control` tests.
pub open spec fn is_control_char(c: char) -> bool {
    let u = c as u32;
    u <= 0x1f || (0x7f <= u && u <= 0x9f)
}

/// Every character of `s` is whitespace: what `s.trim().is_empty()` tests.
pub open spec fn is_blank(s: Seq<char>) -> bool {
    forall|i: int| 0 <= i < s.len() ==> is_space(#[trigger] s[i])
}

/// `s` without its leading whitespace.
pub open spec fn trim_start(s: Seq<char>) -> Seq<char>
    decreases s.len(),
{
    if s.len() > 0 && is_space(s[0]) {
        trim_start(s.drop_first())
    } else {
        s
    }
}

/// `s` without its trailing whitespace.
pub open spec fn trim_end(s: Seq<char>) -> Seq<char>
    decreases s.len(),
{
    if s.len() > 0 && is_space(s.last()) {
        trim_end(s.drop_last())
    } else {
        s
    }
}

/// `s` without leading and trailing whitespace, as `str::trim` returns it.
pub open spec fn trim(s: Seq<char>) -> Seq<char> {
    trim_end(trim_start(s))
}

pub fn is_whitespace(c: char) -> (b: bool)
    ensures
        b == is_space(c),
{
    let u = c as u32;
    (0x09 <= u && u <= 0x0d) || u == 0x20 || u == 0x85 || u == 0xa0 || u == 0x1680 || (0x2000
        <= u && u <= 0x200a) || u == 0x2028 || u == 0x2029 || u == 0x202f || u == 0x205f || u
        == 0x3000
}

pub fn is_control(c: char) -> (b: bool)
    ensures
        b == is_control_char(c),
{
    let u = c as u32;
    u <= 0x1f || (0x7f <= u && u <= 0x9f)
}

/// The characters of `s`, in order.
pub fn chars_of(s: &str) -> (v: Vec<char>)
    ensures
        v@ == s@,
{
    let mut v: Vec<char> = Vec::new();
    for c in it: s.chars()
        invariant
            it.seq() == s@,
            v@ == it.seq().take(it.index() as int),
    {
        v.push(c);
    }
    v
}


proof fn lemma_trim_start_skip(s: Seq<char>, a: int)
    requires
        0 <= a < s.len(),
        is_space(s[a]),
    ensures
        trim_start(s.subrange(a, s.len() as int)) == trim_start(s.subrange(a + 1, s.len() as int)),
{
    assert(s.subrange(a, s.len() as int).drop_first() =~= s.subrange(a + 1, s.len() as int));
}

proof fn lemma_trim_end_skip(s: Seq<char>, a: int, b: int)
    requires
        0 <= a < b <= s.len(),
        is_space(s[b - 1]),
    ensures
        trim_end(s.subrange(a, b)) == trim_end(s.subrange(a, b - 1)),
{
    assert(s.subrange(a, b).drop_last() =~= s.subrange(a, b - 1));
}

/// The bounds of `trim(v[lo..hi])` inside `v`.
pub fn trim_range(v: &[char], lo: usize, hi: usize) -> (r: (usize, usize))
    requires
        lo <= hi <= v@.len(),
    ensures
        lo <= r.0 <= r.1 <= hi,
        v@.subrange(r.0 as int, r.1 as int) == trim(v@.subrange(lo as int, hi as int)),
{
    let ghost s = v@.subrange(lo as int, hi as int);
    let mut a: usize = lo;
    while a < hi && is_whitespace(v[a])
        invariant
            hi <= v@.len(),
            lo <= a <= hi,
            s == v@.subrange(lo as int, hi as int),
            trim_start(s) == trim_start(v@.subrange(a as int, hi as int)),
        decreases hi - a,
    {
        proof {
            lemma_trim_start_skip(v@.subrange(0, hi as int), a as int);
            assert(v@.subrange(0, hi as int).subrange(a as int, hi as int) =~= v@.subrange(a as int, hi as int));
            assert(v@.subrange(0, hi as int).subrange(a + 1, hi as int) =~= v@.subrange(a + 1, hi as int));
        }
        a = a + 1;
    }
    let ghost t = v@.subrange(a as int, hi as int);
    assert(trim_start(s) == t);
    let mut b: usize = hi;
    while b > a && is_whitespace(v[b - 1])
        invariant
            hi <= v@.len(),
            lo <= a <= b <= hi,
            s == v@.subrange(lo as int, hi as int),
            t == v@.subrange(a as int, hi as int),
            trim_start(s) == t,
            trim_end(t) == trim_end(v@.subrange(a as int, b as int)),
        decreases b,
    {
        proof {
            lemma_trim_end_skip(v@, a as int, b as int);
        }
        b = b - 1;
    }
    proof {
        let u = v@.subrange(a as int, b as int);
        if u.len() > 0 {
            assert(u.last() == v@[b - 1]);
        }
    }
    (a, b)
}

/// `s.trim()`.
pub fn trim_str(s: &str) -> (r: &str)
    ensures
        r@ == trim(s@),
{
    let v = chars_of(s);
    assert(v@.subrange(0, v@.len() as int) =~= v@);
    let (a, b) = trim_range(v.as_slice(), 0, v.len());
    s.substring_char(a, b)
}

/// `s.trim().is_empty()`.
pub fn blank(s: &str) -> (b: bool)
    ensures
        b == is_blank(s@),
{
    let v = chars_of(s);
    let n = v.len();
    let mut i: usize = 0;
    while i < n
        invariant
            n == v@.len(),
            v@ == s@,
            i <= n,
            forall|j: int| 0 <= j < i ==> is_space(#[trigger] v@[j]),
        decreases n - i,
    {
        if !is_whitespace(v[i]) {
            return false;
        }
        i = i + 1;
    }
    true
}


/// Whether `v[a..b]` spells `w`.
pub fn range_eq(v: &[char], a: usize, b: usize, w: &[char]) -> (r: bool)
    requires
        a <= b <= v@.len(),
    ensures
        r == (v@.subrange(a as int, b as int) == w@),
{
    if b - a != w.len() {
        return false;
    }
    let mut i: usize = 0;
    while i < w.len()
        invariant
            a <= b <= v@.len(),
            b - a == w@.len(),
            i <= w@.len(),
            forall|j: int| 0 <= j < i ==> v@[a + j] == w@[j],
        decreases w@.len() - i,
    {
        if v[a + i] != w[i] {
            assert(v@.subrange(a as int, b as int)[i as int] != w@[i as int]);
            return false;
        }
        i = i + 1;
    }
    assert(v@.subrange(a as int, b as int) =~= w@);
    true
}

/// The position of the first `c` in `s`, as `str::find` with one character gives it.
pub open spec fn first_index(s: Seq<char>, c: char) -> Option<int>
    decreases s.len(),
{
    if s.len() == 0 {
        None
    } else if s[0] == c {
        Some(0)
    } else {
        match first_index(s.drop_first(), c) {
            Some(i) => Some(i + 1),
            None => None,
        }
    }
}

pub proof fn lemma_first_index(s: Seq<char>, c: char)
    ensures
        match first_index(s, c) {
            Some(i) => 0 <= i < s.len() && s[i] == c && forall|j: int| 0 <= j < i ==> s[j] != c,
            None => forall|j: int| 0 <= j < s.len() ==> s[j] != c,
        },
    decreases s.len(),
{
    if s.len() > 0 && s[0] != c {
        let t = s.drop_first();
        lemma_first_index(t, c);
        assert forall|j: int| 1 <= j < s.len() implies s[j] == t[j - 1] by {}
        match first_index(t, c) {
            Some(i) => {
                assert forall|j: int| 0 <= j < i + 1 implies s[j] != c by {
                    if j > 0 {
                        assert(s[j] == t[j - 1]);
                    }
                }
            },
            None => {
                assert forall|j: int| 0 <= j < s.len() implies s[j] != c by {
                    if j > 0 {
                        assert(s[j] == t[j - 1]);
                    }
                }
            },
        }
    }
}

/// The position of the first `c` in `v[lo..hi]`, counted from `lo`.
pub fn find_in_range(v: &[char], lo: usize, hi: usize, c: char) -> (r: Option<usize>)
    requires
        lo <= hi <= v@.len(),
    ensures
        match first_index(v@.subrange(lo as int, hi as int), c) {
            Some(i) => r is Some && r->0 == lo + i,
            None => r is None,
        },
        match r {
            Some(p) => lo <= p < hi && v@[p as int] == c,
            None => true,
        },
{
    let ghost s = v@.subrange(lo as int, hi as int);
    proof {
        lemma_first_index(s, c);
    }
    let mut i: usize = lo;
    while i < hi
        invariant
            lo <= i <= hi <= v@.len(),
            s == v@.subrange(lo as int, hi as int),
            forall|j: int| lo <= j < i ==> v@[j] != c,
        decreases hi - i,
    {
        if v[i] == c {
            proof {
                lemma_first_index(s, c);
                match first_index(s, c) {
                    Some(k) => {
                        assert(s[i - lo] == c);
                        assert(s[k] == v@[lo + k]);
                        if k < i - lo {
                            assert(v@[lo + k] != c);
                        }
                        if k > i - lo {
                            assert(s[i - lo] != c);
                        }
                    },
                    None => {
                        assert(s[i - lo] == c);
                    },
                }
            }
            return Some(i);
        }
        i = i + 1;
    }
    proof {
        match first_index(s, c) {
            Some(k) => {
                assert(s[k] == c);
                assert(s[k] == v@[lo + k]);
            },
            None => {},
        }
    }
    None
}

/// `s` split at every `sep`, as `str::split` with one character returns it.
pub open spec fn split_on(s: Seq<char>, sep: char) -> Seq<Seq<char>>
    decreases s.len(),
{
    if s.len() == 0 {
        seq![Seq::<char>::empty()]
    } else {
        let r = split_on(s.drop_last(), sep);
        if s.last() == sep {
            r.push(Seq::<char>::empty())
        } else {
            r.update(r.len() - 1, r.last().push(s.last()))
        }
    }
}

pub proof fn lemma_split_on_nonempty(s: Seq<char>, sep: char)
    ensures
        split_on(s, sep).len() >= 1,
    decreases s.len(),
{
    if s.len() > 0 {
        lemma_split_on_nonempty(s.drop_last(), sep);
    }
}

/// The bounds in `v[lo..hi]` of each piece of `split_on(v[lo..hi], sep)`.
pub fn split_ranges(v: &[char], lo: usize, hi: usize, sep: char) -> (r: Vec<(usize, usize)>)
    requires
        lo <= hi <= v@.len(),
    ensures
        r@.len() == split_on(v@.subrange(lo as int, hi as int), sep).len(),
        forall|k: int|
            0 <= k < r@.len() ==> {
                &&& lo <= (#[trigger] r@[k]).0 <= r@[k].1 <= hi
                &&& v@.subrange(r@[k].0 as int, r@[k].1 as int) == split_on(
                    v@.subrange(lo as int, hi as int),
                    sep,
                )[k]
            },
{
    let mut r: Vec<(usize, usize)> = Vec::new();
    let mut start: usize = lo;
    let mut i: usize = lo;
    assert(v@.subrange(lo as int, lo as int) =~= Seq::<char>::empty());
    while i < hi
        invariant
            lo <= start <= i <= hi <= v@.len(),
            r@.len() + 1 == split_on(v@.subrange(lo as int, i as int), sep).len(),
            forall|k: int|
                0 <= k < r@.len() ==> {
                    &&& lo <= (#[trigger] r@[k]).0 <= r@[k].1 <= i
                    &&& v@.subrange(r@[k].0 as int, r@[k].1 as int) == split_on(
                        v@.subrange(lo as int, i as int),
                        sep,
                    )[k]
                },
            v@.subrange(start as int, i as int) == split_on(
                v@.subrange(lo as int, i as int),
                sep,
            ).last(),
        decreases hi - i,
    {
        let ghost old_split = split_on(v@.subrange(lo as int, i as int), sep);
        assert(v@.subrange(lo as int, i + 1).drop_last() =~= v@.subrange(lo as int, i as int));
        assert(v@.subrange(lo as int, i + 1).last() == v@[i as int]);
        if v[i] == sep {
            r.push((start, i));
            start = i + 1;
            assert(v@.subrange(start as int, i + 1) =~= Seq::<char>::empty());
        } else {
            assert(v@.subrange(start as int, i + 1) =~= v@.subrange(start as int, i as int).push(
                v@[i as int],
            ));
        }
        i = i + 1;
    }
    r.push((start, hi));
    r
}


/// `a < b` for strings: lexicographic by character, which for UTF-8 text is the byte order
/// that `str`'s `Ord` uses.
pub open spec fn text_lt(a: Seq<char>, b: Seq<char>) -> bool
    decreases a.len(),
{
    if b.len() == 0 {
        false
    } else if a.len() == 0 {
        true
    } else if a[0] != b[0] {
        (a[0] as u32) < (b[0] as u32)
    } else {
        text_lt(a.drop_first(), b.drop_first())
    }
}

/// `a < b` for strings.
pub fn str_lt(a: &str, b: &str) -> (r: bool)
    ensures
        r == text_lt(a@, b@),
{
    let x = chars_of(a);
    let y = chars_of(b);
    let mut i: usize = 0;
    assert(x@.skip(0) =~= x@);
    assert(y@.skip(0) =~= y@);
    while i < x.len() && i < y.len() && x[i] == y[i]
        invariant
            x@ == a@,
            y@ == b@,
            i <= x@.len(),
            i <= y@.len(),
            text_lt(a@, b@) == text_lt(x@.skip(i as int), y@.skip(i as int)),
        decreases x@.len() - i,
    {
        assert(x@.skip(i as int).drop_first() =~= x@.skip(i + 1));
        assert(y@.skip(i as int).drop_first() =~= y@.skip(i + 1));
        i = i + 1;
    }
    if i == y.len() {
        false
    } else if i == x.len() {
        true
    } else {
        assert(x@.skip(i as int)[0] == x@[i as int]);
        assert(y@.skip(i as int)[0] == y@[i as int]);
        (x[i] as u32) < (y[i] as u32)
    }
}


/// Text is ordered by its first differing character, by code point: after a common prefix,
/// the text with the smaller character comes first, whatever follows.
pub proof fn lemma_text_lt_first_difference(p: Seq<char>, a: char, b: char, x: Seq<char>, y: Seq<char>)
    requires
        (a as u32) < (b as u32),
    ensures
        text_lt(p + seq![a] + x, p + seq![b] + y),
        !text_lt(p + seq![b] + y, p + seq![a] + x),
    decreases p.len(),
{
    let l = p + seq![a] + x;
    let r = p + seq![b] + y;
    if p.len() > 0 {
        lemma_text_lt_first_difference(p.drop_first(), a, b, x, y);
        assert(l.drop_first() =~= p.drop_first() + seq![a] + x);
        assert(r.drop_first() =~= p.drop_first() + seq![b] + y);
        assert(l[0] == r[0]);
    } else {
        assert(l[0] == a && r[0] == b);
    }
}

/// A proper prefix comes before the text it begins.
pub proof fn lemma_text_lt_prefix(p: Seq<char>, x: Seq<char>)
    requires
        x.len() > 0,
    ensures
        text_lt(p, p + x),
        !text_lt(p + x, p),
    decreases p.len(),
{
    if p.len() > 0 {
        lemma_text_lt_prefix(p.drop_first(), x);
        assert((p + x).drop_first() =~= p.drop_first() + x);
        assert((p + x)[0] == p[0]);
    }
}

pub proof fn lemma_text_lt_irreflexive(a: Seq<char>)
    ensures
        !text_lt(a, a),
    decreases a.len(),
{
    if a.len() > 0 {
        lemma_text_lt_irreflexive(a.drop_first());
    }
}

pub proof fn lemma_text_lt_asymmetric(a: Seq<char>, b: Seq<char>)
    ensures
        !(text_lt(a, b) && text_lt(b, a)),
    decreases a.len(),
{
    if a.len() > 0 && b.len() > 0 && a[0] == b[0] {
        lemma_text_lt_asymmetric(a.drop_first(), b.drop_first());
    }
}

pub proof fn lemma_text_lt_total(a: Seq<char>, b: Seq<char>)
    ensures
        a != b ==> text_lt(a, b) || text_lt(b, a),
    decreases a.len(),
{
    if a.len() > 0 && b.len() > 0 && a[0] == b[0] {
        lemma_text_lt_total(a.drop_first(), b.drop_first());
        if a.drop_first() == b.drop_first() {
            assert(a =~= seq![a[0]] + a.drop_first());
            assert(b =~= seq![b[0]] + b.drop_first());
        }
    } else if a.len() == 0 && b.len() == 0 {
        assert(a =~= b);
    } else if a.len() > 0 && b.len() > 0 {
        vstd::utf8::char_u32_cast(a[0], a[0] as u32);
        vstd::utf8::char_u32_cast(b[0], b[0] as u32);
        assert((a[0] as u32) != (b[0] as u32));
    }
}

pub proof fn lemma_text_lt_transitive(a: Seq<char>, b: Seq<char>, c: Seq<char>)
    requires
        text_lt(a, b),
        text_lt(b, c),
    ensures
        text_lt(a, c),
    decreases a.len(),
{
    if a.len() > 0 && a[0] == b[0] && b[0] == c[0] {
        lemma_text_lt_transitive(a.drop_first(), b.drop_first(), c.drop_first());
    }
}

/// Whether two strings hold the same characters.
pub fn str_eq(a: &str, b: &str) -> (r: bool)
    ensures
        r == (a@ == b@),
{
    let v = chars_of(a);
    let w = chars_of(b);
    assert(v@.subrange(0, v@.len() as int) =~= v@);
    range_eq(v.as_slice(), 0, v.len(), w.as_slice())
}

} // verus!
