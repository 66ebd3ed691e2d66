//! Character-level helpers: lexicographic order on strings, whitespace
//! trimming, and conversions between `&str` and character vectors.

use vstd::prelude::*;
use vstd::string::StrSliceExecFns;

verus! {

/// Three-way comparison outcome used throughout the library.
#[derive(Debug, Clone, Copy, PartialEq, Eq, Structural)]
pub enum Rank {
    Before,
    Same,
    After,
}

/// Lexicographic "less than" on character sequences, comparing from index `i`
/// onwards (characters compared by code point, a proper prefix sorts first).
pub open spec fn chars_lt_from(a: Seq<char>, b: Seq<char>, i: int) -> bool
    decreases a.len() - i,
{
    if i >= a.len() {
        i < b.len()
    } else if i >= b.len() {
        false
    } else if (a[i] as int) < (b[i] as int) {
        true
    } else if (a[i] as int) > (b[i] as int) {
        false
    } else {
        chars_lt_from(a, b, i + 1)
    }
}

/// Lexicographic order on strings by code point; this is the order of `str`.
pub open spec fn chars_lt(a: Seq<char>, b: Seq<char>) -> bool {
    chars_lt_from(a, b, 0)
}

pub proof fn lemma_chars_lt_from_irreflexive(a: Seq<char>, i: int)
    requires
        0 <= i,
    ensures
        !chars_lt_from(a, a, i),
    decreases a.len() - i,
{
    if i < a.len() {
        lemma_chars_lt_from_irreflexive(a, i + 1);
    }
}

pub proof fn lemma_chars_lt_from_transitive(a: Seq<char>, b: Seq<char>, c: Seq<char>, i: int)
    requires
        0 <= i,
        chars_lt_from(a, b, i),
        chars_lt_from(b, c, i),
    ensures
        chars_lt_from(a, c, i),
    decreases a.len() - i,
{
    if i < a.len() && i < b.len() && i < c.len() && a[i] as int == b[i] as int && b[i] as int
        == c[i] as int {
        lemma_chars_lt_from_transitive(a, b, c, i + 1);
    }
}

pub proof fn lemma_chars_lt_from_total(a: Seq<char>, b: Seq<char>, i: int)
    requires
        0 <= i <= a.len(),
        i <= b.len(),
        forall|j: int| 0 <= j < i ==> a[j] == b[j],
        !chars_lt_from(a, b, i),
        !chars_lt_from(b, a, i),
    ensures
        a =~= b,
    decreases a.len() - i,
{
    if i < a.len() && i < b.len() {
        assert(a[i] as int == b[i] as int);
        assert(a[i] == b[i]);
        lemma_chars_lt_from_total(a, b, i + 1);
    }
}

/// `chars_lt` is a strict total order.
pub proof fn lemma_chars_lt_order()
    ensures
        forall|a: Seq<char>| !#[trigger] chars_lt(a, a),
        forall|a: Seq<char>, b: Seq<char>, c: Seq<char>|
            #[trigger] chars_lt(a, b) && #[trigger] chars_lt(b, c) ==> chars_lt(a, c),
        forall|a: Seq<char>, b: Seq<char>|
            !#[trigger] chars_lt(a, b) && !#[trigger] chars_lt(b, a) ==> a == b,
{
    assert forall|a: Seq<char>| !#[trigger] chars_lt(a, a) by {
        lemma_chars_lt_from_irreflexive(a, 0);
    }
    assert forall|a: Seq<char>, b: Seq<char>, c: Seq<char>|
        #[trigger] chars_lt(a, b) && #[trigger] chars_lt(b, c) implies chars_lt(a, c) by {
        lemma_chars_lt_from_transitive(a, b, c, 0);
    }
    assert forall|a: Seq<char>, b: Seq<char>|
        !#[trigger] chars_lt(a, b) && !#[trigger] chars_lt(b, a) implies a == b by {
        lemma_chars_lt_from_total(a, b, 0);
    }
}

/// The characters of a string slice, in order.
pub fn chars_of(s: &str) -> (r: Vec<char>)
    ensures
        r@ == s@,
{
    let n = s.unicode_len();
    let mut r: Vec<char> = Vec::new();
    let mut i: usize = 0;
    while i < n
        invariant
            n == s@.len(),
            i <= n,
            r@ == s@.subrange(0, i as int),
        decreases n - i,
    {
        r.push(s.get_char(i));
        i = i + 1;
    }
    r
}

/// Three-way lexicographic comparison of two strings, by code point.
pub fn compare_str(a: &str, b: &str) -> (r: Rank)
    ensures
        r == Rank::Before <==> chars_lt(a@, b@),
        r == Rank::After <==> chars_lt(b@, a@),
        r == Rank::Same <==> a@ == b@,
{
    let x = chars_of(a);
    let y = chars_of(b);
    let mut i: usize = 0;
    proof {
        lemma_chars_lt_order();
    }
    while i < x.len() && i < y.len()
        invariant
            x@ == a@,
            y@ == b@,
            i <= x.len(),
            i <= y.len(),
            forall|j: int| 0 <= j < i ==> x@[j] == y@[j],
            chars_lt(a@, b@) == chars_lt_from(a@, b@, i as int),
            chars_lt(b@, a@) == chars_lt_from(b@, a@, i as int),
        decreases x.len() - i,
    {
        let c = x[i];
        let d = y[i];
        if c < d {
            proof {
                assert(a@[i as int] != b@[i as int]);
            }
            return Rank::Before;
        }
        if c > d {
            proof {
                assert(a@[i as int] != b@[i as int]);
            }
            return Rank::After;
        }
        assert(c == d);
        i = i + 1;
    }
    if x.len() < y.len() {
        assert(a@.len() != b@.len());
        Rank::Before
    } else if x.len() > y.len() {
        assert(a@.len() != b@.len());
        Rank::After
    } else {
        assert(a@ =~= b@);
        Rank::Same
    }
}

/// The `White_Space` property of Unicode, which `char::is_whitespace` tests.
pub open spec fn is_white_space(c: char) -> bool {
    let n = c as int;
    (0x09 <= n <= 0x0D) || n == 0x20 || n == 0x85 || n == 0xA0 || n == 0x1680
        || (0x2000 <= n <= 0x200A) || n == 0x2028 || n == 0x2029 || n == 0x202F
        || n == 0x205F || n == 0x3000
}

/// Whether `c` is Unicode white space.
pub fn char_is_whitespace(c: char) -> (r: bool)
    ensures
        r == is_white_space(c),
{
    let n = c as u32;
    (0x09 <= n && n <= 0x0D) || n == 0x20 || n == 0x85 || n == 0xA0 || n == 0x1680
        || (0x2000 <= n && n <= 0x200A) || n == 0x2028 || n == 0x2029 || n == 0x202F
        || n == 0x205F || n == 0x3000
}

/// Which characters a trim removes: white space, or the path separator `/`.
#[derive(Debug, Clone, Copy, PartialEq, Eq, Structural)]
pub enum Strip {
    WhiteSpace,
    Slash,
}

pub open spec fn strips(which: Strip, c: char) -> bool {
    match which {
        Strip::WhiteSpace => is_white_space(c),
        Strip::Slash => c == '/',
    }
}

fn strip_test(which: Strip, c: char) -> (r: bool)
    ensures
        r == strips(which, c),
{
    match which {
        Strip::WhiteSpace => char_is_whitespace(c),
        Strip::Slash => c == '/',
    }
}

/// `s` without its leading characters of the given class.
pub open spec fn trim_start(s: Seq<char>, which: Strip) -> Seq<char>
    decreases s.len(),
{
    if s.len() > 0 && strips(which, s[0]) {
        trim_start(s.drop_first(), which)
    } else {
        s
    }
}

/// `s` without its trailing characters of the given class.
pub open spec fn trim_end(s: Seq<char>, which: Strip) -> Seq<char>
    decreases s.len(),
{
    if s.len() > 0 && strips(which, s.last()) {
        trim_end(s.drop_last(), which)
    } else {
        s
    }
}

/// `s` without leading and trailing characters of the class (`str::trim`
/// for white space, `trim_matches('/')` for slashes).
pub open spec fn trim(s: Seq<char>, which: Strip) -> Seq<char> {
    trim_end(trim_start(s, which), which)
}

proof fn lemma_trim_start_skip(s: Seq<char>, which: Strip, i: int)
    requires
        0 <= i <= s.len(),
        forall|k: int| 0 <= k < i ==> strips(which, #[trigger] s[k]),
    ensures
        trim_start(s, which) == trim_start(s.subrange(i, s.len() as int), which),
    decreases i,
{
    if i > 0 {
        lemma_trim_start_skip(s, which, i - 1);
        let t = s.subrange(i - 1, s.len() as int);
        assert(t[0] == s[i - 1]);
        assert(t.drop_first() =~= s.subrange(i, s.len() as int));
    } else {
        assert(s.subrange(0, s.len() as int) =~= s);
    }
}

proof fn lemma_trim_end_skip(s: Seq<char>, which: Strip, j: int)
    requires
        0 <= j <= s.len(),
        forall|k: int| j <= k < s.len() ==> strips(which, #[trigger] s[k]),
    ensures
        trim_end(s, which) == trim_end(s.subrange(0, j), which),
    decreases s.len() - j,
{
    if j < s.len() {
        lemma_trim_end_skip(s, which, j + 1);
        let t = s.subrange(0, j + 1);
        assert(t.last() == s[j]);
        assert(t.drop_last() =~= s.subrange(0, j));
    } else {
        assert(s.subrange(0, j) =~= s);
    }
}

/// The characters of `v` without leading and trailing ones of the class.
pub fn trim_chars(v: &[char], which: Strip) -> (r: Vec<char>)
    ensures
        r@ == trim(v@, which),
{
    let n = v.len();
    let mut i: usize = 0;
    while i < n && strip_test(which, v[i])
        invariant
            n == v@.len(),
            i <= n,
            forall|k: int| 0 <= k < i ==> strips(which, #[trigger] v@[k]),
        decreases n - i,
    {
        i = i + 1;
    }
    proof {
        lemma_trim_start_skip(v@, which, i as int);
    }
    let ghost rest = v@.subrange(i as int, n as int);
    assert(trim_start(v@, which) == rest);
    let mut j: usize = n;
    while j > i && strip_test(which, v[j - 1])
        invariant
            n == v@.len(),
            i <= j <= n,
            forall|k: int| j <= k < n ==> strips(which, #[trigger] v@[k]),
        decreases j,
    {
        j = j - 1;
    }
    proof {
        let m = (j - i) as int;
        assert forall|k: int| m <= k < rest.len() implies strips(which, #[trigger] rest[k]) by {
            assert(rest[k] == v@[i + k]);
        }
        lemma_trim_end_skip(rest, which, m);
    }
    let mut out: Vec<char> = Vec::new();
    let mut k: usize = i;
    while k < j
        invariant
            n == v@.len(),
            i <= k <= j <= n,
            out@ == v@.subrange(i as int, k as int),
        decreases j - k,
    {
        out.push(v[k]);
        k = k + 1;
        assert(out@ =~= v@.subrange(i as int, k as int));
    }
    assert(rest.subrange(0, (j - i) as int) =~= v@.subrange(i as int, j as int));
    out
}

/// `pat` occurs in `s` at index `i`.
pub open spec fn occurs_at(s: Seq<char>, pat: Seq<char>, i: int) -> bool {
    0 <= i && i + pat.len() <= s.len() && s.subrange(i, i + pat.len()) == pat
}

/// `i` is the first index from `from` on where `pat` occurs in `s`.
pub open spec fn is_first_occurrence(s: Seq<char>, pat: Seq<char>, from: int, i: int) -> bool {
    from <= i && occurs_at(s, pat, i) && forall|j: int| from <= j < i ==> !#[trigger] occurs_at(s, pat, j)
}

/// The first index from `from` on where `pat` occurs in `s` (what
/// `str::find` on `&s[from..]` reports, counted from the start of `s`).
pub open spec fn find_spec(s: Seq<char>, pat: Seq<char>, from: int) -> Option<int> {
    if exists|i: int| is_first_occurrence(s, pat, from, i) {
        Some(choose|i: int| is_first_occurrence(s, pat, from, i))
    } else {
        None
    }
}

proof fn lemma_first_occurrence_unique(s: Seq<char>, pat: Seq<char>, from: int, i: int)
    requires
        is_first_occurrence(s, pat, from, i),
    ensures
        find_spec(s, pat, from) == Some(i),
{
    let j = choose|j: int| is_first_occurrence(s, pat, from, j);
    if j < i {
        assert(!occurs_at(s, pat, j));
    }
    if i < j {
        assert(!occurs_at(s, pat, i));
    }
}

fn occurs_here(s: &Vec<char>, pat: &Vec<char>, i: usize) -> (r: bool)
    requires
        i + pat@.len() <= s@.len(),
    ensures
        r == occurs_at(s@, pat@, i as int),
{
    let n = s.len();
    let mut k: usize = 0;
    while k < pat.len()
        invariant
            n == s@.len(),
            i + pat@.len() <= s@.len(),
            k <= pat@.len(),
            forall|m: int| 0 <= m < k ==> s@[i + m] == pat@[m],
        decreases pat.len() - k,
    {
        assert(i + k < n);
        if s[i + k] != pat[k] {
            proof {
                if occurs_at(s@, pat@, i as int) {
                    assert(s@.subrange(i as int, i + pat@.len())[k as int] == s@[i + k]);
                }
            }
            return false;
        }
        k = k + 1;
    }
    assert(s@.subrange(i as int, i + pat@.len()) =~= pat@);
    true
}

/// The first index from `from` on where `pat` occurs in `s`.
pub fn find_from(s: &Vec<char>, pat: &Vec<char>, from: usize) -> (r: Option<usize>)
    ensures
        match r {
            Some(i) => find_spec(s@, pat@, from as int) == Some(i as int) && is_first_occurrence(s@, pat@, from as int, i as int),
            None => find_spec(s@, pat@, from as int) is None
                && forall|j: int| from <= j ==> !#[trigger] occurs_at(s@, pat@, j),
        },
{
    if pat.len() > s.len() {
        proof {
            assert forall|j: int| from <= j implies !#[trigger] occurs_at(s@, pat@, j) by {}
        }
        return None;
    }
    let last = s.len() - pat.len();
    if from > last {
        return None;
    }
    let mut i: usize = from;
    while i < last
        invariant
            last == s@.len() - pat@.len(),
            from <= i <= last,
            forall|j: int| from <= j < i ==> !#[trigger] occurs_at(s@, pat@, j),
        decreases last - i,
    {
        if occurs_here(s, pat, i) {
            proof {
                lemma_first_occurrence_unique(s@, pat@, from as int, i as int);
            }
            return Some(i);
        }
        i = i + 1;
    }
    if occurs_here(s, pat, last) {
        proof {
            lemma_first_occurrence_unique(s@, pat@, from as int, last as int);
        }
        return Some(last);
    }
    None
}

/// The characters of `v` without trailing ones of the class.
pub fn trim_end_chars(v: &[char], which: Strip) -> (r: Vec<char>)
    ensures
        r@ == trim_end(v@, which),
{
    let n = v.len();
    let mut j: usize = n;
    while j > 0 && strip_test(which, v[j - 1])
        invariant
            n == v@.len(),
            j <= n,
            forall|k: int| j <= k < n ==> strips(which, #[trigger] v@[k]),
        decreases j,
    {
        j = j - 1;
    }
    proof {
        lemma_trim_end_skip(v@, which, j as int);
    }
    let mut out: Vec<char> = Vec::new();
    let mut k: usize = 0;
    while k < j
        invariant
            j <= n,
            n == v@.len(),
            k <= j,
            out@ == v@.subrange(0, k as int),
        decreases j - k,
    {
        out.push(v[k]);
        k = k + 1;
        assert(out@ =~= v@.subrange(0, k as int));
    }
    proof {
        if j > 0 {
            assert(!strips(which, v@.subrange(0, j as int).last()));
        }
        assert(trim_end(v@.subrange(0, j as int), which) == v@.subrange(0, j as int));
    }
    out
}

} // verus!
