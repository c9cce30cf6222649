//! Whitespace trimming of user input, as `str::trim` does it.

use vstd::prelude::*;
use vstd::string::StrSliceExecFns;

verus! {

/// The Unicode White_Space property, which `str::trim` strips.
pub open spec fn is_unicode_whitespace(c: char) -> bool {
    let u = c as u32;
    ||| (0x9 <= u && u <= 0xD)
    ||| u == 0x20
    ||| u == 0x85
    ||| u == 0xA0
    ||| u == 0x1680
    ||| (0x2000 <= u && u <= 0x200A)
    ||| u == 0x2028
    ||| u == 0x2029
    ||| u == 0x202F
    ||| u == 0x205F
    ||| u == 0x3000
}

/// `s` without its leading whitespace.
pub open spec fn trim_start_chars(s: Seq<char>) -> Seq<char>
    decreases s.len(),
{
    if s.len() > 0 && is_unicode_whitespace(s[0]) {
        trim_start_chars(s.drop_first())
    } else {
        s
    }
}

/// `s` without its trailing whitespace.
pub open spec fn trim_end_chars(s: Seq<char>) -> Seq<char>
    decreases s.len(),
{
    if s.len() > 0 && is_unicode_whitespace(s.last()) {
        trim_end_chars(s.drop_last())
    } else {
        s
    }
}

/// `s` without leading and trailing whitespace.
pub open spec fn trim_chars(s: Seq<char>) -> Seq<char> {
    trim_end_chars(trim_start_chars(s))
}

/// Whether `c` is Unicode whitespace.
pub fn is_whitespace_char(c: char) -> (b: bool)
    ensures
        b == is_unicode_whitespace(c),
{
    let u = c as u32;
    (0x9 <= u && u <= 0xD) || u == 0x20 || u == 0x85 || u == 0xA0 || u == 0x1680 || (0x2000
        <= u && u <= 0x200A) || u == 0x2028 || u == 0x2029 || u == 0x202F || u == 0x205F || u
        == 0x3000
}

proof fn lemma_trim_start_at(s: Seq<char>, i: int)
    requires
        0 <= i <= s.len(),
        forall|k: int| 0 <= k < i ==> is_unicode_whitespace(#[trigger] s[k]),
        i == s.len() || !is_unicode_whitespace(s[i]),
    ensures
        trim_start_chars(s) == s.subrange(i, s.len() as int),
    decreases i,
{
    if i == 0 {
        assert(s.subrange(0, s.len() as int) =~= s);
    } else {
        let t = s.drop_first();
        assert forall|k: int| 0 <= k < i - 1 implies is_unicode_whitespace(#[trigger] t[k]) by {
            assert(t[k] == s[k + 1]);
        }
        if i < s.len() {
            assert(t[i - 1] == s[i]);
        }
        lemma_trim_start_at(t, i - 1);
        assert(t.subrange(i - 1, t.len() as int) =~= s.subrange(i, s.len() as int));
    }
}

proof fn lemma_trim_end_at(s: Seq<char>, j: int)
    requires
        0 <= j <= s.len(),
        forall|k: int| j <= k < s.len() ==> is_unicode_whitespace(#[trigger] s[k]),
        j == 0 || !is_unicode_whitespace(s[j - 1]),
    ensures
        trim_end_chars(s) == s.subrange(0, j),
    decreases s.len() - j,
{
    if j == s.len() {
        assert(s.subrange(0, j) =~= s);
    } else {
        let t = s.drop_last();
        assert forall|k: int| j <= k < t.len() implies is_unicode_whitespace(#[trigger] t[k]) by {
            assert(t[k] == s[k]);
        }
        if j > 0 {
            assert(t[j - 1] == s[j - 1]);
        }
        lemma_trim_end_at(t, j);
        assert(t.subrange(0, j) =~= s.subrange(0, j));
    }
}

proof fn lemma_trim_start_edge(s: Seq<char>)
    ensures
        trim_start_chars(s).len() > 0 ==> !is_unicode_whitespace(trim_start_chars(s)[0]),
    decreases s.len(),
{
    if s.len() > 0 && is_unicode_whitespace(s[0]) {
        lemma_trim_start_edge(s.drop_first());
    }
}

proof fn lemma_trim_end_prefix(s: Seq<char>)
    ensures
        trim_end_chars(s).len() <= s.len(),
        trim_end_chars(s) == s.subrange(0, trim_end_chars(s).len() as int),
        trim_end_chars(s).len() > 0 ==> !is_unicode_whitespace(trim_end_chars(s).last()),
    decreases s.len(),
{
    if s.len() > 0 && is_unicode_whitespace(s.last()) {
        lemma_trim_end_prefix(s.drop_last());
        let t = trim_end_chars(s.drop_last());
        assert(s.drop_last().subrange(0, t.len() as int) =~= s.subrange(0, t.len() as int));
    } else {
        assert(s.subrange(0, s.len() as int) =~= s);
    }
}

/// Trimmed text starts and ends with a character that is not whitespace.
pub proof fn lemma_trim_edges(s: Seq<char>)
    ensures
        trim_chars(s).len() > 0 ==> !is_unicode_whitespace(trim_chars(s)[0]),
        trim_chars(s).len() > 0 ==> !is_unicode_whitespace(trim_chars(s).last()),
{
    let u = trim_start_chars(s);
    lemma_trim_start_edge(s);
    lemma_trim_end_prefix(u);
    let t = trim_end_chars(u);
    if t.len() > 0 {
        assert(t[0] == u[0]);
    }
}

/// Trimming twice is trimming once.
pub proof fn lemma_trim_idempotent(s: Seq<char>)
    ensures
        trim_chars(trim_chars(s)) == trim_chars(s),
{
    let t = trim_chars(s);
    lemma_trim_edges(s);
    assert(trim_start_chars(t) == t);
    assert(trim_end_chars(t) == t);
}

/// `t` is `s` with whitespace removed from its two ends and nothing else:
/// `t == s[i..j]`, every character of `s` before `i` and from `j` on is
/// whitespace, and `t` neither starts nor ends with whitespace.
pub open spec fn is_whitespace_trim_of(t: Seq<char>, s: Seq<char>) -> bool {
    exists|i: int, j: int|
        {
            &&& 0 <= i <= j <= s.len()
            &&& t == s.subrange(i, j)
            &&& forall|k: int| 0 <= k < i ==> is_unicode_whitespace(#[trigger] s[k])
            &&& forall|k: int| j <= k < s.len() ==> is_unicode_whitespace(#[trigger] s[k])
            &&& i < j ==> !is_unicode_whitespace(s[i]) && !is_unicode_whitespace(s[j - 1])
        }
}

proof fn lemma_trim_start_index(s: Seq<char>) -> (a: int)
    ensures
        0 <= a <= s.len(),
        trim_start_chars(s) == s.subrange(a, s.len() as int),
        forall|k: int| 0 <= k < a ==> is_unicode_whitespace(#[trigger] s[k]),
        a < s.len() ==> !is_unicode_whitespace(s[a]),
    decreases s.len(),
{
    if s.len() > 0 && is_unicode_whitespace(s[0]) {
        let t = s.drop_first();
        let a1 = lemma_trim_start_index(t);
        assert(t.subrange(a1, t.len() as int) =~= s.subrange(a1 + 1, s.len() as int));
        assert forall|k: int| 0 <= k < a1 + 1 implies is_unicode_whitespace(#[trigger] s[k]) by {
            if k > 0 {
                assert(s[k] == t[k - 1]);
            }
        }
        if a1 + 1 < s.len() {
            assert(s[a1 + 1] == t[a1]);
        }
        a1 + 1
    } else {
        assert(s.subrange(0, s.len() as int) =~= s);
        0
    }
}

proof fn lemma_trim_end_index(s: Seq<char>) -> (b: int)
    ensures
        0 <= b <= s.len(),
        trim_end_chars(s) == s.subrange(0, b),
        forall|k: int| b <= k < s.len() ==> is_unicode_whitespace(#[trigger] s[k]),
        b > 0 ==> !is_unicode_whitespace(s[b - 1]),
    decreases s.len(),
{
    if s.len() > 0 && is_unicode_whitespace(s.last()) {
        let t = s.drop_last();
        let b1 = lemma_trim_end_index(t);
        assert(t.subrange(0, b1) =~= s.subrange(0, b1));
        assert forall|k: int| b1 <= k < s.len() implies is_unicode_whitespace(#[trigger] s[k]) by {
            if k < t.len() {
                assert(s[k] == t[k]);
            }
        }
        if b1 > 0 {
            assert(s[b1 - 1] == t[b1 - 1]);
        }
        b1
    } else {
        assert(s.subrange(0, s.len() as int) =~= s);
        s.len() as int
    }
}

/// Trimming removes whitespace from the two ends of the text and nothing
/// else: no length limit, no other character dropped or changed.
pub proof fn lemma_trim_removes_only_edge_whitespace(s: Seq<char>)
    ensures
        is_whitespace_trim_of(trim_chars(s), s),
{
    let a = lemma_trim_start_index(s);
    let u = trim_start_chars(s);
    let b = lemma_trim_end_index(u);
    let t = trim_chars(s);
    assert(t =~= s.subrange(a, a + b));
    assert forall|k: int| a + b <= k < s.len() implies is_unicode_whitespace(#[trigger] s[k]) by {
        assert(s[k] == u[k - a]);
    }
    if a < a + b {
        assert(s[a + b - 1] == u[b - 1]);
    }
    assert(0 <= a <= a + b <= s.len());
}

/// Text that neither starts nor ends with whitespace trims to itself.
pub proof fn lemma_trim_keeps_unpadded_text(s: Seq<char>)
    requires
        s.len() > 0 ==> !is_unicode_whitespace(s[0]) && !is_unicode_whitespace(s.last()),
    ensures
        trim_chars(s) == s,
{
    assert(trim_start_chars(s) == s);
    assert(trim_end_chars(s) == s);
}

/// The description of a trim pins the result: two results of trimming the
/// same text are equal.
pub proof fn lemma_whitespace_trim_unique(t1: Seq<char>, t2: Seq<char>, s: Seq<char>)
    requires
        is_whitespace_trim_of(t1, s),
        is_whitespace_trim_of(t2, s),
    ensures
        t1 == t2,
{
    let (i1, j1) = choose|i: int, j: int|
        {
            &&& 0 <= i <= j <= s.len()
            &&& t1 == s.subrange(i, j)
            &&& forall|k: int| 0 <= k < i ==> is_unicode_whitespace(#[trigger] s[k])
            &&& forall|k: int| j <= k < s.len() ==> is_unicode_whitespace(#[trigger] s[k])
            &&& i < j ==> !is_unicode_whitespace(s[i]) && !is_unicode_whitespace(s[j - 1])
        };
    let (i2, j2) = choose|i: int, j: int|
        {
            &&& 0 <= i <= j <= s.len()
            &&& t2 == s.subrange(i, j)
            &&& forall|k: int| 0 <= k < i ==> is_unicode_whitespace(#[trigger] s[k])
            &&& forall|k: int| j <= k < s.len() ==> is_unicode_whitespace(#[trigger] s[k])
            &&& i < j ==> !is_unicode_whitespace(s[i]) && !is_unicode_whitespace(s[j - 1])
        };
    if i1 < j1 && i2 < j2 {
        if i1 < i2 {
            assert(is_unicode_whitespace(s[i1]));
        }
        if i2 < i1 {
            assert(is_unicode_whitespace(s[i2]));
        }
        if j1 < j2 {
            assert(is_unicode_whitespace(s[j2 - 1]));
        }
        if j2 < j1 {
            assert(is_unicode_whitespace(s[j1 - 1]));
        }
        assert(i1 == i2 && j1 == j2);
    } else if i1 < j1 {
        // t2 is empty, so all of s is whitespace
        if i1 < i2 {
            assert(is_unicode_whitespace(s[i1]));
        } else {
            assert(j2 <= i1);
            assert(is_unicode_whitespace(s[i1]));
        }
    } else if i2 < j2 {
        if i2 < i1 {
            assert(is_unicode_whitespace(s[i2]));
        } else {
            assert(j1 <= i2);
            assert(is_unicode_whitespace(s[i2]));
        }
    } else {
        assert(t1 =~= t2);
    }
}

/// `s` with leading and trailing whitespace removed, as an owned string.
pub fn trim_whitespace(s: &str) -> (t: String)
    ensures
        t@ == trim_chars(s@),
        is_whitespace_trim_of(t@, s@),
{
    proof {
        lemma_trim_removes_only_edge_whitespace(s@);
    }
    let n = s.unicode_len();
    let mut i: usize = 0;
    while i < n && is_whitespace_char(s.get_char(i))
        invariant
            n == s@.len(),
            i <= n,
            forall|k: int| 0 <= k < i ==> is_unicode_whitespace(#[trigger] s@[k]),
        decreases n - i,
    {
        i = i + 1;
    }
    let mut j: usize = n;
    while j > i && is_whitespace_char(s.get_char(j - 1))
        invariant
            n == s@.len(),
            i <= j <= n,
            forall|k: int| j <= k < n ==> is_unicode_whitespace(#[trigger] s@[k]),
        decreases j - i,
    {
        j = j - 1;
    }
    proof {
        lemma_trim_start_at(s@, i as int);
        let u = s@.subrange(i as int, n as int);
        assert forall|k: int| j - i <= k < u.len() implies is_unicode_whitespace(#[trigger] u[k]) by {
            assert(u[k] == s@[k + i]);
        }
        if j > i {
            assert(u[j - i - 1] == s@[j - 1]);
        }
        lemma_trim_end_at(u, j - i);
        assert(u.subrange(0, j - i) =~= s@.subrange(i as int, j as int));
    }
    s.substring_char(i, j).to_owned()
}

} // verus!
