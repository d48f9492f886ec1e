//! Character-level helpers: Unicode white space, trimming, and building
//! strings from characters.

use vstd::prelude::*;

verus! {

/// The Unicode `White_Space` property (PropList.txt), the set that
/// `char::is_whitespace` and `str::trim` go by.
pub open spec fn is_white_space(c: char) -> bool {
    let u = c as u32;
    ||| 0x9 <= u <= 0xD
    ||| u == 0x20
    ||| u == 0x85
    ||| u == 0xA0
    ||| u == 0x1680
    ||| 0x2000 <= u <= 0x200A
    ||| u == 0x2028
    ||| u == 0x2029
    ||| u == 0x202F
    ||| u == 0x205F
    ||| u == 0x3000
}

/// Whether `c` carries the Unicode `White_Space` property.
pub fn is_whitespace(c: char) -> (r: bool)
    ensures
        r == is_white_space(c),
{
    let u = c as u32;
    (0x9 <= u && u <= 0xD) || u == 0x20 || u == 0x85 || u == 0xA0 || u == 0x1680 || (0x2000
        <= u && u <= 0x200A) || u == 0x2028 || u == 0x2029 || u == 0x202F || u == 0x205F || u
        == 0x3000
}


/// The characters of `s` with leading white space removed.
pub open spec fn trim_front(s: Seq<char>) -> Seq<char>
    decreases s.len(),
{
    if s.len() > 0 && is_white_space(s[0]) {
        trim_front(s.drop_first())
    } else {
        s
    }
}

/// The characters of `s` with trailing white space removed.
pub open spec fn trim_back(s: Seq<char>) -> Seq<char>
    decreases s.len(),
{
    if s.len() > 0 && is_white_space(s.last()) {
        trim_back(s.drop_last())
    } else {
        s
    }
}

/// The characters of `s` with leading and trailing white space removed.
pub open spec fn trim_spec(s: Seq<char>) -> Seq<char> {
    trim_back(trim_front(s))
}

/// Appends one character to a string, through `String::push`.
#[verifier::external_body]
pub(crate) fn push_char(s: &mut String, c: char)
    ensures
        final(s)@ == old(s)@.push(c),
{
    s.push(c);
}

/// The characters of `s`, in order.
pub fn chars_of(s: &str) -> (v: Vec<char>)
    ensures
        v@ == s@,
{
    broadcast use vstd::string::group_string_axioms;

    let mut v: Vec<char> = Vec::new();
    for c in it: s.chars()
        invariant
            v@ == it.seq().take(it.index() as int),
    {
        v.push(c);
        assert(v@ == it.seq().take(it.index() + 1));
    }
    v
}

/// The string made of `v[from..to]`.
pub fn string_from_range(v: &Vec<char>, from: usize, to: usize) -> (s: String)
    requires
        from <= to <= v.len(),
    ensures
        s@ == v@.subrange(from as int, to as int),
{
    let mut s = String::new();
    let mut i = from;
    while i < to
        invariant
            from <= i <= to <= v.len(),
            s@ == v@.subrange(from as int, i as int),
        decreases to - i,
    {
        push_char(&mut s, v[i]);
        assert(s@ == v@.subrange(from as int, i + 1));
        i = i + 1;
    }
    s
}

/// The string made of all of `v`.
pub fn string_from_chars(v: &Vec<char>) -> (s: String)
    ensures
        s@ == v@,
{
    let s = string_from_range(v, 0, v.len());
    assert(v@.subrange(0, v@.len() as int) == v@);
    s
}

proof fn lemma_trim_front_skip(s: Seq<char>, i: int)
    requires
        0 <= i <= s.len(),
        forall|k: int| 0 <= k < i ==> is_white_space(#[trigger] s[k]),
    ensures
        trim_front(s) == trim_front(s.skip(i)),
    decreases i,
{
    if i > 0 {
        lemma_trim_front_skip(s, i - 1);
        assert(s.skip(i - 1).drop_first() == s.skip(i));
    } else {
        assert(s.skip(0) == s);
    }
}

proof fn lemma_trim_back_take(s: Seq<char>, j: int)
    requires
        0 <= j <= s.len(),
        forall|k: int| j <= k < s.len() ==> is_white_space(#[trigger] s[k]),
    ensures
        trim_back(s) == trim_back(s.take(j)),
    decreases s.len() - j,
{
    if j < s.len() {
        lemma_trim_back_take(s, j + 1);
        assert(s.take(j + 1).drop_last() == s.take(j));
    } else {
        assert(s.take(j) == s);
    }
}

/// The bounds `(start, end)` of `v` with leading and trailing white space
/// removed.
pub fn trim_bounds(v: &Vec<char>) -> (r: (usize, usize))
    ensures
        r.0 <= r.1 <= v.len(),
        v@.subrange(r.0 as int, r.1 as int) == trim_spec(v@),
        forall|k: int| 0 <= k < r.0 ==> is_white_space(#[trigger] v@[k]),
        forall|k: int| r.1 <= k < v.len() ==> is_white_space(#[trigger] v@[k]),
{
    let n = v.len();
    let mut i: usize = 0;
    while i < n && is_whitespace(v[i])
        invariant
            i <= n == v.len(),
            forall|k: int| 0 <= k < i ==> is_white_space(#[trigger] v@[k]),
        decreases n - i,
    {
        i = i + 1;
    }
    let mut j: usize = n;
    while j > i && is_whitespace(v[j - 1])
        invariant
            i <= j <= n == v.len(),
            forall|k: int| j <= k < n ==> is_white_space(#[trigger] v@[k]),
        decreases j - i,
    {
        j = j - 1;
    }
    proof {
        lemma_trim_front_skip(v@, i as int);
        let t = v@.skip(i as int);
        if i < n {
            assert(!is_white_space(t[0]));
        }
        assert(trim_front(t) == t);
        lemma_trim_back_take(t, j - i);
        let u = t.take(j - i);
        if j > i {
            assert(u.last() == v@[j - 1]);
        }
        assert(trim_back(u) == u);
        assert(u == v@.subrange(i as int, j as int));
    }
    (i, j)
}

/// The number of white-space characters at the start of `s`.
spec fn leading_white(s: Seq<char>) -> nat
    decreases s.len(),
{
    if s.len() > 0 && is_white_space(s[0]) {
        1 + leading_white(s.drop_first())
    } else {
        0
    }
}

/// The number of white-space characters at the end of `s`.
spec fn trailing_white(s: Seq<char>) -> nat
    decreases s.len(),
{
    if s.len() > 0 && is_white_space(s.last()) {
        1 + trailing_white(s.drop_last())
    } else {
        0
    }
}

proof fn lemma_leading_white(s: Seq<char>)
    ensures
        leading_white(s) <= s.len(),
        forall|k: int| 0 <= k < leading_white(s) ==> is_white_space(#[trigger] s[k]),
        leading_white(s) < s.len() ==> !is_white_space(s[leading_white(s) as int]),
    decreases s.len(),
{
    if s.len() > 0 && is_white_space(s[0]) {
        let t = s.drop_first();
        lemma_leading_white(t);
        assert forall|k: int| 0 <= k < leading_white(s) implies is_white_space(#[trigger] s[k]) by {
            if k > 0 {
                assert(s[k] == t[k - 1]);
            }
        }
        if leading_white(s) < s.len() {
            assert(s[leading_white(s) as int] == t[leading_white(t) as int]);
        }
    }
}

proof fn lemma_trailing_white(s: Seq<char>)
    ensures
        trailing_white(s) <= s.len(),
        forall|k: int| s.len() - trailing_white(s) <= k < s.len() ==> is_white_space(#[trigger] s[k]),
        trailing_white(s) < s.len() ==> !is_white_space(s[s.len() - trailing_white(s) - 1]),
    decreases s.len(),
{
    if s.len() > 0 && is_white_space(s.last()) {
        let t = s.drop_last();
        lemma_trailing_white(t);
        assert forall|k: int| s.len() - trailing_white(s) <= k < s.len() implies is_white_space(
            #[trigger] s[k],
        ) by {
            if k < s.len() - 1 {
                assert(s[k] == t[k]);
            }
        }
        if trailing_white(s) < s.len() {
            assert(s[s.len() - trailing_white(s) - 1] == t[t.len() - trailing_white(t) - 1]);
        }
    }
}

/// Whether `s[i..j]` is `s` without its leading and trailing white space:
/// all before `i` and all from `j` on is white space, and a nonempty
/// `s[i..j]` starts and ends with other characters.
spec fn is_trim_range(s: Seq<char>, i: int, j: int) -> bool {
    &&& 0 <= i <= j <= s.len()
    &&& forall|k: int| 0 <= k < i ==> is_white_space(#[trigger] s[k])
    &&& forall|k: int| j <= k < s.len() ==> is_white_space(#[trigger] s[k])
    &&& i < j ==> !is_white_space(s[i]) && !is_white_space(s[j - 1])
}

proof fn lemma_trim_range(s: Seq<char>, i: int, j: int)
    requires
        is_trim_range(s, i, j),
    ensures
        trim_spec(s) == s.subrange(i, j),
{
    if i < j {
        lemma_trim_front_skip(s, i);
        let t = s.skip(i);
        assert(!is_white_space(t[0]));
        assert(trim_front(t) == t);
        lemma_trim_back_take(t, j - i);
        let u = t.take(j - i);
        assert(u.last() == s[j - 1]);
        assert(trim_back(u) == u);
        assert(u == s.subrange(i, j));
    } else {
        assert forall|k: int| 0 <= k < s.len() implies is_white_space(#[trigger] s[k]) by {
            if k >= j {
            }
        }
        lemma_trim_front_skip(s, s.len() as int);
        assert(s.skip(s.len() as int).len() == 0);
        assert(trim_back(trim_front(s)).len() == 0);
        assert(s.subrange(i, j) =~= Seq::<char>::empty());
    }
}

proof fn lemma_trim_range_exists(s: Seq<char>) -> (r: (int, int))
    ensures
        is_trim_range(s, r.0, r.1),
{
    lemma_leading_white(s);
    lemma_trailing_white(s);
    let i = leading_white(s) as int;
    if i == s.len() {
        (i, i)
    } else {
        let j = s.len() - trailing_white(s);
        assert(i < j) by {
            if j <= i {
                assert(is_white_space(s[i]));
            }
        }
        (i, j)
    }
}

/// Trimming twice is trimming once.
pub proof fn lemma_trim_idempotent(s: Seq<char>)
    ensures
        trim_spec(trim_spec(s)) == trim_spec(s),
{
    let (i, j) = lemma_trim_range_exists(s);
    lemma_trim_range(s, i, j);
    let t = s.subrange(i, j);
    if i < j {
        assert(t[0] == s[i] && t[t.len() - 1] == s[j - 1]);
    }
    lemma_trim_range(t, 0, t.len() as int);
    assert(t.subrange(0, t.len() as int) == t);
}

/// White space added before and after a text does not change what
/// trimming it gives.
pub proof fn lemma_trim_surrounding(pre: Seq<char>, s: Seq<char>, post: Seq<char>)
    requires
        forall|k: int| 0 <= k < pre.len() ==> is_white_space(#[trigger] pre[k]),
        forall|k: int| 0 <= k < post.len() ==> is_white_space(#[trigger] post[k]),
    ensures
        trim_spec(pre + s + post) == trim_spec(s),
{
    let x = pre + s + post;
    let (i, j) = lemma_trim_range_exists(s);
    lemma_trim_range(s, i, j);
    let p = pre.len() as int;
    if i < j {
        assert forall|k: int| 0 <= k < p + i implies is_white_space(#[trigger] x[k]) by {
            if k < p {
                assert(x[k] == pre[k]);
            } else {
                assert(x[k] == s[k - p]);
            }
        }
        assert forall|k: int| p + j <= k < x.len() implies is_white_space(#[trigger] x[k]) by {
            if k < p + s.len() {
                assert(x[k] == s[k - p]);
            } else {
                assert(x[k] == post[k - p - s.len()]);
            }
        }
        assert(x[p + i] == s[i] && x[p + j - 1] == s[j - 1]);
        lemma_trim_range(x, p + i, p + j);
        assert(x.subrange(p + i, p + j) =~= s.subrange(i, j));
    } else {
        assert forall|k: int| 0 <= k < x.len() implies is_white_space(#[trigger] x[k]) by {
            if k < p {
                assert(x[k] == pre[k]);
            } else if k < p + s.len() {
                assert(x[k] == s[k - p]);
                if k - p >= j {
                } else {
                    assert(k - p < i);
                }
            } else {
                assert(x[k] == post[k - p - s.len()]);
            }
        }
        lemma_trim_range(x, 0, 0);
    }
}

/// `s` with leading and trailing white space removed, as `str::trim` does.
pub fn trim(s: &str) -> (r: String)
    ensures
        r@ == trim_spec(s@),
{
    let v = chars_of(s);
    let (i, j) = trim_bounds(&v);
    string_from_range(&v, i, j)
}


/// Whether `a` and `b` hold the same characters.
pub fn chars_equal(a: &Vec<char>, b: &Vec<char>) -> (r: bool)
    ensures
        r == (a@ == b@),
{
    if a.len() != b.len() {
        return false;
    }
    let mut i: usize = 0;
    while i < a.len()
        invariant
            i <= a.len() == b.len(),
            a@.take(i as int) == b@.take(i as int),
        decreases a.len() - i,
    {
        if a[i] != b[i] {
            assert(a@[i as int] != b@[i as int]);
            return false;
        }
        assert(a@.take(i + 1) == a@.take(i as int).push(a@[i as int]));
        assert(b@.take(i + 1) == b@.take(i as int).push(b@[i as int]));
        i = i + 1;
    }
    assert(a@.take(a.len() as int) == a@);
    assert(b@.take(b.len() as int) == b@);
    true
}

/// Whether `v[at..at + p.len()]` is `p`.
pub fn matches_at(v: &Vec<char>, at: usize, p: &Vec<char>) -> (r: bool)
    requires
        at + p.len() <= v.len(),
    ensures
        r == (v@.subrange(at as int, at + p.len()) == p@),
{
    let mut i: usize = 0;
    while i < p.len()
        invariant
            at + p.len() <= v.len(),
            i <= p.len(),
            v@.subrange(at as int, at + i) == p@.take(i as int),
        decreases p.len() - i,
    {
        if v[at + i] != p[i] {
            assert(v@.subrange(at as int, at + p.len())[i as int] != p@[i as int]);
            return false;
        }
        assert(v@.subrange(at as int, at + i + 1) == v@.subrange(at as int, at + i).push(
            v@[at + i],
        ));
        assert(p@.take(i + 1) == p@.take(i as int).push(p@[i as int]));
        i = i + 1;
    }
    assert(p@.take(p.len() as int) == p@);
    true
}

/// Whether `v` begins with `p`.
pub fn has_prefix(v: &Vec<char>, p: &Vec<char>) -> (r: bool)
    ensures
        r == (p.len() <= v.len() && v@.take(p.len() as int) == p@),
{
    if p.len() > v.len() {
        return false;
    }
    assert(v@.subrange(0, p.len() as int) == v@.take(p.len() as int));
    matches_at(v, 0, p)
}

/// Whether `v` ends with `p`.
pub fn has_suffix(v: &Vec<char>, p: &Vec<char>) -> (r: bool)
    ensures
        r == (p.len() <= v.len() && v@.skip(v.len() - p.len()) == p@),
{
    if p.len() > v.len() {
        return false;
    }
    let at = v.len() - p.len();
    assert(v@.subrange(at as int, at + p.len()) == v@.skip(at as int));
    matches_at(v, at, p)
}

/// The position of the first `c` in `s` (when `c` occurs in `s`).
pub open spec fn first_index(s: Seq<char>, c: char) -> int {
    choose|i: int| 0 <= i < s.len() && s[i] == c && !s.take(i).contains(c)
}

/// The part of `s` before the first `c` and the part after it; `None` when
/// `c` does not occur.
pub open spec fn split_once_spec(s: Seq<char>, c: char) -> Option<(Seq<char>, Seq<char>)> {
    if s.contains(c) {
        let i = first_index(s, c);
        Some((s.take(i), s.skip(i + 1)))
    } else {
        None
    }
}

/// Splitting at the first `c` a text that is `name`, then `c`, then
/// `rest`, where `name` holds no `c`, gives back `name` and `rest`.
pub proof fn lemma_split_once_at(name: Seq<char>, c: char, rest: Seq<char>)
    requires
        !name.contains(c),
    ensures
        split_once_spec(name + seq![c] + rest, c) == Some((name, rest)),
{
    let s = name + seq![c] + rest;
    let n = name.len() as int;
    assert(s[n] == c);
    assert(s.take(n) == name);
    assert(s.contains(c));
    let i = first_index(s, c);
    assert(i == n) by {
        if i < n {
            assert(name[i] == s[i]);
            assert(name.contains(c));
        } else if i > n {
            assert(s.take(i)[n] == c);
            assert(s.take(i).contains(c));
        }
    }
    assert(s.skip(n + 1) == rest);
}

/// The index of the first `c` in `v`, or `None`.
pub fn find_char(v: &Vec<char>, c: char) -> (r: Option<usize>)
    ensures
        r is None ==> !v@.contains(c),
        r matches Some(i) ==> i < v.len() && v@[i as int] == c && !v@.take(i as int).contains(c),
{
    let mut i: usize = 0;
    while i < v.len()
        invariant
            i <= v.len(),
            !v@.take(i as int).contains(c),
        decreases v.len() - i,
    {
        if v[i] == c {
            return Some(i);
        }
        assert(v@.take(i + 1) == v@.take(i as int).push(v@[i as int]));
        i = i + 1;
    }
    assert(v@.take(v.len() as int) == v@);
    None
}

/// Splits `s` at the first `c`, as `str::split_once` does.
pub fn split_once(s: &Vec<char>, c: char) -> (r: Option<(String, String)>)
    ensures
        r is None <==> split_once_spec(s@, c) is None,
        r matches Some((a, b)) ==> split_once_spec(s@, c) == Some((a@, b@)),
{
    match find_char(s, c) {
        None => None,
        Some(i) => {
            proof {
                assert(s@.contains(c)) by {
                    assert(s@[i as int] == c);
                }
                assert(0 <= i < s@.len() && s@[i as int] == c && !s@.take(i as int).contains(c));
                let j = first_index(s@, c);
                if j < i {
                    assert(s@.take(i as int)[j] == c);
                } else if i < j {
                    assert(s@.take(j)[i as int] == c);
                }
                assert(j == i);
                assert(split_once_spec(s@, c) == Some((s@.take(i as int), s@.skip(i + 1))));
            }
            let a = string_from_range(s, 0, i);
            let b = string_from_range(s, i + 1, s.len());
            assert(s@.subrange(0, i as int) == s@.take(i as int));
            assert(s@.subrange(i + 1, s.len() as int) == s@.skip(i + 1));
            Some((a, b))
        },
    }
}


/// Whether `a` comes strictly before `b` in lexicographic order of code
/// points (the order of `String`'s `Ord`, since UTF-8 keeps code-point
/// order).
pub open spec fn chars_lt(a: Seq<char>, b: Seq<char>) -> bool
    decreases a.len(),
{
    if b.len() == 0 {
        false
    } else if a.len() == 0 {
        true
    } else if (a[0] as u32) < (b[0] as u32) {
        true
    } else if a[0] == b[0] {
        chars_lt(a.drop_first(), b.drop_first())
    } else {
        false
    }
}

/// `chars_lt` is a strict total order: irreflexive, total on distinct
/// sequences, asymmetric and transitive.
pub proof fn lemma_chars_lt_order(a: Seq<char>, b: Seq<char>, c: Seq<char>)
    ensures
        !chars_lt(a, a),
        a != b ==> (chars_lt(a, b) || chars_lt(b, a)),
        chars_lt(a, b) ==> !chars_lt(b, a),
        chars_lt(a, b) && chars_lt(b, c) ==> chars_lt(a, c),
    decreases a.len(),
{
    if a.len() > 0 {
        lemma_chars_lt_order(a.drop_first(), b.drop_first(), c.drop_first());
        lemma_chars_lt_order(a.drop_first(), a.drop_first(), a.drop_first());
        if b.len() > 0 && a[0] != b[0] {
            vstd::utf8::char_u32_cast(a[0], a[0] as u32);
            vstd::utf8::char_u32_cast(b[0], b[0] as u32);
        }
        if b.len() > 0 && a[0] == b[0] && a != b {
            assert(a.drop_first() != b.drop_first()) by {
                if a.drop_first() == b.drop_first() {
                    assert(a =~= seq![a[0]] + a.drop_first());
                    assert(b =~= seq![b[0]] + b.drop_first());
                }
            }
        }
    } else {
        if b.len() == 0 {
            assert(a =~= b);
        }
    }
}

/// Whether `a` comes strictly before `b` (see `chars_lt`).
pub fn chars_less(a: &Vec<char>, b: &Vec<char>) -> (r: bool)
    ensures
        r == chars_lt(a@, b@),
{
    let mut i: usize = 0;
    assert(a@.skip(0) == a@ && b@.skip(0) == b@);
    while i < a.len() && i < b.len() && a[i] == b[i]
        invariant
            i <= a.len(),
            i <= b.len(),
            chars_lt(a@, b@) == chars_lt(a@.skip(i as int), b@.skip(i as int)),
        decreases a.len() - i,
    {
        assert(a@.skip(i as int).drop_first() == a@.skip(i + 1));
        assert(b@.skip(i as int).drop_first() == b@.skip(i + 1));
        i = i + 1;
    }
    if i == b.len() {
        false
    } else if i == a.len() {
        true
    } else {
        assert(a@.skip(i as int)[0] == a@[i as int]);
        assert(b@.skip(i as int)[0] == b@[i as int]);
        (a[i] as u32) < (b[i] as u32)
    }
}

} // verus!
