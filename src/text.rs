use vstd::prelude::*;
use vstd::string::*;

verus! {

/// `pat` occurs in `s` starting at index `i`.
pub open spec fn occurs_at(s: Seq<char>, pat: Seq<char>, i: int) -> bool {
    0 <= i && i + pat.len() <= s.len() && s.subrange(i, i + pat.len()) == pat
}

/// Index of the first occurrence of `pat` in `s` at or after `i`.
pub open spec fn find_from(s: Seq<char>, pat: Seq<char>, i: int) -> Option<int>
    decreases s.len() + 1 - i,
{
    if i < 0 || i + pat.len() > s.len() {
        None
    } else if occurs_at(s, pat, i) {
        Some(i)
    } else {
        find_from(s, pat, i + 1)
    }
}

/// Index of the first occurrence of `pat` in `s`.
pub open spec fn find(s: Seq<char>, pat: Seq<char>) -> Option<int> {
    find_from(s, pat, 0)
}

/// Index of the last occurrence of `pat` in `s` that starts before `n`.
pub open spec fn rfind_before(s: Seq<char>, pat: Seq<char>, n: int) -> Option<int>
    decreases n,
{
    if n <= 0 {
        None
    } else if occurs_at(s, pat, n - 1) {
        Some(n - 1)
    } else {
        rfind_before(s, pat, n - 1)
    }
}

/// Index of the last occurrence of `pat` in `s`.
pub open spec fn rfind(s: Seq<char>, pat: Seq<char>) -> Option<int> {
    rfind_before(s, pat, s.len() as int)
}

/// The characters that Unicode classes as White_Space.
pub open spec fn is_space(c: char) -> bool {
    let u = c as u32;
    (9 <= u && u <= 13) || u == 32 || u == 0x85 || u == 0xA0 || u == 0x1680 || (0x2000 <= u && u
        <= 0x200A) || u == 0x2028 || u == 0x2029 || u == 0x202F || u == 0x205F || u == 0x3000
}

/// `s` without its leading white space.
pub open spec fn trim_start(s: Seq<char>) -> Seq<char>
    decreases s.len(),
{
    if s.len() > 0 && is_space(s[0]) {
        trim_start(s.drop_first())
    } else {
        s
    }
}

/// `s` without its trailing white space.
pub open spec fn trim_end(s: Seq<char>) -> Seq<char>
    decreases s.len(),
{
    if s.len() > 0 && is_space(s.last()) {
        trim_end(s.drop_last())
    } else {
        s
    }
}

/// `s` without leading and trailing white space.
pub open spec fn trim(s: Seq<char>) -> Seq<char> {
    trim_end(trim_start(s))
}

pub open spec fn opt_int(o: Option<usize>) -> Option<int> {
    match o {
        Some(i) => Some(i as int),
        None => None,
    }
}

pub fn is_space_char(c: char) -> (r: bool)
    ensures
        r == is_space(c),
{
    let u = c as u32;
    (9 <= u && u <= 13) || u == 32 || u == 0x85 || u == 0xA0 || u == 0x1680 || (0x2000 <= u && u
        <= 0x200A) || u == 0x2028 || u == 0x2029 || u == 0x202F || u == 0x205F || u == 0x3000
}

/// The characters of `s`, one per element.
pub fn chars_of(s: &str) -> (v: Vec<char>)
    ensures
        v@ == s@,
{
    let n = s.unicode_len();
    let mut v: Vec<char> = Vec::new();
    let mut i: usize = 0;
    while i < n
        invariant
            n == s@.len(),
            i <= n,
            v@ == s@.subrange(0, i as int),
        decreases n - i,
    {
        v.push(s.get_char(i));
        i += 1;
        assert(v@ =~= s@.subrange(0, i as int));
    }
    assert(v@ =~= s@);
    v
}

/// An owned copy of the characters `from .. to` of `s`.
pub fn slice_string(s: &str, from: usize, to: usize) -> (r: String)
    requires
        from <= to <= s@.len(),
    ensures
        r@ == s@.subrange(from as int, to as int),
{
    String::from_str(s.substring_char(from, to))
}

pub fn occurs_at_exec(s: &Vec<char>, pat: &Vec<char>, i: usize) -> (r: bool)
    ensures
        r == occurs_at(s@, pat@, i as int),
{
    if i > s.len() || pat.len() > s.len() - i {
        return false;
    }
    let mut j: usize = 0;
    while j < pat.len()
        invariant
            i <= s@.len() <= usize::MAX,
            i + pat@.len() <= s@.len(),
            j <= pat@.len(),
            forall|k: int| 0 <= k < j ==> s@[i + k] == pat@[k],
        decreases pat.len() - j,
    {
        let k: usize = i + j;
        if s[k] != pat[j] {
            assert(s@.subrange(i as int, i + pat@.len())[j as int] != pat@[j as int]);
            return false;
        }
        j += 1;
    }
    assert(s@.subrange(i as int, i + pat@.len()) =~= pat@);
    true
}

pub fn find_from_exec(s: &Vec<char>, pat: &Vec<char>, start: usize) -> (r: Option<usize>)
    requires
        start <= s@.len(),
    ensures
        opt_int(r) == find_from(s@, pat@, start as int),
{
    if pat.len() == 0 {
        assert(s@.subrange(start as int, start as int) =~= pat@);
        return Some(start);
    }
    let mut i = start;
    while i <= s.len() && pat.len() <= s.len() - i
        invariant
            start <= i <= s@.len(),
            pat@.len() > 0,
            find_from(s@, pat@, start as int) == find_from(s@, pat@, i as int),
        decreases s.len() - i,
    {
        if occurs_at_exec(s, pat, i) {
            return Some(i);
        }
        i += 1;
    }
    None
}

pub fn rfind_exec(s: &Vec<char>, pat: &Vec<char>) -> (r: Option<usize>)
    ensures
        opt_int(r) == rfind(s@, pat@),
{
    let mut n = s.len();
    while n > 0
        invariant
            n <= s@.len(),
            rfind(s@, pat@) == rfind_before(s@, pat@, n as int),
        decreases n,
    {
        if occurs_at_exec(s, pat, n - 1) {
            return Some(n - 1);
        }
        n -= 1;
    }
    None
}

/// The bounds `(a, b)` of `s` trimmed of white space at both ends.
pub fn trim_bounds(s: &Vec<char>, from: usize, to: usize) -> (r: (usize, usize))
    requires
        from <= to <= s@.len(),
    ensures
        from <= r.0 <= r.1 <= to,
        s@.subrange(r.0 as int, r.1 as int) == trim(s@.subrange(from as int, to as int)),
{
    let mut a = from;
    while a < to && is_space_char(s[a])
        invariant
            from <= a <= to <= s@.len(),
            trim_start(s@.subrange(from as int, to as int)) == trim_start(
                s@.subrange(a as int, to as int),
            ),
        decreases to - a,
    {
        assert(s@.subrange(a as int, to as int).drop_first() =~= s@.subrange(
            a + 1,
            to as int,
        ));
        a += 1;
    }
    assert(trim_start(s@.subrange(a as int, to as int)) == s@.subrange(a as int, to as int));
    let mut b = to;
    while b > a && is_space_char(s[b - 1])
        invariant
            from <= a <= b <= to <= s@.len(),
            trim(s@.subrange(from as int, to as int)) == trim_end(
                s@.subrange(a as int, b as int),
            ),
        decreases b - a,
    {
        assert(s@.subrange(a as int, b as int).drop_last() =~= s@.subrange(
            a as int,
            b - 1,
        ));
        b -= 1;
    }
    (a, b)
}

/// What `find_from` returns is an occurrence at or after `i`.
pub proof fn lemma_find_from_occurs(s: Seq<char>, pat: Seq<char>, i: int)
    ensures
        find_from(s, pat, i) matches Some(k) ==> i <= k && occurs_at(s, pat, k),
    decreases s.len() + 1 - i,
{
    if i < 0 || i + pat.len() > s.len() {
    } else if occurs_at(s, pat, i) {
    } else {
        lemma_find_from_occurs(s, pat, i + 1);
    }
}

/// What `rfind_before` returns is an occurrence before `n`.
pub proof fn lemma_rfind_occurs(s: Seq<char>, pat: Seq<char>, n: int)
    ensures
        rfind_before(s, pat, n) matches Some(k) ==> 0 <= k < n && occurs_at(s, pat, k),
    decreases n,
{
    if n <= 0 {
    } else if occurs_at(s, pat, n - 1) {
    } else {
        lemma_rfind_occurs(s, pat, n - 1);
    }
}

/// The first occurrence at or after `i` is found.
pub proof fn lemma_find_first(s: Seq<char>, pat: Seq<char>, i: int, g: int)
    requires
        0 <= i <= g,
        occurs_at(s, pat, g),
        forall|j: int| i <= j < g ==> !occurs_at(s, pat, j),
    ensures
        find_from(s, pat, i) == Some(g),
    decreases g - i,
{
    if i < g {
        lemma_find_first(s, pat, i + 1, g);
    }
}

/// The last occurrence before `n` is found.
pub proof fn lemma_rfind_last(s: Seq<char>, pat: Seq<char>, k: int, n: int)
    requires
        0 <= k < n,
        occurs_at(s, pat, k),
        forall|j: int| k < j < n ==> !occurs_at(s, pat, j),
    ensures
        rfind_before(s, pat, n) == Some(k),
    decreases n,
{
    if n - 1 > k {
        lemma_rfind_last(s, pat, k, n - 1);
    }
}

/// Where `pat` does not occur, `rfind_before` finds nothing.
pub proof fn lemma_rfind_none(s: Seq<char>, pat: Seq<char>, n: int)
    requires
        forall|j: int| 0 <= j < n ==> !occurs_at(s, pat, j),
    ensures
        rfind_before(s, pat, n) is None,
    decreases n,
{
    if n > 0 {
        lemma_rfind_none(s, pat, n - 1);
    }
}

} // verus!
