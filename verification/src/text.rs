//! Text primitives on sequences of characters.
//!
//! Every string is modelled by the sequence of its characters, so positions
//! and lengths count characters unless a name says bytes.
use vstd::prelude::*;

verus! {

// ---------------------------------------------------------------------
// Conversion
// ---------------------------------------------------------------------

/// The characters of each string of a list.
pub open spec fn views(list: Seq<String>) -> Seq<Seq<char>> {
    Seq::new(list.len(), |i: int| list[i]@)
}

/// The characters of an optional string.
pub open spec fn opt_view(o: Option<String>) -> Option<Seq<char>> {
    match o {
        Some(s) => Some(s@),
        None => None,
    }
}

/// The characters of `s`, one element each.
pub fn to_chars(s: &str) -> (v: Vec<char>)
    ensures
        v@ == s@,
{
    let mut v: Vec<char> = Vec::new();
    for c in it: s.chars()
        invariant
            it.seq() == s@,
            v@ == s@.take(it.index()),
    {
        v.push(c);
        assert(s@.take(it.index()).push(c) =~= s@.take(it.index() + 1));
    }
    assert(s@.take(s@.len() as int) =~= s@);
    v
}

/// The string made of `v[from..to]`.
pub fn cut(v: &Vec<char>, from: usize, to: usize) -> (s: String)
    requires
        from <= to <= v@.len(),
    ensures
        s@ == v@.subrange(from as int, to as int),
{
    let mut s = String::new();
    let mut i: usize = from;
    assert(s@ =~= v@.subrange(from as int, from as int));
    while i < to
        invariant
            from <= i <= to <= v@.len(),
            s@ == v@.subrange(from as int, i as int),
        decreases to - i,
    {
        s.push(v[i]);
        assert(v@.subrange(from as int, i as int).push(v@[i as int]) =~= v@.subrange(
            from as int,
            i + 1,
        ));
        i = i + 1;
    }
    s
}

/// The string made of the characters of `v`.
pub fn from_chars(v: &Vec<char>) -> (s: String)
    ensures
        s@ == v@,
{
    let s = cut(v, 0, v.len());
    assert(v@.subrange(0, v@.len() as int) =~= v@);
    s
}

/// A copy of a list of strings.
pub fn copy_list(list: &Vec<String>) -> (r: Vec<String>)
    ensures
        views(r@) == views(list@),
        r@.len() == list@.len(),
{
    let mut r: Vec<String> = Vec::new();
    let mut i: usize = 0;
    while i < list.len()
        invariant
            i <= list@.len(),
            r@.len() == i,
            forall|k: int| 0 <= k < i ==> #[trigger] r@[k]@ == list@[k]@,
        decreases list@.len() - i,
    {
        r.push(list[i].clone());
        i = i + 1;
    }
    assert(views(r@) =~= views(list@));
    r
}

// ---------------------------------------------------------------------
// Equality and membership
// ---------------------------------------------------------------------

/// Whether two strings have the same characters.
pub fn same(a: &str, b: &str) -> (r: bool)
    ensures
        r == (a@ == b@),
{
    a.to_owned() == b.to_owned()
}

/// Whether `list` holds the string `s`.
pub fn in_list(list: &Vec<String>, s: &str) -> (r: bool)
    ensures
        r == views(list@).contains(s@),
{
    let mut i: usize = 0;
    while i < list.len()
        invariant
            i <= list@.len(),
            forall|k: int| 0 <= k < i ==> #[trigger] views(list@)[k] != s@,
        decreases list@.len() - i,
    {
        if same(list[i].as_str(), s) {
            assert(views(list@)[i as int] == s@);
            return true;
        }
        i = i + 1;
    }
    false
}

// ---------------------------------------------------------------------
// White space
// ---------------------------------------------------------------------

/// The characters with the Unicode property White_Space.
pub open spec fn is_space(c: char) -> bool {
    let u = c as u32;
    ||| 0x09 <= u <= 0x0d
    ||| u == 0x20
    ||| u == 0x85
    ||| u == 0xa0
    ||| u == 0x1680
    ||| 0x2000 <= u <= 0x200a
    ||| u == 0x2028
    ||| u == 0x2029
    ||| u == 0x202f
    ||| u == 0x205f
    ||| u == 0x3000
}

/// Whether `c` has the Unicode property White_Space.
pub fn is_white_space(c: char) -> (r: bool)
    ensures
        r == is_space(c),
{
    let u: u32 = c as u32;
    (0x09 <= u && u <= 0x0d) || u == 0x20 || u == 0x85 || u == 0xa0 || u == 0x1680 || (0x2000 <= u
        && u <= 0x200a) || u == 0x2028 || u == 0x2029 || u == 0x202f || u == 0x205f || u == 0x3000
}

/// `s` without the white space at its start.
pub open spec fn trim_start(s: Seq<char>) -> Seq<char>
    decreases s.len(),
{
    if s.len() > 0 && is_space(s[0]) {
        trim_start(s.skip(1))
    } else {
        s
    }
}

/// `s` without the white space at its end.
pub open spec fn trim_end(s: Seq<char>) -> Seq<char>
    decreases s.len(),
{
    if s.len() > 0 && is_space(s.last()) {
        trim_end(s.drop_last())
    } else {
        s
    }
}

/// `s` without the white space at either end.
pub open spec fn trim(s: Seq<char>) -> Seq<char> {
    trim_end(trim_start(s))
}

/// Trimming cuts a piece out of a text.
pub proof fn lemma_trim_occurs(s: Seq<char>)
    ensures
        occurs(s, trim(s)),
{
    lemma_trim_start_cuts(s);
    let t = trim_start(s);
    lemma_trim_end_cuts(t);
    let r = trim(s);
    let i = s.len() - t.len();
    assert(s.subrange(i, i + r.len()) =~= r) by {
        assert forall|k: int| 0 <= k < r.len() implies s[i + k] == r[k] by {
            assert(t[k] == s.skip(i)[k]);
            assert(r[k] == t.take(r.len() as int)[k]);
        }
    }
    assert(occurs_at(s, r, i));
}

pub proof fn lemma_trim_start_cuts(s: Seq<char>)
    ensures
        trim_start(s).len() <= s.len(),
        s.skip(s.len() - trim_start(s).len()) == trim_start(s),
    decreases s.len(),
{
    if s.len() > 0 && is_space(s[0]) {
        lemma_trim_start_cuts(s.skip(1));
        let n = trim_start(s).len();
        assert(s.skip(1).skip(s.len() - 1 - n) =~= s.skip(s.len() - n));
    } else {
        assert(s.skip(0) =~= s);
    }
}

proof fn lemma_trim_end_cuts(s: Seq<char>)
    ensures
        trim_end(s).len() <= s.len(),
        s.take(trim_end(s).len() as int) == trim_end(s),
    decreases s.len(),
{
    if s.len() > 0 && is_space(s.last()) {
        lemma_trim_end_cuts(s.drop_last());
        let n = trim_end(s).len();
        assert(s.drop_last().take(n as int) =~= s.take(n as int));
    } else {
        assert(s.take(s.len() as int) =~= s);
    }
}

/// Removes the white space at the start of `s`.
pub fn trimmed_start(s: &str) -> (r: String)
    ensures
        r@ == trim_start(s@),
{
    let v = to_chars(s);
    let mut a: usize = 0;
    assert(v@.skip(0) =~= v@);
    while a < v.len() && is_white_space(v[a])
        invariant
            a <= v@.len(),
            trim_start(v@) == trim_start(v@.skip(a as int)),
        decreases v@.len() - a,
    {
        assert(v@.skip(a as int).skip(1) =~= v@.skip(a + 1));
        a = a + 1;
    }
    assert(v@.skip(a as int) =~= v@.subrange(a as int, v@.len() as int));
    cut(&v, a, v.len())
}

/// Removes the white space at both ends of `s`.
pub fn trimmed(s: &str) -> (r: String)
    ensures
        r@ == trim(s@),
{
    let v = to_chars(s);
    let mut a: usize = 0;
    assert(v@.skip(0) =~= v@);
    while a < v.len() && is_white_space(v[a])
        invariant
            a <= v@.len(),
            trim_start(v@) == trim_start(v@.skip(a as int)),
        decreases v@.len() - a,
    {
        assert(v@.skip(a as int).skip(1) =~= v@.skip(a + 1));
        a = a + 1;
    }
    let ghost left = v@.skip(a as int);
    assert(trim_start(v@) == left);
    let mut b: usize = v.len();
    assert(left.take(b - a) =~= left);
    while b > a && is_white_space(v[b - 1])
        invariant
            a <= b <= v@.len(),
            left == v@.skip(a as int),
            trim_end(left) == trim_end(left.take(b - a)),
        decreases b,
    {
        assert(left.take(b - a).drop_last() =~= left.take(b - 1 - a));
        assert(left.take(b - a).last() == v@[b - 1]);
        b = b - 1;
    }
    assert(left.take(b - a) =~= v@.subrange(a as int, b as int));
    if b > a {
        assert(left.take(b - a).last() == v@[b - 1]);
    }
    cut(&v, a, b)
}

// ---------------------------------------------------------------------
// Searching
// ---------------------------------------------------------------------

/// Whether `pat` stands in `s` from position `i`.
pub open spec fn occurs_at(s: Seq<char>, pat: Seq<char>, i: int) -> bool {
    &&& 0 <= i
    &&& i + pat.len() <= s.len()
    &&& s.subrange(i, i + pat.len()) == pat
}

/// Whether `pat` stands somewhere in `s`.
pub open spec fn occurs(s: Seq<char>, pat: Seq<char>) -> bool {
    exists|i: int| occurs_at(s, pat, i)
}

/// Whether `s` begins with `pat`.
pub open spec fn begins(s: Seq<char>, pat: Seq<char>) -> bool {
    occurs_at(s, pat, 0)
}

/// Whether `s` ends with `pat`.
pub open spec fn ends(s: Seq<char>, pat: Seq<char>) -> bool {
    occurs_at(s, pat, s.len() - pat.len())
}

/// The first position of `pat` in `s`.
pub open spec fn first_of(s: Seq<char>, pat: Seq<char>) -> Option<int>
    decreases s.len(),
{
    if begins(s, pat) {
        Some(0int)
    } else if s.len() == 0 {
        None
    } else {
        match first_of(s.skip(1), pat) {
            Some(k) => Some(k + 1),
            None => None,
        }
    }
}

/// Where `first_of` finds something, it is the least position.
pub proof fn lemma_first_of(s: Seq<char>, pat: Seq<char>)
    ensures
        match first_of(s, pat) {
            Some(k) => occurs_at(s, pat, k) && forall|j: int| j < k ==> !occurs_at(s, pat, j),
            None => !occurs(s, pat),
        },
    decreases s.len(),
{
    if !begins(s, pat) && s.len() > 0 {
        let t = s.skip(1);
        lemma_first_of(t, pat);
        assert forall|j: int| j >= 1 implies occurs_at(s, pat, j) == occurs_at(t, pat, j - 1) by {
            if j + pat.len() <= s.len() {
                assert(s.subrange(j, j + pat.len()) =~= t.subrange(j - 1, j - 1 + pat.len()));
            }
        }
        match first_of(t, pat) {
            Some(k) => {
                assert(occurs_at(s, pat, k + 1));
                assert forall|j: int| j < k + 1 implies !occurs_at(s, pat, j) by {
                    if j >= 1 {
                        assert(!occurs_at(t, pat, j - 1));
                    }
                }
            },
            None => {
                assert forall|j: int| !occurs_at(s, pat, j) by {
                    if j >= 1 {
                        assert(!occurs_at(t, pat, j - 1));
                    }
                }
            },
        }
    }
}

/// The least position at which `pat` stands is what `first_of` finds.
pub proof fn lemma_first_of_unique(s: Seq<char>, pat: Seq<char>, k: int)
    requires
        occurs_at(s, pat, k),
        forall|j: int| 0 <= j < k ==> !occurs_at(s, pat, j),
    ensures
        first_of(s, pat) == Some(k),
{
    lemma_first_of(s, pat);
}

/// Whether `pat` stands in `v` from position `i`.
pub fn stands_at(v: &Vec<char>, pat: &Vec<char>, i: usize) -> (r: bool)
    ensures
        r == occurs_at(v@, pat@, i as int),
{
    if pat.len() > v.len() || i > v.len() - pat.len() {
        return false;
    }
    let mut k: usize = 0;
    while k < pat.len()
        invariant
            k <= pat@.len(),
            i + pat@.len() <= v.len(),
            forall|j: int| 0 <= j < k ==> v@[i + j] == pat@[j],
        decreases pat@.len() - k,
    {
        if v[i + k] != pat[k] {
            assert(v@.subrange(i as int, i + pat@.len())[k as int] != pat@[k as int]);
            return false;
        }
        k = k + 1;
    }
    assert(v@.subrange(i as int, i + pat@.len()) =~= pat@);
    true
}

/// The first position at or after `from` at which `pat` stands in `v`.
pub fn find_from(v: &Vec<char>, pat: &Vec<char>, from: usize) -> (r: Option<usize>)
    requires
        from <= v@.len(),
    ensures
        match r {
            Some(k) => from <= k && occurs_at(v@, pat@, k as int) && forall|j: int|
                from <= j < k ==> !occurs_at(v@, pat@, j),
            None => forall|j: int| from <= j ==> !occurs_at(v@, pat@, j),
        },
{
    let mut i: usize = from;
    while i < v.len()
        invariant
            from <= i <= v@.len(),
            forall|j: int| from <= j < i ==> !occurs_at(v@, pat@, j),
        decreases v@.len() - i,
    {
        if stands_at(v, pat, i) {
            return Some(i);
        }
        i = i + 1;
    }
    if stands_at(v, pat, i) {
        return Some(i);
    }
    None
}

/// The first position of `pat` in `s`, counted in characters.
pub fn find(s: &str, pat: &str) -> (r: Option<usize>)
    ensures
        match r {
            Some(k) => first_of(s@, pat@) == Some(k as int),
            None => first_of(s@, pat@) is None,
        },
{
    let v = to_chars(s);
    let p = to_chars(pat);
    let r = find_from(&v, &p, 0);
    proof {
        lemma_first_of(s@, pat@);
        match r {
            Some(k) => lemma_first_of_unique(s@, pat@, k as int),
            None => {},
        }
    }
    r
}

/// Whether `pat` stands somewhere in `s`.
pub fn contains(s: &str, pat: &str) -> (r: bool)
    ensures
        r == occurs(s@, pat@),
{
    let r = find(s, pat);
    proof {
        lemma_first_of(s@, pat@);
    }
    r.is_some()
}

/// Whether `s` begins with `pat`.
pub fn starts_with(s: &str, pat: &str) -> (r: bool)
    ensures
        r == begins(s@, pat@),
{
    stands_at(&to_chars(s), &to_chars(pat), 0)
}

/// Whether `s` ends with `pat`.
pub fn ends_with(s: &str, pat: &str) -> (r: bool)
    ensures
        r == ends(s@, pat@),
{
    let v = to_chars(s);
    let p = to_chars(pat);
    if p.len() > v.len() {
        return false;
    }
    stands_at(&v, &p, v.len() - p.len())
}

/// What follows `pat` where `s` begins with it.
pub open spec fn after_prefix(s: Seq<char>, pat: Seq<char>) -> Option<Seq<char>> {
    if begins(s, pat) {
        Some(s.skip(pat.len() as int))
    } else {
        None
    }
}

/// What precedes `pat` where `s` ends with it.
pub open spec fn before_suffix(s: Seq<char>, pat: Seq<char>) -> Option<Seq<char>> {
    if ends(s, pat) {
        Some(s.take(s.len() - pat.len()))
    } else {
        None
    }
}

/// Removes `pat` from the start of `s`.
pub fn strip_prefix(s: &str, pat: &str) -> (r: Option<String>)
    ensures
        opt_view(r) == after_prefix(s@, pat@),
{
    let v = to_chars(s);
    let p = to_chars(pat);
    if stands_at(&v, &p, 0) {
        let rest = cut(&v, p.len(), v.len());
        assert(rest@ =~= s@.skip(p@.len() as int));
        Some(rest)
    } else {
        None
    }
}

/// Removes `pat` from the end of `s`.
pub fn strip_suffix(s: &str, pat: &str) -> (r: Option<String>)
    ensures
        opt_view(r) == before_suffix(s@, pat@),
{
    let v = to_chars(s);
    let p = to_chars(pat);
    if p.len() <= v.len() && stands_at(&v, &p, v.len() - p.len()) {
        let rest = cut(&v, 0, v.len() - p.len());
        assert(rest@ =~= s@.take(s@.len() - p@.len()));
        Some(rest)
    } else {
        None
    }
}

// ---------------------------------------------------------------------
// Splitting and joining
// ---------------------------------------------------------------------

/// The first position of the character `c` in `s`, or the length of `s`.
pub open spec fn index_or_end(s: Seq<char>, c: char) -> int
    decreases s.len(),
{
    if s.len() == 0 || s[0] == c {
        0
    } else {
        1 + index_or_end(s.skip(1), c)
    }
}

/// `index_or_end` stops at the first `c`.
pub proof fn lemma_index_or_end(s: Seq<char>, c: char)
    ensures
        0 <= index_or_end(s, c) <= s.len(),
        index_or_end(s, c) < s.len() ==> s[index_or_end(s, c)] == c,
        forall|j: int| 0 <= j < index_or_end(s, c) ==> s[j] != c,
    decreases s.len(),
{
    if s.len() > 0 && s[0] != c {
        let t = s.skip(1);
        lemma_index_or_end(t, c);
        assert forall|j: int| 0 <= j < index_or_end(s, c) implies s[j] != c by {
            if j > 0 {
                assert(t[j - 1] == s[j]);
            }
        }
    }
}

/// A position with no `c` before it, at `c` or at the end, is `index_or_end`.
pub proof fn lemma_index_or_end_unique(s: Seq<char>, c: char, k: int)
    requires
        0 <= k <= s.len(),
        k < s.len() ==> s[k] == c,
        forall|j: int| 0 <= j < k ==> s[j] != c,
    ensures
        index_or_end(s, c) == k,
{
    lemma_index_or_end(s, c);
}

/// The pieces of `s` between the characters `c`.
pub open spec fn split(s: Seq<char>, c: char) -> Seq<Seq<char>>
    decreases s.len(),
{
    let k = index_or_end(s, c);
    if 0 <= k < s.len() {
        seq![s.take(k)] + split(s.skip(k + 1), c)
    } else {
        seq![s]
    }
}

/// The position of the first `c` at or after `from`, or the length.
pub fn next_char(v: &Vec<char>, c: char, from: usize) -> (k: usize)
    requires
        from <= v@.len(),
    ensures
        from <= k <= v@.len(),
        k - from == index_or_end(v@.skip(from as int), c),
{
    let mut k: usize = from;
    let ghost t = v@.skip(from as int);
    while k < v.len() && v[k] != c
        invariant
            from <= k <= v@.len(),
            t == v@.skip(from as int),
            forall|j: int| 0 <= j < k - from ==> t[j] != c,
        decreases v@.len() - k,
    {
        assert(t[k - from] == v@[k as int]);
        k = k + 1;
    }
    proof {
        if k < v@.len() {
            assert(t[k - from] == v@[k as int]);
        }
        lemma_index_or_end_unique(t, c, k - from);
    }
    k
}

/// Splits `s` at every `c`.
pub fn split_on(s: &str, c: char) -> (r: Vec<String>)
    ensures
        views(r@) == split(s@, c),
{
    let v = to_chars(s);
    let mut r: Vec<String> = Vec::new();
    let mut at: usize = 0;
    assert(v@.skip(0) =~= v@);
    assert(views(r@) =~= Seq::<Seq<char>>::empty());
    assert(Seq::<Seq<char>>::empty() + split(v@, c) =~= split(v@, c));
    loop
        invariant_except_break
            at <= v@.len(),
            views(r@) + split(v@.skip(at as int), c) == split(v@, c),
        ensures
            views(r@) == split(v@, c),
        decreases v@.len() - at,
    {
        let ghost t = v@.skip(at as int);
        let k = next_char(&v, c, at);
        let piece = cut(&v, at, k);
        let ghost before = r@;
        assert(piece@ =~= t.take(k - at));
        r.push(piece);
        assert(views(r@) =~= views(before).push(piece@));
        if k < v.len() {
            assert(t.skip(k - at + 1) =~= v@.skip(k + 1));
            assert(views(before) + (seq![piece@] + split(v@.skip(k + 1), c)) =~= views(r@) + split(
                v@.skip(k + 1),
                c,
            ));
            at = k + 1;
        } else {
            assert(piece@ =~= t);
            assert(views(before) + seq![t] =~= views(r@));
            break;
        }
    }
    r
}

/// `line` without one carriage return at its end.
pub open spec fn strip_cr(line: Seq<char>) -> Seq<char> {
    if line.len() > 0 && line.last() == '\r' {
        line.drop_last()
    } else {
        line
    }
}

/// The first line of `s`: what stands before the first line feed, without a
/// carriage return in front of it.
pub open spec fn first_line(s: Seq<char>) -> Seq<char> {
    let k = index_or_end(s, '\n');
    if 0 <= k < s.len() {
        strip_cr(s.take(k))
    } else {
        s
    }
}

/// What ends the first line of `s`: a line feed, with the carriage return in
/// front of it where there is one, or nothing.
pub open spec fn line_end(s: Seq<char>) -> Seq<char> {
    let k = index_or_end(s, '\n');
    if 0 <= k < s.len() {
        s.subrange(first_line(s).len() as int, k + 1)
    } else {
        Seq::empty()
    }
}

/// What follows the first line of `s` and its end.
pub open spec fn after_line(s: Seq<char>) -> Seq<char> {
    let k = index_or_end(s, '\n');
    if 0 <= k < s.len() {
        s.skip(k + 1)
    } else {
        Seq::empty()
    }
}

/// Whether a text is an end of a line.
pub open spec fn ends_line(e: Seq<char>) -> bool {
    e == seq!['\n'] || e == seq!['\r', '\n']
}

/// A text is its first line, the end of that, and the rest.
pub proof fn lemma_line(s: Seq<char>)
    ensures
        s == first_line(s) + line_end(s) + after_line(s),
        s.len() > 0 ==> after_line(s).len() < s.len(),
        line_end(s).len() == 0 || ends_line(line_end(s)),
        line_end(s).len() == 0 ==> after_line(s).len() == 0,
        line_end(s) == seq!['\n'] ==> first_line(s).len() == 0 || first_line(s).last() != '\r',
        !first_line(s).contains('\n'),
{
    lemma_index_or_end(s, '\n');
    let k = index_or_end(s, '\n');
    assert(s =~= first_line(s) + line_end(s) + after_line(s));
    if k < s.len() {
        if k > 0 && s[k - 1] == '\r' {
            assert(s.take(k).last() == '\r');
            assert(line_end(s) =~= seq!['\r', '\n']);
        } else {
            if k > 0 {
                assert(s.take(k).last() == s[k - 1]);
            }
            assert(line_end(s) =~= seq!['\n']);
        }
    }
}

/// A line without a line feed, an end and a rest are what `first_line`,
/// `line_end` and `after_line` give back.
pub proof fn lemma_line_unique(l: Seq<char>, e: Seq<char>, r: Seq<char>)
    requires
        !l.contains('\n'),
        ends_line(e) || e.len() == 0 && r.len() == 0,
        e == seq!['\n'] ==> l.len() == 0 || l.last() != '\r',
    ensures
        first_line(l + e + r) == l,
        line_end(l + e + r) == e,
        after_line(l + e + r) == r,
{
    let s = l + e + r;
    let k = if e.len() == 0 {
        l.len() as int
    } else {
        l.len() + e.len() - 1
    };
    assert forall|j: int| 0 <= j < k implies s[j] != '\n' by {
        if j < l.len() {
            assert(l.contains(l[j]));
            assert(s[j] == l[j]);
        } else {
            assert(s[j] == e[j - l.len()]);
        }
    }
    if e.len() > 0 {
        assert(s[k] == e[e.len() - 1]);
    }
    lemma_index_or_end_unique(s, '\n', k);
    if e.len() == 0 {
        assert(s =~= l);
        assert(r =~= Seq::empty());
    } else {
        if e == seq!['\r', '\n'] {
            assert(s.take(k).last() == '\r');
            assert(s.take(k).drop_last() =~= l);
        } else {
            assert(s.take(k) =~= l);
        }
        assert(first_line(s) =~= l);
        assert(line_end(s) =~= e);
        assert(after_line(s) =~= r);
    }
}

/// Where the line that starts at `at` stops, and where the next one starts.
pub fn line_at(v: &Vec<char>, at: usize) -> (r: (usize, usize))
    requires
        at < v@.len(),
    ensures
        at <= r.0 <= r.1 <= v@.len(),
        at < r.1,
        v@.subrange(at as int, r.0 as int) == first_line(v@.skip(at as int)),
        v@.subrange(r.0 as int, r.1 as int) == line_end(v@.skip(at as int)),
        v@.skip(r.1 as int) == after_line(v@.skip(at as int)),
{
    let ghost t = v@.skip(at as int);
    let k = next_char(v, '\n', at);
    if k < v.len() {
        let end = if k > at && v[k - 1] == '\r' {
            k - 1
        } else {
            k
        };
        proof {
            if k > at {
                assert(t.take(k - at).last() == v@[k - 1]);
            }
            assert(v@.subrange(at as int, end as int) =~= first_line(t));
            assert(v@.subrange(end as int, k + 1) =~= line_end(t));
            assert(v@.skip(k + 1) =~= after_line(t));
        }
        (end, k + 1)
    } else {
        assert(v@.subrange(at as int, k as int) =~= t);
        assert(v@.subrange(k as int, k as int) =~= Seq::<char>::empty());
        assert(v@.skip(k as int) =~= Seq::<char>::empty());
        (k, k)
    }
}

/// The texts of `parts` one after the other, with `sep` between them.
pub open spec fn join(parts: Seq<Seq<char>>, sep: Seq<char>) -> Seq<char>
    decreases parts.len(),
{
    if parts.len() == 0 {
        Seq::empty()
    } else if parts.len() == 1 {
        parts[0]
    } else {
        join(parts.drop_last(), sep) + sep + parts.last()
    }
}

/// Joins `parts` with `sep` between them.
pub fn join_with(parts: &Vec<String>, sep: &str) -> (r: String)
    ensures
        r@ == join(views(parts@), sep@),
{
    let mut r = String::new();
    let mut i: usize = 0;
    let ghost all = views(parts@);
    assert(join(all.take(0), sep@) =~= r@);
    while i < parts.len()
        invariant
            i <= parts@.len(),
            all == views(parts@),
            r@ == join(all.take(i as int), sep@),
        decreases parts@.len() - i,
    {
        assert(all.take(i + 1).drop_last() =~= all.take(i as int));
        assert(all.take(i + 1).last() == parts@[i as int]@);
        if i > 0 {
            r.append(sep);
            r.append(parts[i].as_str());
        } else {
            r.append(parts[i].as_str());
            assert(r@ =~= parts@[0]@);
        }
        i = i + 1;
    }
    assert(all.take(i as int) =~= all);
    r
}

/// What stands before and after the first `c` in `s`.
pub open spec fn split_once(s: Seq<char>, c: char) -> Option<(Seq<char>, Seq<char>)> {
    let k = index_or_end(s, c);
    if 0 <= k < s.len() {
        Some((s.take(k), s.skip(k + 1)))
    } else {
        None
    }
}

/// Splits `s` at its first `c`.
pub fn split_once_on(s: &str, c: char) -> (r: Option<(String, String)>)
    ensures
        match r {
            Some((a, b)) => split_once(s@, c) == Some((a@, b@)),
            None => split_once(s@, c) is None,
        },
{
    let v = to_chars(s);
    assert(v@.skip(0) =~= v@);
    let k = next_char(&v, c, 0);
    if k < v.len() {
        let a = cut(&v, 0, k);
        let b = cut(&v, k + 1, v.len());
        assert(a@ =~= s@.take(k as int));
        assert(b@ =~= s@.skip(k + 1));
        Some((a, b))
    } else {
        None
    }
}

/// The position of the last `c` in `s`.
pub open spec fn last_index(s: Seq<char>, c: char) -> Option<int>
    decreases s.len(),
{
    if s.len() == 0 {
        None
    } else if s.last() == c {
        Some(s.len() - 1)
    } else {
        last_index(s.drop_last(), c)
    }
}

/// The position of the last `c` in `v`.
pub fn find_last(v: &Vec<char>, c: char) -> (r: Option<usize>)
    ensures
        match r {
            Some(k) => k < v@.len() && last_index(v@, c) == Some(k as int),
            None => last_index(v@, c) is None,
        },
{
    let mut k: usize = v.len();
    assert(v@.take(k as int) =~= v@);
    while k > 0
        invariant
            k <= v@.len(),
            last_index(v@, c) == last_index(v@.take(k as int), c),
        decreases k,
    {
        assert(v@.take(k as int).last() == v@[k - 1]);
        if v[k - 1] == c {
            return Some(k - 1);
        }
        assert(v@.take(k as int).drop_last() =~= v@.take(k - 1));
        k = k - 1;
    }
    None
}

// ---------------------------------------------------------------------
// ASCII
// ---------------------------------------------------------------------

/// The characters `0` to `9`.
pub open spec fn is_digit(c: char) -> bool {
    '0' <= c <= '9'
}

/// The ASCII letters and digits.
pub open spec fn is_alnum(c: char) -> bool {
    is_digit(c) || 'a' <= c <= 'z' || 'A' <= c <= 'Z'
}

/// `c` with an ASCII capital replaced by its small letter.
pub open spec fn lower(c: char) -> char {
    if 'A' <= c <= 'Z' {
        (c as u8 + 32) as u8 as char
    } else {
        c
    }
}

/// Whether every character of `s` is an ASCII digit.
pub open spec fn all_digits(s: Seq<char>) -> bool {
    forall|i: int| 0 <= i < s.len() ==> is_digit(#[trigger] s[i])
}

/// Whether every character of `s` is an ASCII letter or digit.
pub open spec fn all_alnum(s: Seq<char>) -> bool {
    forall|i: int| 0 <= i < s.len() ==> is_alnum(#[trigger] s[i])
}

/// Whether `a` and `b` differ at most in the case of ASCII letters.
pub open spec fn same_but_case(a: Seq<char>, b: Seq<char>) -> bool {
    a.len() == b.len() && forall|i: int| 0 <= i < a.len() ==> lower(#[trigger] a[i]) == lower(b[i])
}

/// Whether every character of `s` is an ASCII digit.
pub fn only_digits(s: &str) -> (r: bool)
    ensures
        r == all_digits(s@),
{
    let v = to_chars(s);
    let mut i: usize = 0;
    while i < v.len()
        invariant
            i <= v@.len(),
            v@ == s@,
            forall|j: int| 0 <= j < i ==> is_digit(#[trigger] v@[j]),
        decreases v@.len() - i,
    {
        let c = v[i];
        if !('0' <= c && c <= '9') {
            return false;
        }
        i = i + 1;
    }
    true
}

/// Whether every character of `s` is an ASCII letter or digit.
pub fn only_alnum(s: &str) -> (r: bool)
    ensures
        r == all_alnum(s@),
{
    let v = to_chars(s);
    let mut i: usize = 0;
    while i < v.len()
        invariant
            i <= v@.len(),
            v@ == s@,
            forall|j: int| 0 <= j < i ==> is_alnum(#[trigger] v@[j]),
        decreases v@.len() - i,
    {
        let c = v[i];
        if !(('0' <= c && c <= '9') || ('a' <= c && c <= 'z') || ('A' <= c && c <= 'Z')) {
            return false;
        }
        i = i + 1;
    }
    true
}

/// `c` with an ASCII capital replaced by its small letter.
pub fn lower_char(c: char) -> (r: char)
    ensures
        r == lower(c),
{
    if 'A' <= c && c <= 'Z' {
        (c as u8 + 32) as char
    } else {
        c
    }
}

/// Whether `a` and `b` differ at most in the case of ASCII letters.
pub fn eq_ignore_case(a: &str, b: &str) -> (r: bool)
    ensures
        r == same_but_case(a@, b@),
{
    let x = to_chars(a);
    let y = to_chars(b);
    if x.len() != y.len() {
        return false;
    }
    let mut i: usize = 0;
    while i < x.len()
        invariant
            i <= x@.len(),
            x@.len() == y@.len(),
            x@ == a@,
            y@ == b@,
            forall|j: int| 0 <= j < i ==> lower(#[trigger] x@[j]) == lower(y@[j]),
        decreases x@.len() - i,
    {
        if lower_char(x[i]) != lower_char(y[i]) {
            return false;
        }
        i = i + 1;
    }
    true
}

// ---------------------------------------------------------------------
// Laws
// ---------------------------------------------------------------------

/// Whether a text is nothing but white space.
pub open spec fn all_space(s: Seq<char>) -> bool {
    forall|i: int| 0 <= i < s.len() ==> is_space(#[trigger] s[i])
}

/// Trimming takes off nothing but white space, and all of it at either end.
pub proof fn law_trim_takes_white_space(s: Seq<char>) -> (r: (Seq<char>, Seq<char>))
    ensures
        s == r.0 + trim(s) + r.1,
        all_space(r.0),
        all_space(r.1),
        trim(s).len() > 0 ==> !is_space(trim(s)[0]) && !is_space(trim(s).last()),
        all_space(s) <==> trim(s).len() == 0,
{
    let t = trim_start(s);
    let a = law_trim_start_takes_white_space(s);
    let b = lemma_trim_end_parts(t);
    assert(s =~= a + trim(s) + b);
    if trim(s).len() > 0 {
        assert(trim(s)[0] == t[0]);
        assert(s[a.len() as int] == t[0]);
    } else {
        assert(trim(s) =~= Seq::empty());
        assert forall|i: int| 0 <= i < s.len() implies is_space(#[trigger] s[i]) by {
            if i < a.len() {
                assert(a[i] == s[i]);
            } else {
                assert(b[i - a.len()] == s[i]);
            }
        }
    }
    (a, b)
}

/// Taking off the white space at the start takes off nothing else, and all of
/// it.
pub proof fn law_trim_start_takes_white_space(s: Seq<char>) -> (a: Seq<char>)
    ensures
        s == a + trim_start(s),
        all_space(a),
        trim_start(s).len() > 0 ==> !is_space(trim_start(s)[0]),
    decreases s.len(),
{
    if s.len() > 0 && is_space(s[0]) {
        let a = law_trim_start_takes_white_space(s.skip(1));
        let r = seq![s[0]] + a;
        assert(s =~= seq![s[0]] + s.skip(1));
        assert(s =~= r + trim_start(s.skip(1)));
        assert forall|i: int| 0 <= i < r.len() implies is_space(#[trigger] r[i]) by {
            if i > 0 {
                assert(r[i] == a[i - 1]);
            }
        }
        r
    } else {
        assert(s =~= Seq::empty() + s);
        Seq::empty()
    }
}

pub proof fn lemma_trim_end_parts(s: Seq<char>) -> (b: Seq<char>)
    ensures
        s == trim_end(s) + b,
        all_space(b),
        trim_end(s).len() > 0 ==> !is_space(trim_end(s).last()),
    decreases s.len(),
{
    if s.len() > 0 && is_space(s.last()) {
        let b = lemma_trim_end_parts(s.drop_last());
        let r = b.push(s.last());
        assert(s =~= s.drop_last().push(s.last()));
        assert(s =~= trim_end(s.drop_last()) + r);
        assert forall|i: int| 0 <= i < r.len() implies is_space(#[trigger] r[i]) by {
            if i < b.len() {
                assert(r[i] == b[i]);
            }
        }
        r
    } else {
        assert(s =~= s + Seq::empty());
        Seq::empty()
    }
}

/// A text that begins and ends with something else than white space is not
/// trimmed.
pub proof fn law_trimmed_stays(s: Seq<char>)
    requires
        s.len() == 0 || !is_space(s[0]) && !is_space(s.last()),
    ensures
        trim(s) == s,
{
}

/// The pieces of a text have no separator, and put together with one between
/// each two they are the text again.
pub proof fn law_split_gives_back(s: Seq<char>, c: char)
    ensures
        split(s, c).len() > 0,
        forall|i: int| 0 <= i < split(s, c).len() ==> !(#[trigger] split(s, c)[i]).contains(c),
        join(split(s, c), seq![c]) == s,
    decreases s.len(),
{
    lemma_index_or_end(s, c);
    let k = index_or_end(s, c);
    let pieces = split(s, c);
    if k < s.len() {
        let rest = s.skip(k + 1);
        law_split_gives_back(rest, c);
        let more = split(rest, c);
        assert(pieces.skip(1) =~= more);
        lemma_join_first(pieces, seq![c]);
        assert(s =~= s.take(k) + seq![c] + rest);
        assert forall|i: int| 0 <= i < pieces.len() implies !(#[trigger] pieces[i]).contains(
            c,
        ) by {
            if i > 0 {
                assert(pieces[i] == more[i - 1]);
            }
        }
    } else {
        assert(pieces =~= seq![s]);
        assert forall|i: int| 0 <= i < pieces.len() implies !(#[trigger] pieces[i]).contains(
            c,
        ) by {
            assert(pieces[i] == s);
        }
    }
}

/// Pieces without a separator, put together with one between each two, are what
/// splitting gives.
pub proof fn law_joined_splits(parts: Seq<Seq<char>>, c: char)
    requires
        parts.len() > 0,
        forall|i: int| 0 <= i < parts.len() ==> !(#[trigger] parts[i]).contains(c),
    ensures
        split(join(parts, seq![c]), c) == parts,
    decreases parts.len(),
{
    if parts.len() == 1 {
        lemma_split_none(parts[0], c);
        assert(seq![parts[0]] =~= parts);
    } else {
        let more = parts.skip(1);
        lemma_join_first(parts, seq![c]);
        assert forall|i: int| 0 <= i < more.len() implies !(#[trigger] more[i]).contains(c) by {
            assert(more[i] == parts[i + 1]);
        }
        law_joined_splits(more, c);
        lemma_split_first(parts[0], c, join(more, seq![c]));
        assert(seq![parts[0]] + more =~= parts);
    }
}

/// What stands before the first separator comes first, and what stands behind it
/// is split further.
pub proof fn lemma_split_first(a: Seq<char>, c: char, b: Seq<char>)
    requires
        !a.contains(c),
    ensures
        split(a + seq![c] + b, c) == seq![a] + split(b, c),
{
    let s = a + seq![c] + b;
    assert forall|j: int| 0 <= j < a.len() implies s[j] != c by {
        assert(a.contains(a[j]));
    }
    lemma_index_or_end_unique(s, c, a.len() as int);
    assert(s.take(a.len() as int) =~= a);
    assert(s.skip(a.len() as int + 1) =~= b);
}

/// A text without a separator is its only piece.
pub proof fn lemma_split_none(a: Seq<char>, c: char)
    requires
        !a.contains(c),
    ensures
        split(a, c) == seq![a],
{
    assert forall|j: int| 0 <= j < a.len() implies a[j] != c by {
        assert(a.contains(a[j]));
    }
    lemma_index_or_end_unique(a, c, a.len() as int);
}

/// Joining parts begins with the first.
pub proof fn lemma_join_first(parts: Seq<Seq<char>>, sep: Seq<char>)
    requires
        parts.len() >= 2,
    ensures
        join(parts, sep) == parts[0] + sep + join(parts.skip(1), sep),
    decreases parts.len(),
{
    let front = parts.drop_last();
    let rest = parts.skip(1);
    if parts.len() == 2 {
        assert(join(front, sep) == parts[0]);
        assert(join(rest, sep) == parts[1]);
    } else {
        lemma_join_first(front, sep);
        assert(front.skip(1) =~= rest.drop_last());
        assert(rest.last() == parts.last());
        assert(join(parts, sep) =~= parts[0] + sep + (join(rest.drop_last(), sep) + sep
            + parts.last()));
    }
}

/// A text is parted at its first separator, and only where it has one.
pub proof fn law_split_once_parts(s: Seq<char>, c: char)
    ensures
        match split_once(s, c) {
            Some((a, b)) => s == a + seq![c] + b && !a.contains(c),
            None => !s.contains(c),
        },
{
    lemma_index_or_end(s, c);
    let k = index_or_end(s, c);
    if k < s.len() {
        assert(s =~= s.take(k) + seq![c] + s.skip(k + 1));
    }
}

/// The position of the last character of a kind: it stands there, and not behind
/// it; none where it does not occur.
pub proof fn law_last_index_is_last(s: Seq<char>, c: char)
    ensures
        match last_index(s, c) {
            Some(k) => 0 <= k < s.len() && s[k] == c && forall|j: int|
                k < j < s.len() ==> s[j] != c,
            None => !s.contains(c),
        },
    decreases s.len(),
{
    if s.len() > 0 && s.last() != c {
        let t = s.drop_last();
        law_last_index_is_last(t, c);
        if last_index(s, c) is None {
            assert forall|j: int| 0 <= j < s.len() implies s[j] != c by {
                if j < t.len() {
                    assert(t.contains(t[j]));
                    assert(t[j] == s[j]);
                }
            }
        } else {
            let k = last_index(s, c)->0;
            assert forall|j: int| k < j < s.len() implies s[j] != c by {
                if j < t.len() {
                    assert(t[j] == s[j]);
                }
            }
        }
    }
}

/// A text behind a prefix is the prefix and what was taken from behind it.
pub proof fn law_prefix_comes_off(p: Seq<char>, s: Seq<char>)
    ensures
        after_prefix(p + s, p) == Some(s),
        after_prefix(s, p) matches Some(t) ==> s == p + t,
        before_suffix(s + p, p) == Some(s),
        before_suffix(s, p) matches Some(t) ==> s == t + p,
{
    assert((p + s).subrange(0, p.len() as int) =~= p);
    assert((p + s).skip(p.len() as int) =~= s);
    assert((s + p).subrange(s.len() as int, (s + p).len() as int) =~= p);
    assert((s + p).take(s.len() as int) =~= s);
    if begins(s, p) {
        assert(s =~= s.subrange(0, p.len() as int) + s.skip(p.len() as int));
    }
    if ends(s, p) {
        assert(s =~= s.take(s.len() - p.len()) + s.subrange(s.len() - p.len(), s.len() as int));
    }
}


/// What stands between white space is what is left of it.
pub proof fn law_trimmed_between(before: Seq<char>, s: Seq<char>, after: Seq<char>)
    requires
        all_space(before),
        all_space(after),
        s.len() > 0,
        !is_space(s[0]),
        !is_space(s.last()),
    ensures
        trim(before + s + after) == s,
{
    lemma_trim_start_past(before, s + after);
    assert(before + s + after =~= before + (s + after));
    lemma_trim_end_before(s, after);
}

pub proof fn lemma_trim_start_past(before: Seq<char>, s: Seq<char>)
    requires
        all_space(before),
        s.len() > 0,
        !is_space(s[0]),
    ensures
        trim_start(before + s) == s,
    decreases before.len(),
{
    if before.len() == 0 {
        assert(before + s =~= s);
    } else {
        assert((before + s)[0] == before[0]);
        assert((before + s).skip(1) =~= before.skip(1) + s);
        assert forall|i: int| 0 <= i < before.skip(1).len() implies is_space(
            #[trigger] before.skip(1)[i],
        ) by {
            assert(before.skip(1)[i] == before[i + 1]);
        }
        lemma_trim_start_past(before.skip(1), s);
    }
}

proof fn lemma_trim_end_before(s: Seq<char>, after: Seq<char>)
    requires
        all_space(after),
        s.len() > 0,
        !is_space(s.last()),
    ensures
        trim_end(s + after) == s,
    decreases after.len(),
{
    if after.len() == 0 {
        assert(s + after =~= s);
    } else {
        assert((s + after).last() == after.last());
        assert((s + after).drop_last() =~= s + after.drop_last());
        assert forall|i: int| 0 <= i < after.drop_last().len() implies is_space(
            #[trigger] after.drop_last()[i],
        ) by {
            assert(after.drop_last()[i] == after[i]);
        }
        lemma_trim_end_before(s, after.drop_last());
    }
}

/// A text stands in every text that it was put into, at either end too, and one
/// that stands in a text cuts it in two around it.
pub proof fn law_occurs_is_in_between(before: Seq<char>, s: Seq<char>, after: Seq<char>)
    ensures
        occurs(before + s + after, s),
        begins(s + after, s),
        ends(before + s, s),
        forall|t: Seq<char>| #[trigger]
            occurs(t, s) ==> exists|a: Seq<char>, b: Seq<char>| #[trigger] (a + s + b) == t,
        forall|t: Seq<char>| #[trigger] occurs(t, s) ==> t.len() >= s.len(),
{
    let t = before + s + after;
    assert(t.subrange(before.len() as int, (before.len() + s.len()) as int) =~= s);
    assert(occurs_at(t, s, before.len() as int));
    assert((s + after).subrange(0, s.len() as int) =~= s);
    assert((before + s).subrange(before.len() as int, (before.len() + s.len()) as int) =~= s);
    assert forall|t: Seq<char>| #[trigger] occurs(t, s) implies exists|a: Seq<char>, b: Seq<char>|
        #[trigger] (a + s + b) == t by {
        let i = choose|i: int| occurs_at(t, s, i);
        let a = t.take(i);
        let b = t.skip(i + s.len());
        assert(a + s + b =~= t) by {
            assert forall|k: int| 0 <= k < s.len() implies t[i + k] == s[k] by {
                assert(t.subrange(i, i + s.len())[k] == s[k]);
            }
        }
    }
}

/// Two texts with a separator between them are parted there, where the first has
/// none.
pub proof fn law_split_once_at(a: Seq<char>, b: Seq<char>, c: char)
    requires
        !a.contains(c),
    ensures
        split_once(a + seq![c] + b, c) == Some((a, b)),
{
    let s = a + seq![c] + b;
    law_split_once_parts(s, c);
    assert(s[a.len() as int] == c);
    assert(s.contains(c));
    let p = split_once(s, c)->0;
    let n = p.0.len() as int;
    assert(s[n] == c);
    if n < a.len() {
        assert(a[n] == c);
    }
    if n > a.len() {
        assert(p.0[a.len() as int] == s[a.len() as int]);
    }
    assert(p.0 =~= a);
    assert(p.1 =~= b) by {
        assert(s.skip(n + 1) =~= p.1);
        assert(s.skip(n + 1) =~= b);
    }
}

/// Two texts one after the other begin with the first and end with the second.
pub proof fn lemma_both_ends(a: Seq<char>, b: Seq<char>)
    ensures
        begins(a + b, a),
        ends(a + b, b),
{
    assert((a + b).subrange(0, a.len() as int) =~= a);
    assert((a + b).subrange(a.len() as int, (a.len() + b.len()) as int) =~= b);
}

/// The code points of all white space.
pub open spec fn white_space() -> Seq<int> {
    seq![
        0x09,
        0x0a,
        0x0b,
        0x0c,
        0x0d,
        0x20,
        0x85,
        0xa0,
        0x1680,
        0x2000,
        0x2001,
        0x2002,
        0x2003,
        0x2004,
        0x2005,
        0x2006,
        0x2007,
        0x2008,
        0x2009,
        0x200a,
        0x2028,
        0x2029,
        0x202f,
        0x205f,
        0x3000,
    ]
}

/// There are twenty-five characters of white space, and no letter or digit is
/// among them.
pub proof fn law_white_space_is_known(c: char, i: int)
    ensures
        is_space(c) ==> exists|k: int|
            0 <= k < 25 && #[trigger] white_space()[k] == c as int,
        0 <= i < 25 && c as int == white_space()[i] ==> is_space(c),
        white_space().len() == 25,
        is_alnum(c) ==> !is_space(c),
        is_digit(c) ==> is_alnum(c),
{
    let w = white_space();
    assert(w[0] == 0x09 && w[1] == 0x0a && w[2] == 0x0b && w[3] == 0x0c && w[4] == 0x0d && w[5]
        == 0x20 && w[6] == 0x85 && w[7] == 0xa0 && w[8] == 0x1680);
    assert(w[9] == 0x2000 && w[10] == 0x2001 && w[11] == 0x2002 && w[12] == 0x2003 && w[13]
        == 0x2004 && w[14] == 0x2005 && w[15] == 0x2006 && w[16] == 0x2007 && w[17] == 0x2008
        && w[18] == 0x2009 && w[19] == 0x200a);
    assert(w[20] == 0x2028 && w[21] == 0x2029 && w[22] == 0x202f && w[23] == 0x205f && w[24]
        == 0x3000);
}

} // verus!
