//! Texts measured and cut by the bytes of their UTF-8 form.
use vstd::prelude::*;
use vstd::utf8::*;
use crate::text;

verus! {

/// The number of bytes of a character in UTF-8.
pub open spec fn width(c: char) -> int {
    let u = c as u32;
    if u <= 0x7f {
        1
    } else if u <= 0x7ff {
        2
    } else if u <= 0xffff {
        3
    } else {
        4
    }
}

/// The number of bytes of a text in UTF-8.
pub open spec fn byte_len(s: Seq<char>) -> int
    decreases s.len(),
{
    if s.len() == 0 {
        0
    } else {
        byte_len(s.drop_last()) + width(s.last())
    }
}

/// UTF-8 encodes character by character.
pub proof fn lemma_encode_concat(a: Seq<char>, b: Seq<char>)
    ensures
        encode_utf8(a + b) == encode_utf8(a) + encode_utf8(b),
    decreases a.len(),
{
    if a.len() == 0 {
        assert(a + b =~= b);
        assert(encode_utf8(a) + encode_utf8(b) =~= encode_utf8(b));
    } else {
        lemma_encode_concat(a.drop_first(), b);
        assert((a + b).drop_first() =~= a.drop_first() + b);
        assert(encode_utf8(a + b) =~= encode_utf8(a) + encode_utf8(b));
    }
}

/// A single character takes `width` bytes.
pub proof fn lemma_encode_one(c: char)
    ensures
        encode_utf8(seq![c]) == encode_scalar(c as u32),
        encode_scalar(c as u32).len() == width(c),
{
    assert(seq![c].drop_first() =~= Seq::<char>::empty());
    assert(encode_utf8(seq![c].drop_first()) =~= Seq::<u8>::empty());
    assert(encode_utf8(seq![c]) =~= encode_scalar(c as u32));
    char_is_scalar(c);
}

/// `byte_len` is the length of the encoded text.
pub proof fn lemma_byte_len(s: Seq<char>)
    ensures
        byte_len(s) == encode_utf8(s).len(),
    decreases s.len(),
{
    if s.len() > 0 {
        lemma_byte_len(s.drop_last());
        lemma_encode_concat(s.drop_last(), seq![s.last()]);
        lemma_encode_one(s.last());
        assert(s.drop_last() + seq![s.last()] =~= s);
    }
}

/// The number of bytes of a prefix grows with the prefix.
pub proof fn lemma_byte_len_take(s: Seq<char>, i: int, j: int)
    requires
        0 <= i <= j <= s.len(),
    ensures
        byte_len(s.take(i)) + (j - i) <= byte_len(s.take(j)),
        0 <= byte_len(s.take(i)),
    decreases j,
{
    if j > 0 {
        assert(s.take(j).drop_last() =~= s.take(j - 1));
        if i < j {
            lemma_byte_len_take(s, i, j - 1);
        } else {
            lemma_byte_len_take(s, i - 1, j - 1);
        }
    }
}

/// The number of bytes of `c` in UTF-8.
pub fn char_width(c: char) -> (w: usize)
    ensures
        w == width(c),
        1 <= w <= 4,
{
    let u: u32 = c as u32;
    if u <= 0x7f {
        1
    } else if u <= 0x7ff {
        2
    } else if u <= 0xffff {
        3
    } else {
        4
    }
}

/// The number of bytes of `s` in UTF-8.
pub fn len_bytes(s: &str) -> (n: usize)
    ensures
        n == byte_len(s@),
{
    proof {
        lemma_byte_len(s@);
    }
    s.as_bytes().len()
}

/// Whether `k` is the length of the longest prefix of `s` of at most `max`
/// bytes.
pub open spec fn fits(s: Seq<char>, max: int, k: int) -> bool {
    &&& 0 <= k <= s.len()
    &&& byte_len(s.take(k)) <= max
    &&& k < s.len() ==> byte_len(s.take(k + 1)) > max
}

/// The length of the longest prefix of `s` of at most `max` bytes.
pub open spec fn fit(s: Seq<char>, max: int) -> int {
    choose|k: int| fits(s, max, k)
}

/// There is only one such length.
pub proof fn lemma_fit(s: Seq<char>, max: int, k: int)
    requires
        fits(s, max, k),
    ensures
        fit(s, max) == k,
{
    let m = fit(s, max);
    assert(fits(s, max, m));
    if m < k {
        lemma_byte_len_take(s, m + 1, k);
    } else if k < m {
        lemma_byte_len_take(s, k + 1, m);
    }
}

/// `s` as it is where it has at most `max` bytes, else its longest prefix of
/// at most `max` bytes followed by three dots.
pub open spec fn clip(s: Seq<char>, max: int) -> Seq<char> {
    if byte_len(s) > max {
        s.take(fit(s, max)) + "..."@
    } else {
        s
    }
}

/// Cuts `s` to at most `max` bytes and marks the cut with three dots.
pub fn clipped(s: &str, max: usize) -> (r: String)
    ensures
        r@ == clip(s@, max as int),
        byte_len(s@) <= usize::MAX,
{
    if len_bytes(s) <= max {
        return s.to_owned();
    }
    let v = text::to_chars(s);
    let mut k: usize = 0;
    let mut used: usize = 0;
    assert(v@.take(0) =~= Seq::<char>::empty());
    assert(v@.take(v@.len() as int) =~= v@);
    while k < v.len() && char_width(v[k]) <= max - used
        invariant
            k <= v@.len(),
            used == byte_len(v@.take(k as int)),
            used <= max,
        decreases v@.len() - k,
    {
        assert(v@.take(k + 1).drop_last() =~= v@.take(k as int));
        used = used + char_width(v[k]);
        k = k + 1;
    }
    proof {
        if k < v@.len() {
            assert(v@.take(k + 1).drop_last() =~= v@.take(k as int));
        }
        assert(fits(v@, max as int, k as int));
        lemma_fit(v@, max as int, k as int);
    }
    let mut r = text::cut(&v, 0, k);
    assert(r@ =~= s@.take(k as int));
    r.append("...");
    r
}

proof fn lemma_byte_len_concat(a: Seq<char>, b: Seq<char>)
    ensures
        byte_len(a + b) == byte_len(a) + byte_len(b),
{
    lemma_encode_concat(a, b);
    lemma_byte_len(a);
    lemma_byte_len(b);
    lemma_byte_len(a + b);
}

proof fn lemma_fit_exists(s: Seq<char>, max: int, n: int) -> (k: int)
    requires
        0 <= max,
        0 <= n <= s.len(),
        n < s.len() ==> byte_len(s.take(n + 1)) > max,
    ensures
        fits(s, max, k),
    decreases n,
{
    if byte_len(s.take(n)) <= max {
        n
    } else {
        assert(s.take(0) =~= Seq::<char>::empty());
        lemma_fit_exists(s, max, n - 1)
    }
}

/// A text cut to some bytes has at most three more, for the dots, and begins
/// with as much of the text as fits; one that fits stays as it is.
pub proof fn law_clip_is_short(s: Seq<char>, max: int)
    requires
        0 <= max,
    ensures
        byte_len(clip(s, max)) <= max + 3,
        byte_len(s) <= max ==> clip(s, max) == s,
        byte_len(s) > max ==> exists|k: int|
            0 <= k < s.len() && clip(s, max) == #[trigger] s.take(k) + "..."@ && byte_len(
                s.take(k),
            ) <= max && forall|j: int|
                k < j <= s.len() ==> byte_len(#[trigger] s.take(j)) > max,
{
    if byte_len(s) > max {
        let k = lemma_fit_exists(s, max, s.len() as int);
        lemma_fit(s, max, k);
        assert(s.take(s.len() as int) =~= s);
        assert forall|j: int| k < j <= s.len() implies byte_len(#[trigger] s.take(j)) > max by {
            lemma_byte_len_take(s, k + 1, j);
        }
        reveal_strlit("...");
        lemma_byte_len_concat(s.take(k), "..."@);
        assert("..."@.drop_last().drop_last().drop_last() =~= Seq::<char>::empty());
        reveal_with_fuel(byte_len, 4);
        assert(byte_len("..."@) == 3);
    }
}

} // verus!
