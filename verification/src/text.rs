//! Characters and the small amount of text handling the script dialect needs:
//! Unicode whitespace, trimming, searching, and reading the valid UTF-8 prefix
//! of a byte buffer.
use vstd::prelude::*;
use vstd::utf8::*;

verus! {

/// The position of the first element satisfying `p`, or `s.len()` when none does.
pub open spec fn first_index<T>(s: Seq<T>, p: spec_fn(T) -> bool) -> nat
    decreases s.len(),
{
    if s.len() == 0 {
        0
    } else if p(s[0]) {
        0
    } else {
        1 + first_index(s.drop_first(), p)
    }
}

/// How many elements at the end of `s` satisfy `p`, counted from the back.
pub open spec fn trailing<T>(s: Seq<T>, p: spec_fn(T) -> bool) -> nat
    decreases s.len(),
{
    if s.len() == 0 {
        0
    } else if p(s.last()) {
        1 + trailing(s.drop_last(), p)
    } else {
        0
    }
}

/// A search stops at the first match: nothing before `i` matches, and `i` is
/// either a match or the end.
pub proof fn lemma_first_index<T>(s: Seq<T>, p: spec_fn(T) -> bool, i: int)
    requires
        0 <= i <= s.len(),
        forall|k: int| 0 <= k < i ==> !p(#[trigger] s[k]),
        i == s.len() || p(s[i]),
    ensures
        first_index(s, p) == i,
    decreases s.len(),
{
    if s.len() == 0 {
    } else if i == 0 {
    } else {
        assert(!p(s[0]));
        let t = s.drop_first();
        assert forall|k: int| 0 <= k < i - 1 implies !p(#[trigger] t[k]) by {
            assert(t[k] == s[k + 1]);
        }
        if i < s.len() {
            assert(t[i - 1] == s[i]);
        }
        lemma_first_index(t, p, i - 1);
    }
}

/// The result of a search is in range, and everything before it fails `p`.
pub proof fn lemma_first_index_bounds<T>(s: Seq<T>, p: spec_fn(T) -> bool)
    ensures
        first_index(s, p) <= s.len(),
        forall|k: int| 0 <= k < first_index(s, p) ==> !p(#[trigger] s[k]),
        first_index(s, p) < s.len() ==> p(s[first_index(s, p) as int]),
    decreases s.len(),
{
    if s.len() > 0 && !p(s[0]) {
        let t = s.drop_first();
        lemma_first_index_bounds(t, p);
        assert forall|k: int| 0 <= k < first_index(s, p) implies !p(#[trigger] s[k]) by {
            if k > 0 {
                assert(s[k] == t[k - 1]);
            }
        }
    }
}

/// Counting from the back stops at the first element that fails `p`.
pub proof fn lemma_trailing<T>(s: Seq<T>, p: spec_fn(T) -> bool, j: int)
    requires
        0 <= j <= s.len(),
        forall|k: int| j <= k < s.len() ==> p(#[trigger] s[k]),
        j == 0 || !p(s[j - 1]),
    ensures
        trailing(s, p) == s.len() - j,
    decreases s.len(),
{
    if s.len() == 0 {
    } else if j == s.len() {
    } else {
        let t = s.drop_last();
        assert(p(s[s.len() - 1]));
        assert forall|k: int| j <= k < t.len() implies p(#[trigger] t[k]) by {
            assert(t[k] == s[k]);
        }
        if j > 0 {
            assert(t[j - 1] == s[j - 1]);
        }
        lemma_trailing(t, p, j);
    }
}

/// Unicode `White_Space`: the characters `char::is_whitespace` accepts.
pub open spec fn is_ws(c: char) -> bool {
    let v = c as u32;
    ||| 0x09 <= v <= 0x0d
    ||| v == 0x20
    ||| v == 0x85
    ||| v == 0xa0
    ||| v == 0x1680
    ||| 0x2000 <= v <= 0x200a
    ||| v == 0x2028
    ||| v == 0x2029
    ||| v == 0x202f
    ||| v == 0x205f
    ||| v == 0x3000
}

pub open spec fn ws_pred() -> spec_fn(char) -> bool {
    |c: char| is_ws(c)
}

pub open spec fn non_ws_pred() -> spec_fn(char) -> bool {
    |c: char| !is_ws(c)
}

pub open spec fn char_pred(x: char) -> spec_fn(char) -> bool {
    |c: char| c == x
}

/// `s` without leading and trailing whitespace, as `str::trim` gives it.
pub open spec fn trim(s: Seq<char>) -> Seq<char> {
    let t = s.skip(first_index(s, non_ws_pred()) as int);
    t.take(t.len() - trailing(t, ws_pred()))
}

/// Whether `c` is whitespace in the sense of `trim`.
pub fn is_whitespace(c: char) -> (b: bool)
    ensures
        b == is_ws(c),
{
    let v = c as u32;
    (0x09 <= v && v <= 0x0d) || v == 0x20 || v == 0x85 || v == 0xa0 || v == 0x1680 || (0x2000
        <= v && v <= 0x200a) || v == 0x2028 || v == 0x2029 || v == 0x202f || v == 0x205f || v
        == 0x3000
}

/// Trim the range `lo..hi` of `text`, giving the range of what remains.
pub fn trim_range(text: &Vec<char>, lo: usize, hi: usize) -> (r: (usize, usize))
    requires
        lo <= hi <= text.len(),
    ensures
        lo <= r.0 <= r.1 <= hi,
        text@.subrange(r.0 as int, r.1 as int) == trim(text@.subrange(lo as int, hi as int)),
{
    let ghost s = text@.subrange(lo as int, hi as int);
    let mut a = lo;
    while a < hi && is_whitespace(text[a])
        invariant
            lo <= a <= hi <= text.len(),
            s == text@.subrange(lo as int, hi as int),
            forall|k: int| lo <= k < a ==> is_ws(#[trigger] text@[k]),
        decreases hi - a,
    {
        a = a + 1;
    }
    proof {
        assert forall|k: int| 0 <= k < a - lo implies !(#[trigger] non_ws_pred()(s[k])) by {
            assert(s[k] == text@[lo + k]);
        }
        if a < hi {
            assert(s[a - lo] == text@[a as int]);
        }
        lemma_first_index(s, non_ws_pred(), a - lo);
    }
    let ghost t = text@.subrange(a as int, hi as int);
    assert(t =~= s.skip(a - lo));
    let mut b = hi;
    while b > a && is_whitespace(text[b - 1])
        invariant
            lo <= a <= b <= hi <= text.len(),
            t == text@.subrange(a as int, hi as int),
            forall|k: int| b <= k < hi ==> is_ws(#[trigger] text@[k]),
        decreases b - a,
    {
        b = b - 1;
    }
    proof {
        assert forall|k: int| b - a <= k < t.len() implies #[trigger] ws_pred()(t[k]) by {
            assert(t[k] == text@[a + k]);
        }
        if b > a {
            assert(t[b - a - 1] == text@[b - 1]);
        }
        lemma_trailing(t, ws_pred(), b - a);
        assert(text@.subrange(a as int, b as int) =~= t.take(b - a));
    }
    (a, b)
}

/// The first position in `lo..hi` holding whitespace, or `hi`.
pub fn find_whitespace(text: &Vec<char>, lo: usize, hi: usize) -> (r: usize)
    requires
        lo <= hi <= text.len(),
    ensures
        lo <= r <= hi,
        r - lo == first_index(text@.subrange(lo as int, hi as int), ws_pred()),
{
    let ghost s = text@.subrange(lo as int, hi as int);
    let mut i = lo;
    while i < hi && !is_whitespace(text[i])
        invariant
            lo <= i <= hi <= text.len(),
            forall|k: int| lo <= k < i ==> !is_ws(#[trigger] text@[k]),
        decreases hi - i,
    {
        i = i + 1;
    }
    proof {
        assert forall|k: int| 0 <= k < i - lo implies !(#[trigger] ws_pred()(s[k])) by {
            assert(s[k] == text@[lo + k]);
        }
        if i < hi {
            assert(s[i - lo] == text@[i as int]);
        }
        lemma_first_index(s, ws_pred(), i - lo);
    }
    i
}

/// The first position in `lo..hi` holding `c`, or `hi`.
pub fn find_char(text: &Vec<char>, lo: usize, hi: usize, c: char) -> (r: usize)
    requires
        lo <= hi <= text.len(),
    ensures
        lo <= r <= hi,
        r - lo == first_index(text@.subrange(lo as int, hi as int), char_pred(c)),
{
    let ghost s = text@.subrange(lo as int, hi as int);
    let mut i = lo;
    while i < hi && text[i] != c
        invariant
            lo <= i <= hi <= text.len(),
            forall|k: int| lo <= k < i ==> #[trigger] text@[k] != c,
        decreases hi - i,
    {
        i = i + 1;
    }
    proof {
        assert forall|k: int| 0 <= k < i - lo implies !(#[trigger] char_pred(c)(s[k])) by {
            assert(s[k] == text@[lo + k]);
        }
        if i < hi {
            assert(s[i - lo] == text@[i as int]);
        }
        lemma_first_index(s, char_pred(c), i - lo);
    }
    i
}


/// The characters of the longest valid UTF-8 prefix of `b`: scalars are read
/// from the front until the bytes stop forming one.
pub open spec fn utf8_prefix(b: Seq<u8>) -> Seq<char>
    decreases b.len(),
{
    if b.len() > 0 && valid_first_scalar(b) {
        seq![decode_first_scalar(b) as char] + utf8_prefix(pop_first_scalar(b))
    } else {
        seq![]
    }
}

/// A buffer that is valid UTF-8 is read whole: its prefix is all of it.
pub proof fn law_valid_utf8_is_read_whole(b: Seq<u8>)
    requires
        valid_utf8(b),
    ensures
        utf8_prefix(b) == decode_utf8(b),
    decreases b.len(),
{
    if b.len() > 0 {
        law_valid_utf8_is_read_whole(pop_first_scalar(b));
    }
}

/// How many bytes at the front of `b` form valid UTF-8 before the first
/// fault: scalars are counted from the front while they are well formed.
pub open spec fn valid_prefix_len(b: Seq<u8>) -> nat
    decreases b.len(),
{
    if b.len() > 0 && valid_first_scalar(b) {
        (length_of_first_scalar(b) + valid_prefix_len(pop_first_scalar(b))) as nat
    } else {
        0
    }
}

proof fn lemma_pop_shorter(b: Seq<u8>)
    requires
        b.len() > 0,
        valid_first_scalar(b),
    ensures
        1 <= length_of_first_scalar(b) <= b.len(),
        pop_first_scalar(b).len() == b.len() - length_of_first_scalar(b),
{
}

/// The first scalar of `b` reads the same from any front part of `b` that
/// holds it whole.
proof fn lemma_first_scalar_of_front(b: Seq<u8>, k: int)
    requires
        b.len() > 0,
        valid_first_scalar(b),
        length_of_first_scalar(b) <= k <= b.len(),
    ensures
        valid_first_scalar(b.take(k)),
        length_of_first_scalar(b.take(k)) == length_of_first_scalar(b),
        decode_first_scalar(b.take(k)) == decode_first_scalar(b),
        pop_first_scalar(b.take(k)) == pop_first_scalar(b).take(k - length_of_first_scalar(b)),
{
    let t = b.take(k);
    assert(t[0] == b[0]);
    if k >= 2 {
        assert(t[1] == b[1]);
    }
    if k >= 3 {
        assert(t[2] == b[2]);
    }
    if k >= 4 {
        assert(t[3] == b[3]);
    }
    assert(pop_first_scalar(t) =~= pop_first_scalar(b).take(k - length_of_first_scalar(b)));
}

/// The valid prefix of a buffer is valid UTF-8, stops where the bytes stop
/// forming a scalar, and reads as the same characters as the whole buffer.
pub proof fn lemma_valid_prefix(b: Seq<u8>)
    ensures
        valid_prefix_len(b) <= b.len(),
        valid_utf8(b.take(valid_prefix_len(b) as int)),
        valid_prefix_len(b) < b.len() ==> !valid_first_scalar(b.skip(valid_prefix_len(b) as int)),
        utf8_prefix(b.take(valid_prefix_len(b) as int)) == utf8_prefix(b),
    decreases b.len(),
{
    let k = valid_prefix_len(b) as int;
    if b.len() > 0 && valid_first_scalar(b) {
        lemma_pop_shorter(b);
        let l = length_of_first_scalar(b);
        let rest = pop_first_scalar(b);
        lemma_valid_prefix(rest);
        let k2 = valid_prefix_len(rest) as int;
        assert(k == l + k2);
        lemma_first_scalar_of_front(b, k);
        let t = b.take(k);
        assert(pop_first_scalar(t) == rest.take(k2));
        assert(t.len() > 0);
        if k < b.len() {
            assert(b.skip(k) =~= rest.skip(k2));
        }
    } else {
        assert(b.take(0) =~= Seq::<u8>::empty());
        assert(b.skip(0) =~= b);
    }
}

/// A scalar at the front of `t` stays the front scalar when bytes follow.
proof fn lemma_first_scalar_extends(t: Seq<u8>, r: Seq<u8>)
    requires
        t.len() > 0,
        valid_first_scalar(t),
    ensures
        valid_first_scalar(t + r),
        length_of_first_scalar(t + r) == length_of_first_scalar(t),
        decode_first_scalar(t + r) == decode_first_scalar(t),
        pop_first_scalar(t + r) == pop_first_scalar(t) + r,
{
    let b = t + r;
    lemma_pop_shorter(t);
    assert(b[0] == t[0]);
    if t.len() >= 2 {
        assert(b[1] == t[1]);
    }
    if t.len() >= 3 {
        assert(b[2] == t[2]);
    }
    if t.len() >= 4 {
        assert(b[3] == t[3]);
    }
    assert(pop_first_scalar(b) =~= pop_first_scalar(t) + r);
}

/// Reading valid UTF-8 followed by anything gives its characters first, then
/// whatever the rest reads as.
pub proof fn lemma_utf8_prefix_append(s: Seq<char>, r: Seq<u8>)
    ensures
        utf8_prefix(encode_utf8(s) + r) == s + utf8_prefix(r),
    decreases s.len(),
{
    if s.len() == 0 {
        assert(encode_utf8(s) + r =~= r);
        assert(s + utf8_prefix(r) =~= utf8_prefix(r));
    } else {
        let t = encode_utf8(s);
        encode_utf8_first_scalar(s);
        assert(pop_first_scalar(t) =~= encode_utf8(s.drop_first()));
        lemma_first_scalar_extends(t, r);
        lemma_utf8_prefix_append(s.drop_first(), r);
        char_u32_cast(s[0], decode_first_scalar(t));
        assert((t + r).len() > 0);
        assert(s =~= seq![s[0]] + s.drop_first());
        assert(utf8_prefix(t + r) == seq![decode_first_scalar(t + r) as char] + utf8_prefix(
            pop_first_scalar(t + r),
        ));
        assert(seq![s[0]] + (s.drop_first() + utf8_prefix(r)) =~= s + utf8_prefix(r));
    }
}

/// `char::from_u32` gives the character with the given scalar value, and
/// `None` for a value that is not a Unicode scalar value.
pub assume_specification[ core::char::from_u32 ](i: u32) -> (r: Option<char>)
    ensures
        is_scalar(i) ==> r == Some(i as char),
        !is_scalar(i) ==> r is None,
;

/// The scalar encoded at `b[i..]` and its length in bytes, or `None` when the
/// bytes there are not a well-formed UTF-8 encoding of one scalar.
fn scalar_at(b: &[u8], i: usize) -> (r: Option<(char, usize)>)
    requires
        i < b@.len(),
    ensures
        ({
            let s = b@.subrange(i as int, b@.len() as int);
            match r {
                None => !valid_first_scalar(s),
                Some((c, k)) => valid_first_scalar(s) && c == decode_first_scalar(s) as char
                    && k == length_of_first_scalar(s),
            }
        }),
{
    let ghost s = b@.subrange(i as int, b@.len() as int);
    let n = b.len();
    let b0 = b[i];
    assert(s[0] == b0);
    if b0 <= 0x7f {
        let cp = (b0 & 0x7f) as u32;
        assert(cp <= 0x7f) by (bit_vector)
            requires
                cp == (b0 & 0x7f) as u32,
        ;
        match core::char::from_u32(cp) {
            Some(c) => Some((c, 1)),
            None => None,
        }
    } else if b0 < 0xc0 || b0 > 0xf7 {
        None
    } else if b0 <= 0xdf {
        if n - i <= 1 {
            return None;
        }
        let b1 = b[i + 1];
        assert(s[1] == b1);
        if b1 < 0x80 || b1 > 0xbf {
            return None;
        }
        let cp = (((b0 & 0x1f) as u32) << 6u32) | ((b1 & 0x3f) as u32);
        assert(cp <= 0x7ff) by (bit_vector)
            requires
                cp == (((b0 & 0x1f) as u32) << 6u32) | ((b1 & 0x3f) as u32),
        ;
        if cp < 0x80 {
            return None;
        }
        match core::char::from_u32(cp) {
            Some(c) => Some((c, 2)),
            None => None,
        }
    } else if b0 <= 0xef {
        if n - i <= 2 {
            return None;
        }
        let b1 = b[i + 1];
        let b2 = b[i + 2];
        assert(s[1] == b1 && s[2] == b2);
        if b1 < 0x80 || b1 > 0xbf || b2 < 0x80 || b2 > 0xbf {
            return None;
        }
        let cp = (((b0 & 0x0f) as u32) << 12u32) | (((b1 & 0x3f) as u32) << 6u32) | ((b2
            & 0x3f) as u32);
        assert(cp <= 0xffff) by (bit_vector)
            requires
                cp == (((b0 & 0x0f) as u32) << 12u32) | (((b1 & 0x3f) as u32) << 6u32) | ((b2
                    & 0x3f) as u32),
        ;
        if cp < 0x800 || (0xd800 <= cp && cp <= 0xdfff) {
            return None;
        }
        match core::char::from_u32(cp) {
            Some(c) => Some((c, 3)),
            None => None,
        }
    } else {
        if n - i <= 3 {
            return None;
        }
        let b1 = b[i + 1];
        let b2 = b[i + 2];
        let b3 = b[i + 3];
        assert(s[1] == b1 && s[2] == b2 && s[3] == b3);
        if b1 < 0x80 || b1 > 0xbf || b2 < 0x80 || b2 > 0xbf || b3 < 0x80 || b3 > 0xbf {
            return None;
        }
        let cp = (((b0 & 0x07) as u32) << 18u32) | (((b1 & 0x3f) as u32) << 12u32) | (((b2
            & 0x3f) as u32) << 6u32) | ((b3 & 0x3f) as u32);
        if cp < 0x10000 || cp > 0x10ffff {
            return None;
        }
        match core::char::from_u32(cp) {
            Some(c) => Some((c, 4)),
            None => None,
        }
    }
}

/// Decode the longest valid UTF-8 prefix of `b`. A byte buffer that is not
/// UTF-8 all the way through gives the characters before the first fault.
pub fn decode_utf8_prefix(b: &[u8]) -> (r: Vec<char>)
    ensures
        r@ == utf8_prefix(b@),
{
    let mut out: Vec<char> = Vec::new();
    let mut i: usize = 0;
    assert(b@.subrange(0, b@.len() as int) =~= b@);
    loop
        invariant
            i <= b@.len(),
            utf8_prefix(b@) == out@ + utf8_prefix(b@.subrange(i as int, b@.len() as int)),
        ensures
            utf8_prefix(b@) == out@,
        decreases b@.len() - i,
    {
        let ghost s = b@.subrange(i as int, b@.len() as int);
        if i >= b.len() {
            assert(out@ + utf8_prefix(s) =~= out@);
            break;
        }
        match scalar_at(b, i) {
            None => {
                assert(out@ + utf8_prefix(s) =~= out@);
                break;
            },
            Some((c, k)) => {
                assert(pop_first_scalar(s) =~= b@.subrange(i + k, b@.len() as int));
                assert(out@.push(c) + utf8_prefix(pop_first_scalar(s)) =~= out@ + utf8_prefix(s));
                out.push(c);
                i = i + k;
            },
        }
    }
    out
}

} // verus!
