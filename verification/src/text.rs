//! Small text operations the panels share: case folding, trimming, search, and the
//! byte order of strings.

use vstd::prelude::*;
use vstd::utf8::*;
use crate::keys::{bytes_order, lemma_bytes_order_range, lemma_bytes_order_eq, lemma_bytes_order_antisym, lemma_encode_injective};

verus! {

/// What `str::to_lowercase` returns for a text.
pub uninterp spec fn lowercase(s: Seq<char>) -> Seq<char>;

/// Whether every character of the text is ASCII.
pub open spec fn all_ascii(s: Seq<char>) -> bool {
    forall|i: int| 0 <= i < s.len() ==> (#[trigger] s[i]) as int <= 0x7f
}

/// An ASCII character in lower case: `A`..`Z` become `a`..`z`, the rest stay.
pub open spec fn ascii_lower(c: char) -> char {
    if 'A' <= c && c <= 'Z' { ((c as int) + 32) as char } else { c }
}

/// White space as Unicode's `White_Space` property has it (what `char::is_whitespace`
/// and `str::trim` go by).
pub open spec fn is_white(c: char) -> bool {
    ('\u{9}' <= c && c <= '\u{d}') || c == ' ' || c == '\u{85}' || c == '\u{a0}' || c == '\u{1680}'
        || ('\u{2000}' <= c && c <= '\u{200a}') || c == '\u{2028}' || c == '\u{2029}'
        || c == '\u{202f}' || c == '\u{205f}' || c == '\u{3000}'
}

/// The text without its leading white space.
pub open spec fn trim_start(s: Seq<char>) -> Seq<char>
    decreases s.len(),
{
    if s.len() > 0 && is_white(s[0]) { trim_start(s.drop_first()) } else { s }
}

/// The text without its trailing white space.
pub open spec fn trim_end(s: Seq<char>) -> Seq<char>
    decreases s.len(),
{
    if s.len() > 0 && is_white(s.last()) { trim_end(s.drop_last()) } else { s }
}

/// The text without leading and trailing white space, as `str::trim` gives it.
pub open spec fn trimmed(s: Seq<char>) -> Seq<char> {
    trim_end(trim_start(s))
}

/// `str::to_lowercase`: the text in lower case (Unicode rules), named by `lowercase`;
/// an ASCII text is lowered character by character, `A`..`Z` to `a`..`z`.
#[verifier::external_body]
pub fn to_lower(s: &str) -> (r: String)
    ensures
        r@ == lowercase(s@),
        all_ascii(s@) ==> r@ == Seq::new(s@.len(), |i: int| ascii_lower(s@[i])),
{
    s.to_lowercase()
}

/// Whether `c` is white space (Unicode's `White_Space`).
pub fn is_white_char(c: char) -> (r: bool)
    ensures
        r == is_white(c),
{
    let u = c as u32;
    (0x9 <= u && u <= 0xd) || u == 0x20 || u == 0x85 || u == 0xa0 || u == 0x1680
        || (0x2000 <= u && u <= 0x200a) || u == 0x2028 || u == 0x2029
        || u == 0x202f || u == 0x205f || u == 0x3000
}

/// Dropping `k` leading white characters, up to the first other one, is `trim_start`.
proof fn lemma_trim_start_at(s: Seq<char>, k: int)
    requires
        0 <= k <= s.len(),
        forall|j: int| 0 <= j < k ==> is_white(#[trigger] s[j]),
        k == s.len() || !is_white(s[k]),
    ensures
        trim_start(s) == s.subrange(k, s.len() as int),
    decreases k,
{
    if k == 0 {
        assert(s.subrange(0, s.len() as int) =~= s);
    } else {
        assert(is_white(s[0]));
        let t = s.drop_first();
        assert forall|j: int| 0 <= j < k - 1 implies is_white(#[trigger] t[j]) by {
            assert(t[j] == s[j + 1]);
        }
        lemma_trim_start_at(t, k - 1);
        assert(t.subrange(k - 1, t.len() as int) =~= s.subrange(k, s.len() as int));
    }
}

/// Dropping the white characters after position `m`, back to the last other one,
/// is `trim_end`.
proof fn lemma_trim_end_at(t: Seq<char>, m: int)
    requires
        0 <= m <= t.len(),
        forall|j: int| m <= j < t.len() ==> is_white(#[trigger] t[j]),
        m == 0 || !is_white(t[m - 1]),
    ensures
        trim_end(t) == t.subrange(0, m),
    decreases t.len() - m,
{
    if m == t.len() {
        assert(t.subrange(0, m) =~= t);
    } else {
        assert(is_white(t[t.len() - 1]));
        let u = t.drop_last();
        assert forall|j: int| m <= j < u.len() implies is_white(#[trigger] u[j]) by {
            assert(u[j] == t[j]);
        }
        lemma_trim_end_at(u, m);
        assert(u.subrange(0, m) =~= t.subrange(0, m));
    }
}

/// The text without leading and trailing white space (Unicode's `White_Space`), as
/// `str::trim` gives it and `trimmed` states it.
pub fn trim(s: &str) -> (r: &str)
    ensures
        r@ == trimmed(s@),
{
    let v = chars_of(s);
    let n = v.len();
    let mut k: usize = 0;
    while k < n && is_white_char(v[k])
        invariant
            v@ == s@,
            n == v@.len(),
            k <= n,
            forall|j: int| 0 <= j < k ==> is_white(#[trigger] v@[j]),
        decreases n - k,
    {
        k = k + 1;
    }
    let mut e: usize = n;
    while e > k && is_white_char(v[e - 1])
        invariant
            v@ == s@,
            n == v@.len(),
            k <= e <= n,
            forall|j: int| e <= j < n ==> is_white(#[trigger] v@[j]),
        decreases e - k,
    {
        e = e - 1;
    }
    proof {
        lemma_trim_start_at(s@, k as int);
        let t = s@.subrange(k as int, n as int);
        assert forall|j: int| e - k <= j < t.len() implies is_white(#[trigger] t[j]) by {
            assert(t[j] == s@[j + k]);
        }
        if e > k {
            assert(t[e - k - 1] == s@[e - 1]);
        }
        lemma_trim_end_at(t, e - k);
        assert(t.subrange(0, e - k) =~= s@.subrange(k as int, e as int));
    }
    s.substring_char(k, e)
}

/// Whether `needle` occurs in `hay` as a run of characters.
pub open spec fn occurs_in(hay: Seq<char>, needle: Seq<char>) -> bool {
    exists|i: int| 0 <= i <= hay.len() - needle.len() && #[trigger] hay.subrange(i, i + needle.len()) == needle
}

/// Whether `n` occurs in `h` starting at position `i`.
fn matches_at(h: &Vec<char>, n: &Vec<char>, i: usize) -> (r: bool)
    requires
        i + n@.len() <= h@.len(),
    ensures
        r == (h@.subrange(i as int, i + n@.len()) == n@),
{
    let hl = h.len();
    let mut j: usize = 0;
    while j < n.len()
        invariant
            hl == h@.len(),
            i + n@.len() <= h@.len(),
            j <= n@.len(),
            forall|t: int| 0 <= t < j ==> h@[i + t] == n@[t],
        decreases n@.len() - j,
    {
        if h[i + j] != n[j] {
            proof {
                assert(h@.subrange(i as int, i + n@.len())[j as int] == h@[i + j]);
            }
            return false;
        }
        j = j + 1;
    }
    proof {
        assert(h@.subrange(i as int, i + n@.len()) =~= n@);
    }
    true
}

/// Whether `needle` occurs in `hay` as a run of characters (an empty one always does).
pub fn contains(hay: &str, needle: &str) -> (r: bool)
    ensures
        r == occurs_in(hay@, needle@),
{
    let h = chars_of(hay);
    let n = chars_of(needle);
    if n.len() > h.len() {
        return false;
    }
    let last = h.len() - n.len();
    let mut i: usize = 0;
    loop
        invariant
            h@ == hay@,
            n@ == needle@,
            last == h@.len() - n@.len(),
            i <= last,
            forall|t: int| 0 <= t < i ==> #[trigger] h@.subrange(t, t + n@.len()) != n@,
        decreases last - i,
    {
        if matches_at(&h, &n, i) {
            return true;
        }
        if i == last {
            return false;
        }
        i = i + 1;
    }
}

/// The characters of a text, in order.
pub fn chars_of(s: &str) -> (r: Vec<char>)
    ensures
        r@ == s@,
{
    broadcast use vstd::string::group_string_axioms;
    let mut out: Vec<char> = Vec::new();
    for c in it: s.chars()
        invariant
            it.seq() == s@,
            out@ == it.seq().take(it.index() as int),
    {
        out.push(c);
    }
    out
}

/// `String::push`: the character goes at the end.
#[verifier::external_body]
pub fn push_char(s: &mut String, c: char)
    ensures
        final(s)@ == old(s)@.push(c),
{
    s.push(c)
}

/// The strict order of texts as `Ord` on `String` has it: by their UTF-8 bytes.
pub open spec fn text_lt(a: Seq<char>, b: Seq<char>) -> bool {
    bytes_order(encode_utf8(a), encode_utf8(b)) == -1
}

pub proof fn lemma_text_lt_total(a: Seq<char>, b: Seq<char>)
    ensures
        text_lt(a, b) || text_lt(b, a) || a == b,
        !(text_lt(a, b) && text_lt(b, a)),
        !text_lt(a, a),
{
    let ea = encode_utf8(a);
    let eb = encode_utf8(b);
    lemma_bytes_order_range(ea, eb);
    lemma_bytes_order_antisym(ea, eb);
    lemma_bytes_order_eq(ea, eb);
    lemma_bytes_order_eq(ea, ea);
    lemma_encode_injective(a, b);
}

/// Whether `b` comes strictly before `a` in the order of texts.
pub fn text_less(a: &str, b: &str) -> (r: bool)
    ensures
        r == text_lt(a@, b@),
{
    let x = a.as_bytes();
    let y = b.as_bytes();
    let mut i: usize = 0;
    proof {
        assert(x@.subrange(0, x@.len() as int) =~= x@);
        assert(y@.subrange(0, y@.len() as int) =~= y@);
    }
    while i < x.len() && i < y.len()
        invariant
            i <= x@.len(),
            i <= y@.len(),
            x@ == encode_utf8(a@),
            y@ == encode_utf8(b@),
            bytes_order(x@, y@) == bytes_order(x@.subrange(i as int, x@.len() as int), y@.subrange(i as int, y@.len() as int)),
        decreases x@.len() - i,
    {
        let p = x[i];
        let q = y[i];
        let ghost sa = x@.subrange(i as int, x@.len() as int);
        let ghost sb = y@.subrange(i as int, y@.len() as int);
        assert(sa[0] == p && sb[0] == q);
        if p != q {
            return p < q;
        }
        assert(sa.drop_first() =~= x@.subrange(i + 1, x@.len() as int));
        assert(sb.drop_first() =~= y@.subrange(i + 1, y@.len() as int));
        i = i + 1;
    }
    let ghost sa = x@.subrange(i as int, x@.len() as int);
    let ghost sb = y@.subrange(i as int, y@.len() as int);
    i >= x.len() && i < y.len()
}

/// Whether two texts are the same.
pub fn text_eq(a: &str, b: &str) -> (r: bool)
    ensures
        r == (a@ == b@),
{
    proof {
        lemma_text_lt_total(a@, b@);
    }
    !text_less(a, b) && !text_less(b, a)
}

} // verus!
