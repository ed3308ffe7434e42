//! Market keys `(core, market)` and their total order: by core id, then by the
//! market name compared byte by byte (the order of `String` in Rust).

use vstd::prelude::*;
use vstd::utf8::*;

verus! {

/// Identifier of a trading core (a connected server session).
pub type CoreId = u64;

/// A market of a core, as charts and subscriptions name it.
pub struct MarketKey {
    pub core: CoreId,
    pub market: String,
}

impl View for MarketKey {
    type V = (CoreId, Seq<char>);

    open spec fn view(&self) -> (CoreId, Seq<char>) {
        (self.core, self.market@)
    }
}

/// Three-way lexicographic comparison of byte strings: -1, 0 or 1.
pub open spec fn bytes_order(a: Seq<u8>, b: Seq<u8>) -> int
    decreases a.len(),
{
    if a.len() == 0 {
        if b.len() == 0 {
            0
        } else {
            -1
        }
    } else if b.len() == 0 {
        1
    } else if a[0] < b[0] {
        -1
    } else if a[0] > b[0] {
        1
    } else {
        bytes_order(a.drop_first(), b.drop_first())
    }
}

/// The strict order of market keys: core id first, then the UTF-8 bytes of the name.
pub open spec fn key_lt(a: (CoreId, Seq<char>), b: (CoreId, Seq<char>)) -> bool {
    a.0 < b.0 || (a.0 == b.0 && bytes_order(encode_utf8(a.1), encode_utf8(b.1)) == -1)
}

pub proof fn lemma_bytes_order_range(a: Seq<u8>, b: Seq<u8>)
    ensures
        -1 <= bytes_order(a, b) <= 1,
    decreases a.len(),
{
    if a.len() > 0 && b.len() > 0 && a[0] == b[0] {
        lemma_bytes_order_range(a.drop_first(), b.drop_first());
    }
}

pub proof fn lemma_bytes_order_eq(a: Seq<u8>, b: Seq<u8>)
    ensures
        (bytes_order(a, b) == 0) <==> (a == b),
    decreases a.len(),
{
    if a.len() == 0 && b.len() == 0 {
        assert(a =~= b);
    } else if a.len() > 0 && b.len() > 0 && a[0] == b[0] {
        lemma_bytes_order_eq(a.drop_first(), b.drop_first());
        if a.drop_first() == b.drop_first() {
            assert(a =~= seq![a[0]] + a.drop_first());
            assert(b =~= seq![b[0]] + b.drop_first());
        }
        if a == b {
            assert(a.drop_first() =~= b.drop_first());
        }
    }
}

pub proof fn lemma_bytes_order_antisym(a: Seq<u8>, b: Seq<u8>)
    ensures
        bytes_order(a, b) == -bytes_order(b, a),
    decreases a.len(),
{
    if a.len() > 0 && b.len() > 0 && a[0] == b[0] {
        lemma_bytes_order_antisym(a.drop_first(), b.drop_first());
    }
}

pub proof fn lemma_bytes_order_trans(a: Seq<u8>, b: Seq<u8>, c: Seq<u8>)
    requires
        bytes_order(a, b) == -1,
        bytes_order(b, c) == -1,
    ensures
        bytes_order(a, c) == -1,
    decreases a.len(),
{
    if a.len() > 0 && b.len() > 0 && c.len() > 0 && a[0] == b[0] && b[0] == c[0] {
        lemma_bytes_order_trans(a.drop_first(), b.drop_first(), c.drop_first());
    }
}

/// Equal names have equal UTF-8 bytes and conversely.
pub proof fn lemma_encode_injective(m1: Seq<char>, m2: Seq<char>)
    ensures
        (encode_utf8(m1) == encode_utf8(m2)) <==> (m1 == m2),
{
    encode_utf8_decode_utf8(m1);
    encode_utf8_decode_utf8(m2);
}

pub proof fn lemma_key_lt_irrefl(a: (CoreId, Seq<char>))
    ensures
        !key_lt(a, a),
{
    lemma_bytes_order_eq(encode_utf8(a.1), encode_utf8(a.1));
}

pub proof fn lemma_key_lt_asym(a: (CoreId, Seq<char>), b: (CoreId, Seq<char>))
    requires
        key_lt(a, b),
    ensures
        !key_lt(b, a),
        a != b,
{
    lemma_bytes_order_antisym(encode_utf8(a.1), encode_utf8(b.1));
    lemma_key_lt_irrefl(a);
}

pub proof fn lemma_key_lt_trans(a: (CoreId, Seq<char>), b: (CoreId, Seq<char>), c: (CoreId, Seq<char>))
    requires
        key_lt(a, b),
        key_lt(b, c),
    ensures
        key_lt(a, c),
{
    if a.0 == b.0 && b.0 == c.0 {
        lemma_bytes_order_trans(encode_utf8(a.1), encode_utf8(b.1), encode_utf8(c.1));
    }
}

pub proof fn lemma_key_lt_total(a: (CoreId, Seq<char>), b: (CoreId, Seq<char>))
    ensures
        key_lt(a, b) || key_lt(b, a) || a == b,
{
    let ea = encode_utf8(a.1);
    let eb = encode_utf8(b.1);
    lemma_bytes_order_range(ea, eb);
    lemma_bytes_order_antisym(ea, eb);
    lemma_bytes_order_eq(ea, eb);
    lemma_encode_injective(a.1, b.1);
}

/// Compare two byte slices the way `Ord` on strings does.
fn compare_bytes(a: &[u8], b: &[u8]) -> (r: i8)
    ensures
        r as int == bytes_order(a@, b@),
{
    let mut i: usize = 0;
    assert(a@.subrange(0, a@.len() as int) =~= a@);
    assert(b@.subrange(0, b@.len() as int) =~= b@);
    while i < a.len() && i < b.len()
        invariant
            i <= a@.len(),
            i <= b@.len(),
            bytes_order(a@, b@) == bytes_order(a@.subrange(i as int, a@.len() as int), b@.subrange(i as int, b@.len() as int)),
        decreases a@.len() - i,
    {
        let x = a[i];
        let y = b[i];
        let ghost sa = a@.subrange(i as int, a@.len() as int);
        let ghost sb = b@.subrange(i as int, b@.len() as int);
        assert(sa[0] == x && sb[0] == y);
        if x < y {
            return -1;
        }
        if x > y {
            return 1;
        }
        assert(sa.drop_first() =~= a@.subrange(i + 1, a@.len() as int));
        assert(sb.drop_first() =~= b@.subrange(i + 1, b@.len() as int));
        i = i + 1;
    }
    let ghost sa = a@.subrange(i as int, a@.len() as int);
    let ghost sb = b@.subrange(i as int, b@.len() as int);
    if i < a.len() {
        assert(sb.len() == 0 && sa.len() > 0);
        1
    } else if i < b.len() {
        -1
    } else {
        assert(sa.len() == 0 && sb.len() == 0);
        0
    }
}

/// Three-way comparison of market keys: -1 below, 0 equal, 1 above.
pub fn key_compare(a: &MarketKey, b: &MarketKey) -> (r: i8)
    ensures
        r == -1 <==> key_lt(a@, b@),
        r == 0 <==> a@ == b@,
        r == 1 <==> key_lt(b@, a@),
        r == -1 || r == 0 || r == 1,
{
    if a.core < b.core {
        return -1;
    }
    if a.core > b.core {
        return 1;
    }
    let r = compare_bytes(a.market.as_str().as_bytes(), b.market.as_str().as_bytes());
    proof {
        let ea = encode_utf8(a@.1);
        let eb = encode_utf8(b@.1);
        lemma_bytes_order_range(ea, eb);
        lemma_bytes_order_antisym(ea, eb);
        lemma_bytes_order_eq(ea, eb);
        lemma_encode_injective(a@.1, b@.1);
    }
    r
}

/// Copy of a key.
pub fn clone_key(k: &MarketKey) -> (r: MarketKey)
    ensures
        r@ == k@,
{
    MarketKey { core: k.core, market: k.market.clone() }
}

} // verus!
