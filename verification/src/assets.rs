//! The assets view: money text, market kind labels, the redraw signature of the
//! cores in view, and the core whose wallets show.

use vstd::prelude::*;
use crate::keys::CoreId;
use crate::text::push_char;
use vstd::utf8::encode_utf8;

verus! {

/// Length in bytes of a text, as `str::len` gives it.
pub open spec fn byte_len(s: Seq<char>) -> int {
    (encode_utf8(s).len() as usize) as int
}

/// Whether a space goes before character `i` of a whole part `L` bytes long.
pub open spec fn space_before(len: int, i: int) -> bool {
    i > 0 && (len - i) % 3 == 0
}

/// The first `k` characters of `s` with a space before each character whose distance
/// from the end (counted in the text's `len` bytes) is a multiple of three.
pub open spec fn grouped(s: Seq<char>, len: int, k: int) -> Seq<char>
    decreases k,
{
    if k <= 0 {
        Seq::empty()
    } else {
        let p = grouped(s, len, k - 1);
        let q = if space_before(len, k - 1) { p.push(' ') } else { p };
        q.push(s[k - 1])
    }
}

/// A whole part split into groups of three: "1111" gives "1 111".
pub fn group_thousands(int_part: &str) -> (r: String)
    ensures
        r@ == grouped(int_part@, byte_len(int_part@), int_part@.len() as int),
{
    let len = int_part.len();
    let n = int_part.unicode_len();
    let mut out = String::new();
    let mut i: usize = 0;
    while i < n
        invariant
            i <= n,
            n == int_part@.len(),
            len as int == byte_len(int_part@),
            out@ == grouped(int_part@, len as int, i as int),
        decreases n - i,
    {
        let ch = int_part.get_char(i);
        let rem = if i <= len { (len - i) % 3 } else { (i - len) % 3 };
        proof {
            let a = len as int - i as int;
            assert((a % 3 == 0) == ((-a) % 3 == 0)) by (nonlinear_arith);
        }
        if i > 0 && rem == 0 {
            push_char(&mut out, ' ');
        }
        push_char(&mut out, ch);
        i = i + 1;
    }
    out
}

/// The text without its spaces.
pub open spec fn without_spaces(t: Seq<char>) -> Seq<char>
    decreases t.len(),
{
    if t.len() == 0 {
        t
    } else if t.last() == ' ' {
        without_spaces(t.drop_last())
    } else {
        without_spaces(t.drop_last()).push(t.last())
    }
}

/// Grouping only adds spaces: taking them out again gives back a whole part that had
/// none.
pub proof fn law_grouping_only_adds_spaces(s: Seq<char>, len: int, k: int)
    requires
        0 <= k <= s.len(),
        forall|i: int| 0 <= i < s.len() ==> s[i] != ' ',
    ensures
        without_spaces(grouped(s, len, k)) == s.subrange(0, k),
    decreases k,
{
    if k == 0 {
        assert(s.subrange(0, 0) =~= Seq::<char>::empty());
    } else {
        law_grouping_only_adds_spaces(s, len, k - 1);
        let p = grouped(s, len, k - 1);
        let q = if space_before(len, k - 1) { p.push(' ') } else { p };
        let t = q.push(s[k - 1]);
        assert(t.drop_last() =~= q);
        assert(t.last() == s[k - 1] && s[k - 1] != ' ');
        assert(without_spaces(t) == without_spaces(q).push(s[k - 1]));
        if space_before(len, k - 1) {
            assert(q.drop_last() =~= p);
            assert(q.last() == ' ');
            assert(without_spaces(q) == without_spaces(p));
        }
        assert(s.subrange(0, k - 1).push(s[k - 1]) =~= s.subrange(0, k));
    }
}

/// Position of the first '.' in `s`, if any.
pub open spec fn first_dot(s: Seq<char>) -> Option<int> {
    if exists|i: int| 0 <= i < s.len() && s[i] == '.' {
        Some(choose|i: int| 0 <= i < s.len() && s[i] == '.' && forall|k: int| 0 <= k < i ==> s[k] != '.')
    } else {
        None
    }
}

/// A USDT amount as money: the sign, the whole part in groups of three, a comma and the
/// fraction, then `$`. `fixed` is the absolute amount with one decimal ("1111.1"); a
/// text without a point counts as a fraction of "0".
pub open spec fn money_spec(neg: bool, fixed: Seq<char>) -> Seq<char> {
    let (whole, frac) = match first_dot(fixed) {
        Some(i) => (fixed.subrange(0, i), fixed.subrange(i + 1, fixed.len() as int)),
        None => (fixed, seq!['0']),
    };
    (if neg { seq!['-'] } else { Seq::empty() }) + grouped(whole, byte_len(whole), whole.len() as int) + seq![','] + frac + seq!['$']
}

pub fn money_text(neg: bool, fixed: &str) -> (r: String)
    ensures
        r@ == money_spec(neg, fixed@),
{
    let n = fixed.unicode_len();
    let mut i: usize = 0;
    while i < n && fixed.get_char(i) != '.'
        invariant
            i <= n,
            n == fixed@.len(),
            forall|k: int| 0 <= k < i ==> fixed@[k] != '.',
        decreases n - i,
    {
        i = i + 1;
    }
    let whole = fixed.substring_char(0, i);
    let mut out = String::new();
    if neg {
        push_char(&mut out, '-');
    }
    let g = group_thousands(whole);
    out.append(g.as_str());
    push_char(&mut out, ',');
    if i < n {
        let frac = fixed.substring_char(i + 1, n);
        out.append(frac);
    } else {
        push_char(&mut out, '0');
    }
    push_char(&mut out, '$');
    proof {
        let s = fixed@;
        if i < n {
            assert(s[i as int] == '.');
            let c = choose|c: int| 0 <= c < s.len() && s[c] == '.' && forall|k: int| 0 <= k < c ==> s[k] != '.';
            assert(c == i) by {
                if c < i {
                    assert(s[c] != '.');
                }
                if c > i {
                    assert(s[i as int] != '.');
                }
            }
        } else {
            assert(whole@ =~= s);
        }
        assert(out@ =~= money_spec(neg, fixed@));
    }
    out
}

/// Kind of a market by its listing byte: 1 spot, 2 futures, 3 both, else unknown.
pub open spec fn kind_word(listed: u8) -> Seq<char> {
    if listed == 1 { "spot"@ } else if listed == 2 { "fut"@ } else if listed == 3 { "both"@ } else { "?"@ }
}

/// The market category shown for an asset: its kind, a middle dot, its quote.
pub fn kind_label(listed: u8, quote: &str) -> (r: String)
    ensures
        r@ == kind_word(listed) + seq!['·'] + quote@,
{
    let mut s = String::from_str(
        if listed == 1 { "spot" } else if listed == 2 { "fut" } else if listed == 3 { "both" } else { "?" },
    );
    push_char(&mut s, '·');
    s.append(quote);
    s
}

/// Redraw signature of the cores in view: fold of `acc * 31 + assets_rev`, then
/// `* 31 + transfer_rev`, modulo 2^64.
pub open spec fn assets_sig_of(revs: Seq<(u64, u64)>) -> u64
    decreases revs.len(),
{
    if revs.len() == 0 {
        0
    } else {
        let a = assets_sig_of(revs.drop_last());
        let b = ((a * 31 + revs.last().0) % 0x1_0000_0000_0000_0000) as u64;
        ((b * 31 + revs.last().1) % 0x1_0000_0000_0000_0000) as u64
    }
}

fn step31(a: u64, r: u64) -> (x: u64)
    ensures
        x == ((a * 31 + r) % 0x1_0000_0000_0000_0000) as u64,
{
    let m = a.wrapping_mul(31);
    let x = m.wrapping_add(r);
    proof {
        assert(m == (a * 31) % 0x1_0000_0000_0000_0000);
        assert((((a * 31) % 0x1_0000_0000_0000_0000) + r) % 0x1_0000_0000_0000_0000
            == (a * 31 + r) % 0x1_0000_0000_0000_0000) by (nonlinear_arith);
    }
    x
}

pub fn assets_sig(revs: &Vec<(u64, u64)>) -> (sig: u64)
    ensures
        sig == assets_sig_of(revs@),
{
    let mut a: u64 = 0;
    let mut i: usize = 0;
    proof {
        assert(revs@.subrange(0, 0) =~= Seq::<(u64, u64)>::empty());
    }
    while i < revs.len()
        invariant
            i <= revs@.len(),
            a == assets_sig_of(revs@.subrange(0, i as int)),
        decreases revs@.len() - i,
    {
        proof {
            let sub = revs@.subrange(0, i + 1);
            assert(sub.drop_last() =~= revs@.subrange(0, i as int));
        }
        let b = step31(a, revs[i].0);
        a = step31(b, revs[i].1);
        i = i + 1;
    }
    proof {
        assert(revs@.subrange(0, revs@.len() as int) =~= revs@);
    }
    a
}

pub open spec fn listed(cores: Seq<(CoreId, String)>, c: CoreId) -> bool {
    exists|i: int| 0 <= i < cores.len() && (#[trigger] cores[i]).0 == c
}

pub open spec fn first_core(cores: Seq<(CoreId, String)>) -> Option<CoreId> {
    if cores.len() > 0 { Some(cores[0].0) } else { None }
}

/// The core whose wallets show: the chosen one while it is in view, else the first core
/// in view (none when there is none). The flag says the choice had to change.
pub fn pick_selected_core(selected: Option<CoreId>, cores: &Vec<(CoreId, String)>) -> (r: (Option<CoreId>, bool))
    ensures
        r == (match selected {
            Some(c) => if listed(cores@, c) { (selected, false) } else { (first_core(cores@), true) },
            None => (first_core(cores@), true),
        }),
{
    if let Some(c) = selected {
        let mut i: usize = 0;
        while i < cores.len()
            invariant
                i <= cores@.len(),
                selected == Some(c),
                forall|k: int| 0 <= k < i ==> cores@[k].0 != c,
            decreases cores@.len() - i,
        {
            if cores[i].0 == c {
                assert(cores@[i as int].0 == c);
                return (selected, false);
            }
            i = i + 1;
        }
    }
    let first = if cores.len() > 0 { Some(cores[0].0) } else { None };
    (first, true)
}

/// The label names the market kind by its listing byte: "spot" for 1, "fut" for 2,
/// "both" for 3, "?" for any other byte, then a middle dot and the quote.
pub proof fn law_kind_label_words(listed: u8, quote: Seq<char>, r: Seq<char>)
    requires
        r == kind_word(listed) + seq!['·'] + quote,
    ensures
        listed == 1 ==> r == "spot"@ + seq!['·'] + quote,
        listed == 2 ==> r == "fut"@ + seq!['·'] + quote,
        listed == 3 ==> r == "both"@ + seq!['·'] + quote,
        listed == 0 || listed > 3 ==> r == "?"@ + seq!['·'] + quote,
{
}

} // verus!
