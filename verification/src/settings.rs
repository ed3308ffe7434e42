//! Edits of the configuration draft in the settings window: log retention, adding and
//! removing servers, and the decimal text of numbers.

use vstd::prelude::*;
use crate::text::push_char;
use crate::firetest::{parse_u64_spec, decimal, digit, is_digit, all_digits, strip_plus};

verus! {

/// Longest log retention, in days.
pub const MAX_RETENTION_DAYS: i64 = 365;

/// `days` as the 32-bit signed value it reads as (values past `i32::MAX` wrap).
pub open spec fn as_i32(days: u32) -> int {
    if days <= i32::MAX { days as int } else { days - 0x1_0000_0000 }
}

/// The retention after a step of `delta` days, kept within 0..=365.
pub open spec fn retention_after(days: u32, delta: i32) -> u32 {
    let v = as_i32(days) + delta;
    if v < 0 { 0 } else if v > MAX_RETENTION_DAYS { MAX_RETENTION_DAYS as u32 } else { v as u32 }
}

pub fn adjust_retention(days: u32, delta: i32) -> (r: u32)
    requires
        i32::MIN <= as_i32(days) + delta <= i32::MAX,
    ensures
        r == retention_after(days, delta),
{
    let w: i64 = if days <= i32::MAX as u32 { days as i64 } else { days as i64 - 0x1_0000_0000 };
    let v: i64 = w + delta as i64;
    if v < 0 {
        0
    } else if v > MAX_RETENTION_DAYS {
        MAX_RETENTION_DAYS as u32
    } else {
        v as u32
    }
}

/// The retention stays within 0..=365 whatever the step.
pub proof fn law_retention_in_range(days: u32, delta: i32)
    ensures
        retention_after(days, delta) <= 365,
{
}

/// The decimal digits of `n`, most significant first, without leading zeros.
pub open spec fn dec_digits(n: nat) -> Seq<char>
    decreases n,
{
    if n < 10 {
        seq![digit_char(n)]
    } else {
        dec_digits(n / 10).push(digit_char(n % 10))
    }
}

pub open spec fn digit_char(d: nat) -> char {
    if d == 0 { '0' } else if d == 1 { '1' } else if d == 2 { '2' } else if d == 3 { '3' }
    else if d == 4 { '4' } else if d == 5 { '5' } else if d == 6 { '6' } else if d == 7 { '7' }
    else if d == 8 { '8' } else { '9' }
}

fn digit_of(d: u64) -> (c: char)
    requires
        d < 10,
    ensures
        c == digit_char(d as nat),
{
    if d == 0 { '0' } else if d == 1 { '1' } else if d == 2 { '2' } else if d == 3 { '3' }
    else if d == 4 { '4' } else if d == 5 { '5' } else if d == 6 { '6' } else if d == 7 { '7' }
    else if d == 8 { '8' } else { '9' }
}

fn push_decimal(n: u64, out: &mut String)
    ensures
        final(out)@ == old(out)@ + dec_digits(n as nat),
    decreases n,
{
    if n >= 10 {
        push_decimal(n / 10, out);
    }
    let ghost mid = out@;
    push_char(out, digit_of(n % 10));
    proof {
        if n >= 10 {
            assert(out@ =~= old(out)@ + dec_digits(n as nat));
        } else {
            assert(old(out)@ + dec_digits(n as nat) =~= old(out)@.push(digit_char(n as nat)));
        }
    }
}

/// The decimal text of `n`, as `to_string` writes it.
pub fn decimal_text(n: u64) -> (s: String)
    ensures
        s@ == dec_digits(n as nat),
{
    let mut s = String::new();
    push_decimal(n, &mut s);
    proof {
        assert(Seq::<char>::empty() + dec_digits(n as nat) =~= dec_digits(n as nat));
    }
    s
}

proof fn lemma_dec_digits(n: nat)
    ensures
        dec_digits(n).len() >= 1,
        all_digits(dec_digits(n)),
        decimal(dec_digits(n)) == n,
        is_digit(dec_digits(n)[0]),
    decreases n,
{
    let c = digit_char(n % 10);
    assert(is_digit(c) && digit(c) == n % 10);
    if n < 10 {
        let s = seq![c];
        assert(s.drop_last() =~= Seq::<char>::empty());
        assert(decimal(s) == decimal(s.drop_last()) * 10 + digit(s.last()));
    } else {
        lemma_dec_digits(n / 10);
        let d = dec_digits(n / 10);
        let s = d.push(c);
        assert(s.drop_last() =~= d);
        assert(s[0] == d[0]);
        assert forall|i: int| 0 <= i < s.len() implies is_digit(#[trigger] s[i]) by {
            if i < d.len() {
                assert(s[i] == d[i]);
            }
        }
    }
}

/// Reading back the decimal text of a number gives the number.
pub proof fn law_decimal_text_reads_back(n: u64)
    ensures
        parse_u64_spec(dec_digits(n as nat)) == Some(n),
{
    lemma_dec_digits(n as nat);
    let s = dec_digits(n as nat);
    assert(s[0] != '+');
    assert(strip_plus(s) == s);
}

/// The id a new server gets: one above the largest id (1 when there is none).
pub open spec fn max_id(ids: Seq<u64>) -> nat
    decreases ids.len(),
{
    if ids.len() == 0 {
        0
    } else {
        let m = max_id(ids.drop_last());
        if ids.last() > m { ids.last() as nat } else { m }
    }
}

pub fn next_server_id(ids: &Vec<u64>) -> (r: u64)
    requires
        max_id(ids@) < u64::MAX,
    ensures
        r == max_id(ids@) + 1,
{
    let mut m: u64 = 0;
    let mut i: usize = 0;
    proof {
        assert(ids@.subrange(0, 0) =~= Seq::<u64>::empty());
    }
    while i < ids.len()
        invariant
            i <= ids@.len(),
            m == max_id(ids@.subrange(0, i as int)),
        decreases ids@.len() - i,
    {
        proof {
            let sub = ids@.subrange(0, i + 1);
            assert(sub.drop_last() =~= ids@.subrange(0, i as int));
        }
        if ids[i] > m {
            m = ids[i];
        }
        i = i + 1;
    }
    proof {
        assert(ids@.subrange(0, ids@.len() as int) =~= ids@);
    }
    m + 1
}

/// A new server of the draft: the next id, named "server <id>", active and shown, in
/// the group "default", on BTCUSDT, not synthetic (key, feeds and colour take their
/// defaults from the caller).
pub struct NewServer {
    pub id: u64,
    pub name: String,
    pub active: bool,
    pub show_window: bool,
    pub group: String,
    pub market: String,
    pub synthetic: bool,
}

pub fn new_server(ids: &Vec<u64>) -> (s: NewServer)
    requires
        max_id(ids@) < u64::MAX,
    ensures
        s.id == max_id(ids@) + 1,
        s.name@ == "server "@ + dec_digits(s.id as nat),
        s.active && s.show_window && !s.synthetic,
        s.group@ == "default"@,
        s.market@ == "BTCUSDT"@,
{
    let id = next_server_id(ids);
    let mut name = String::from_str("server ");
    let digits = decimal_text(id);
    name.append(digits.as_str());
    NewServer {
        id,
        name,
        active: true,
        show_window: true,
        group: String::from_str("default"),
        market: String::from_str("BTCUSDT"),
        synthetic: false,
    }
}

/// Remove entry `i` of the draft's servers (nothing happens past the end).
pub fn delete_server<T>(servers: &mut Vec<T>, i: usize)
    ensures
        i < old(servers)@.len() ==> final(servers)@ == old(servers)@.remove(i as int),
        i >= old(servers)@.len() ==> final(servers)@ == old(servers)@,
{
    if i < servers.len() {
        servers.remove(i);
    }
}

} // verus!
