//! Character-level utilities shared by the table codec and the pruners:
//! conversions between `String` and `Vec<char>`, and exact decimal
//! formatting and parsing for the integer columns of the attribute table.

use vstd::prelude::*;

verus! {

/// Relies on str::chars: yields exactly the characters of the string's
/// view, in order.
#[verifier::external_body]
pub fn to_chars(s: &str) -> (v: Vec<char>)
    ensures
        v@ == s@,
{
    s.chars().collect()
}

/// Relies on String::from_iter over chars: builds the string whose view
/// is exactly the given character sequence.
#[verifier::external_body]
pub fn from_chars(v: &Vec<char>) -> (s: String)
    ensures
        s@ == v@,
{
    v.iter().collect()
}

/// True when `list` holds a string whose characters equal `s`.
pub fn string_list_contains(list: &Vec<String>, s: &String) -> (r: bool)
    ensures
        r <==> list.deep_view().contains(s@),
{
    let mut i: usize = 0;
    while i < list.len()
        invariant
            0 <= i <= list.len(),
            forall|j: int| 0 <= j < i ==> list@[j]@ != s@,
        decreases list.len() - i,
    {
        if list[i].eq(s) {
            assert(list.deep_view()[i as int] == list@[i as int]@);
            assert(list.deep_view().contains(s@));
            return true;
        }
        i = i + 1;
    }
    assert(forall|j: int|
        0 <= j < list@.len() ==> #[trigger] list.deep_view()[j] == list@[j]@);
    assert(!list.deep_view().contains(s@));
    false
}

// ---------------------------------------------------------------------
// Decimal formatting
// ---------------------------------------------------------------------

pub open spec fn dec_digit_char(d: nat) -> char {
    if d == 0 {
        '0'
    } else if d == 1 {
        '1'
    } else if d == 2 {
        '2'
    } else if d == 3 {
        '3'
    } else if d == 4 {
        '4'
    } else if d == 5 {
        '5'
    } else if d == 6 {
        '6'
    } else if d == 7 {
        '7'
    } else if d == 8 {
        '8'
    } else {
        '9'
    }
}

/// Value of a digit character; 10 marks a character that is no digit.
pub open spec fn digit_val(c: char) -> nat {
    if c == '0' {
        0
    } else if c == '1' {
        1
    } else if c == '2' {
        2
    } else if c == '3' {
        3
    } else if c == '4' {
        4
    } else if c == '5' {
        5
    } else if c == '6' {
        6
    } else if c == '7' {
        7
    } else if c == '8' {
        8
    } else if c == '9' {
        9
    } else {
        10
    }
}

pub open spec fn is_digit(c: char) -> bool {
    digit_val(c) < 10
}

/// Decimal rendering of a natural number, most significant digit first.
pub open spec fn u64_dec_str(n: nat) -> Seq<char>
    decreases n,
{
    if n < 10 {
        seq![dec_digit_char(n)]
    } else {
        u64_dec_str(n / 10).push(dec_digit_char(n % 10))
    }
}

/// Decimal rendering of an integer, with a leading minus sign when negative.
pub open spec fn i64_dec_str(n: int) -> Seq<char> {
    if n < 0 {
        seq!['-'] + u64_dec_str((-n) as nat)
    } else {
        u64_dec_str(n as nat)
    }
}

/// Value of a digit string read most significant digit first.
pub open spec fn dec_val(s: Seq<char>) -> nat
    decreases s.len(),
{
    if s.len() == 0 {
        0
    } else {
        dec_val(s.drop_last()) * 10 + digit_val(s.last())
    }
}

pub open spec fn all_digits(s: Seq<char>) -> bool {
    forall|i: int| 0 <= i < s.len() ==> is_digit(#[trigger] s[i])
}

/// A nonempty all-digit string parses to its decimal value.
pub open spec fn parse_dec(s: Seq<char>) -> Option<nat> {
    if s.len() > 0 && all_digits(s) {
        Some(dec_val(s))
    } else {
        None
    }
}

pub open spec fn parse_u32_spec(s: Seq<char>) -> Option<u32> {
    match parse_dec(s) {
        Some(v) => if v <= u32::MAX { Some(v as u32) } else { None },
        None => None,
    }
}

pub open spec fn parse_i64_spec(s: Seq<char>) -> Option<i64> {
    if s.len() > 0 && s[0] == '-' {
        match parse_dec(s.skip(1)) {
            Some(v) => if v <= 0x8000_0000_0000_0000 { Some((-(v as int)) as i64) } else { None },
            None => None,
        }
    } else {
        match parse_dec(s) {
            Some(v) => if v <= i64::MAX { Some(v as i64) } else { None },
            None => None,
        }
    }
}

fn digit_char(d: u64) -> (c: char)
    requires
        d < 10,
    ensures
        c == dec_digit_char(d as nat),
{
    match d {
        0 => '0',
        1 => '1',
        2 => '2',
        3 => '3',
        4 => '4',
        5 => '5',
        6 => '6',
        7 => '7',
        8 => '8',
        _ => '9',
    }
}

fn digit_val_exec(c: char) -> (d: u64)
    ensures
        d as nat == digit_val(c),
{
    match c {
        '0' => 0,
        '1' => 1,
        '2' => 2,
        '3' => 3,
        '4' => 4,
        '5' => 5,
        '6' => 6,
        '7' => 7,
        '8' => 8,
        '9' => 9,
        _ => 10,
    }
}

fn push_u64_dec(n: u64, out: &mut Vec<char>)
    ensures
        final(out)@ == old(out)@ + u64_dec_str(n as nat),
    decreases n,
{
    if n < 10 {
        out.push(digit_char(n));
    } else {
        push_u64_dec(n / 10, out);
        out.push(digit_char(n % 10));
    }
}

pub fn u64_to_dec(n: u64) -> (v: Vec<char>)
    ensures
        v@ == u64_dec_str(n as nat),
{
    let mut v: Vec<char> = Vec::new();
    push_u64_dec(n, &mut v);
    assert(v@ =~= u64_dec_str(n as nat));
    v
}

pub fn i64_to_dec(n: i64) -> (v: Vec<char>)
    ensures
        v@ == i64_dec_str(n as int),
{
    let mut v: Vec<char> = Vec::new();
    if n < 0 {
        v.push('-');
        let m: u64 = if n == i64::MIN {
            0x8000_0000_0000_0000u64
        } else {
            (-n) as u64
        };
        assert(m as nat == (-(n as int)) as nat);
        push_u64_dec(m, &mut v);
        assert(v@ =~= i64_dec_str(n as int));
    } else {
        push_u64_dec(n as u64, &mut v);
        assert(v@ =~= i64_dec_str(n as int));
    }
    v
}

proof fn lemma_dec_val_monotone(s: Seq<char>, k: int)
    requires
        0 <= k <= s.len(),
    ensures
        dec_val(s.take(k)) <= dec_val(s),
    decreases s.len() - k,
{
    if k < s.len() {
        lemma_dec_val_monotone(s, k + 1);
        assert(s.take(k + 1).drop_last() =~= s.take(k));
        assert(s.take(k + 1).last() == s[k]);
        assert(dec_val(s.take(k)) <= dec_val(s.take(k + 1)));
    } else {
        assert(s.take(k) =~= s);
    }
}

/// Parse the digits of `v` from `start` on; `None` when a character is no
/// digit, the run is empty, or the value exceeds `limit`.
fn parse_dec_bounded(v: &Vec<char>, start: usize, limit: u64) -> (r: Option<u64>)
    requires
        start <= v.len(),
    ensures
        match r {
            Some(x) => parse_dec(v@.skip(start as int)) == Some(x as nat) && x <= limit,
            None => parse_dec(v@.skip(start as int)) is None || dec_val(v@.skip(start as int))
                > limit,
        },
{
    let ghost s = v@.skip(start as int);
    if start == v.len() {
        assert(s.len() == 0);
        return None;
    }
    let mut acc: u64 = 0;
    let mut i: usize = start;
    while i < v.len()
        invariant
            start <= i <= v.len(),
            start < v.len(),
            s == v@.skip(start as int),
            acc <= limit,
            acc as nat == dec_val(s.take(i - start)),
            all_digits(s.take(i - start)),
        decreases v.len() - i,
    {
        let d = digit_val_exec(v[i]);
        assert(s[i - start] == v@[i as int]);
        if d >= 10 {
            assert(!is_digit(s[i - start]));
            assert(!all_digits(s));
            return None;
        }
        let next: u128 = (acc as u128) * 10 + (d as u128);
        assert(s.take(i - start + 1).drop_last() =~= s.take(i - start));
        assert(s.take(i - start + 1).last() == s[i - start]);
        assert(next as nat == dec_val(s.take(i - start + 1)));
        if next > limit as u128 {
            proof {
                lemma_dec_val_monotone(s, i - start + 1);
            }
            return None;
        }
        acc = next as u64;
        assert(all_digits(s.take(i - start + 1)));
        i = i + 1;
    }
    assert(s.take(i - start) =~= s);
    Some(acc)
}

pub fn parse_u32_chars(v: &Vec<char>) -> (r: Option<u32>)
    ensures
        r == parse_u32_spec(v@),
{
    let ghost s = v@;
    assert(v@.skip(0) =~= s);
    match parse_dec_bounded(v, 0, u32::MAX as u64) {
        Some(x) => Some(x as u32),
        None => None,
    }
}

pub fn parse_i64_chars(v: &Vec<char>) -> (r: Option<i64>)
    ensures
        r == parse_i64_spec(v@),
{
    if v.len() > 0 && v[0] == '-' {
        assert(v@.skip(1) == v@.skip(1));
        match parse_dec_bounded(v, 1, 0x8000_0000_0000_0000u64) {
            Some(x) => {
                let r: i64 = if x == 0x8000_0000_0000_0000u64 {
                    i64::MIN
                } else {
                    -(x as i64)
                };
                assert(r as int == -(x as int));
                Some(r)
            },
            None => None,
        }
    } else {
        let ghost s = v@;
        assert(v@.skip(0) =~= s);
        match parse_dec_bounded(v, 0, i64::MAX as u64) {
            Some(x) => Some(x as i64),
            None => None,
        }
    }
}

// ---------------------------------------------------------------------
// Facts about the decimal codec
// ---------------------------------------------------------------------

/// A rendered natural number is a nonempty digit string that parses back
/// to the same value.
pub proof fn lemma_u64_dec_str_props(n: nat)
    ensures
        u64_dec_str(n).len() >= 1,
        all_digits(u64_dec_str(n)),
        dec_val(u64_dec_str(n)) == n,
    decreases n,
{
    if n < 10 {
        let s = u64_dec_str(n);
        assert(s =~= seq![dec_digit_char(n)]);
        assert(s.drop_last() =~= Seq::<char>::empty());
        assert(s.last() == dec_digit_char(n));
        assert(dec_val(s.drop_last()) == 0);
        assert(dec_val(s) == dec_val(s.drop_last()) * 10 + digit_val(s.last()));
        assert(dec_val(s) == digit_val(dec_digit_char(n)));
    } else {
        lemma_u64_dec_str_props(n / 10);
        let a = u64_dec_str(n / 10);
        let s = u64_dec_str(n);
        assert(s == a.push(dec_digit_char(n % 10)));
        assert(s.drop_last() =~= a);
        assert(s.last() == dec_digit_char(n % 10));
        assert(dec_val(s) == dec_val(a) * 10 + digit_val(dec_digit_char(n % 10)));
        assert(forall|i: int|
            0 <= i < s.len() ==> #[trigger] s[i] == if i < a.len() {
                a[i]
            } else {
                dec_digit_char(n % 10)
            });
    }
}

/// Two different values never render to the same digit string.
pub proof fn lemma_u64_dec_str_injective(a: nat, b: nat)
    requires
        u64_dec_str(a) == u64_dec_str(b),
    ensures
        a == b,
{
    lemma_u64_dec_str_props(a);
    lemma_u64_dec_str_props(b);
}

/// Parsing inverts rendering for the unsigned column values.
pub proof fn lemma_parse_u32_of_dec(n: u32)
    ensures
        parse_u32_spec(u64_dec_str(n as nat)) == Some(n),
{
    lemma_u64_dec_str_props(n as nat);
}

/// Parsing inverts rendering for the signed column values.
pub proof fn lemma_parse_i64_of_dec(n: i64)
    ensures
        parse_i64_spec(i64_dec_str(n as int)) == Some(n),
{
    if n < 0 {
        let m = (-(n as int)) as nat;
        lemma_u64_dec_str_props(m);
        let s = i64_dec_str(n as int);
        assert(s == seq!['-'] + u64_dec_str(m));
        assert(s[0] == '-');
        assert(s.skip(1) =~= u64_dec_str(m));
        assert(m <= 0x8000_0000_0000_0000);
    } else {
        lemma_u64_dec_str_props(n as nat);
        let s = u64_dec_str(n as nat);
        assert(is_digit(s[0]));
        assert(digit_val('-') == 10);
        assert(s[0] != '-');
    }
}

} // verus!
