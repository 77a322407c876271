//! Decimal formatting: a number rendered as decimal digits, and hundredths
//! of hours rendered as `H.FFh`.

use vstd::prelude::*;

verus! {

/// The digit character for `d`, which must lie below 10.
pub open spec fn digit_char(d: int) -> char {
    ((48 + d) as u8) as char
}

/// The decimal digits of `n`, most significant first, without leading
/// zeros (`0` itself is the single digit `0`).
pub open spec fn dec_str(n: nat) -> Seq<char>
    decreases n,
{
    if n < 10 {
        seq![digit_char(n as int)]
    } else {
        dec_str(n / 10).push(digit_char((n % 10) as int))
    }
}

/// Hundredths of hours as `H.FFh`: the whole hours, a dot, exactly two
/// fraction digits, and the unit letter.
pub open spec fn hours_label(centi: nat) -> Seq<char> {
    dec_str(centi / 100) + seq![
        '.',
        digit_char(((centi / 10) % 10) as int),
        digit_char((centi % 10) as int),
        'h',
    ]
}

/// Relies on `String::push`: appends one character.
#[verifier::external_body]
fn push_char(s: &mut String, c: char)
    ensures
        final(s)@ == old(s)@.push(c),
{
    s.push(c);
}

/// The decimal representation of `n`.
pub fn u64_to_dec(n: u64) -> (r: String)
    ensures
        r@ == dec_str(n as nat),
{
    let mut digits: Vec<char> = Vec::new();
    let mut cur: u64 = n;
    if cur == 0 {
        let mut s = String::new();
        push_char(&mut s, '0');
        proof {
            assert(s@ =~= dec_str(0));
        }
        return s;
    }
    while cur > 0
        invariant
            cur > 0 ==> dec_str(n as nat) =~= dec_str(cur as nat) + digits@.reverse(),
            cur == 0 ==> dec_str(n as nat) =~= digits@.reverse(),
            cur == 0 ==> digits@.len() > 0,
        decreases cur,
    {
        let ghost cur0 = cur as nat;
        let ghost d0 = digits@;
        let d: u64 = cur % 10;
        digits.push((48 + d as u8) as char);
        cur = cur / 10;
        proof {
            assert(digits@ =~= d0.push(digit_char(d as int)));
            assert(digits@.reverse() =~= seq![digit_char(d as int)] + d0.reverse());
            if cur0 >= 10 {
                assert(dec_str(cur0) == dec_str(cur0 / 10).push(digit_char((cur0 % 10) as int)));
                assert(dec_str(cur0) =~= dec_str(cur as nat) + seq![digit_char(d as int)]);
                assert(dec_str(cur as nat) + digits@.reverse() =~= (dec_str(cur as nat) + seq![
                    digit_char(d as int),
                ]) + d0.reverse());
            } else {
                assert(cur == 0);
                assert(dec_str(cur0) =~= seq![digit_char(d as int)]);
            }
        }
    }
    let mut s = String::new();
    let len: usize = digits.len();
    let mut i: usize = 0;
    while i < len
        invariant
            0 <= i <= len,
            len == digits@.len(),
            dec_str(n as nat) =~= digits@.reverse(),
            s@ =~= digits@.reverse().take(i as int),
        decreases len - i,
    {
        push_char(&mut s, digits[len - 1 - i]);
        proof {
            assert(digits@.reverse()[i as int] == digits@[len - 1 - i]);
            assert(s@ =~= digits@.reverse().take(i + 1));
        }
        i = i + 1;
    }
    proof {
        assert(digits@.reverse().take(len as int) =~= digits@.reverse());
    }
    s
}

/// A number padded to at least two digits with a leading zero.
pub open spec fn padded2(n: nat) -> Seq<char> {
    if n < 10 {
        seq!['0'] + dec_str(n)
    } else {
        dec_str(n)
    }
}

/// A duration in seconds as `HH:MM:SS`, every part zero-padded to two
/// digits and the hours growing beyond two digits when needed.
pub open spec fn duration_label(secs: nat) -> Seq<char> {
    padded2(secs / 3600) + seq![':'] + padded2((secs / 60) % 60) + seq![':'] + padded2(secs % 60)
}

/// Renders a duration in seconds as `HH:MM:SS`.
pub fn format_duration(secs: u64) -> (r: String)
    ensures
        r@ == duration_label(secs as nat),
{
    let mut s = String::new();
    let hours: u64 = secs / 3600;
    if hours < 10 {
        push_char(&mut s, '0');
    }
    let hs = u64_to_dec(hours);
    s.append(hs.as_str());
    push_char(&mut s, ':');
    let minutes: u64 = (secs / 60) % 60;
    if minutes < 10 {
        push_char(&mut s, '0');
    }
    let ms = u64_to_dec(minutes);
    s.append(ms.as_str());
    push_char(&mut s, ':');
    let seconds: u64 = secs % 60;
    if seconds < 10 {
        push_char(&mut s, '0');
    }
    let ss = u64_to_dec(seconds);
    s.append(ss.as_str());
    proof {
        assert(s@ =~= duration_label(secs as nat));
    }
    s
}

/// Renders hundredths of hours as `H.FFh`.
pub fn format_centi_hours(centi: u64) -> (r: String)
    ensures
        r@ == hours_label(centi as nat),
{
    let mut s = u64_to_dec(centi / 100);
    push_char(&mut s, '.');
    push_char(&mut s, (48 + ((centi / 10) % 10) as u8) as char);
    push_char(&mut s, (48 + (centi % 10) as u8) as char);
    push_char(&mut s, 'h');
    proof {
        assert(s@ =~= hours_label(centi as nat));
    }
    s
}

} // verus!
