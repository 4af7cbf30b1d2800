use vstd::prelude::*;

verus! {

/// Relies on `String::push_str`: the characters of `string` are appended to `s`.
pub assume_specification[ String::push_str ](s: &mut String, string: &str)
    ensures
        final(s)@ == old(s)@ + string@,
;

/// Whether `a` and `b` hold the same characters.
pub fn str_eq(a: &str, b: &str) -> (r: bool)
    ensures
        r == (a@ == b@),
{
    let n = a.unicode_len();
    if n != b.unicode_len() {
        return false;
    }
    let mut i: usize = 0;
    while i < n
        invariant
            n == a@.len(),
            n == b@.len(),
            i <= n,
            forall|j: int| 0 <= j < i ==> a@[j] == b@[j],
        decreases n - i,
    {
        if a.get_char(i) != b.get_char(i) {
            return false;
        }
        i += 1;
    }
    assert(a@ =~= b@);
    true
}

/// Relies on `String::push`: `ch` is appended to `s`.
pub assume_specification[ String::push ](s: &mut String, ch: char)
    ensures
        final(s)@ == old(s)@.push(ch),
;

/// The decimal digit for `d`.
pub open spec fn digit_char(d: int) -> char {
    if d == 0 { '0' }
    else if d == 1 { '1' }
    else if d == 2 { '2' }
    else if d == 3 { '3' }
    else if d == 4 { '4' }
    else if d == 5 { '5' }
    else if d == 6 { '6' }
    else if d == 7 { '7' }
    else if d == 8 { '8' }
    else { '9' }
}

/// The decimal digits of `n`, without leading zeros.
pub open spec fn digits(n: nat) -> Seq<char>
    decreases n,
{
    if n < 10 {
        seq![digit_char(n as int)]
    } else {
        digits(n / 10).push(digit_char((n % 10) as int))
    }
}

/// `i` written in decimal, with a leading `-` when negative.
pub open spec fn decimal(i: int) -> Seq<char> {
    if i < 0 {
        seq!['-'] + digits((-i) as nat)
    } else {
        digits(i as nat)
    }
}

fn digit_of(d: u64) -> (c: char)
    requires
        d < 10,
    ensures
        c == digit_char(d as int),
{
    if d == 0 { '0' }
    else if d == 1 { '1' }
    else if d == 2 { '2' }
    else if d == 3 { '3' }
    else if d == 4 { '4' }
    else if d == 5 { '5' }
    else if d == 6 { '6' }
    else if d == 7 { '7' }
    else if d == 8 { '8' }
    else { '9' }
}

/// Writes `i` in decimal.
pub fn decimal_text(i: i64) -> (r: String)
    ensures
        r@ == decimal(i as int),
{
    let neg = i < 0;
    let mag: u64 = if neg {
        (-(i as i128)) as u64
    } else {
        i as u64
    };
    // Digits from the least significant one.
    let mut rev: Vec<char> = Vec::new();
    let mut n: u64 = mag;
    loop
        invariant_except_break
            digits(mag as nat) == digits(n as nat) + rev@.reverse(),
        ensures
            digits(mag as nat) == rev@.reverse(),
        decreases n,
    {
        let c = digit_of(n % 10);
        let ghost before = rev@;
        rev.push(c);
        proof {
            assert(rev@.reverse() =~= seq![c] + before.reverse());
        }
        if n < 10 {
            assert(digits(mag as nat) =~= rev@.reverse());
            break;
        }
        proof {
            assert(digits(n as nat) == digits((n / 10) as nat).push(c));
        }
        n = n / 10;
        assert(digits(mag as nat) =~= digits(n as nat) + rev@.reverse());
    }
    let mut r = String::new();
    if neg {
        r.push('-');
    }
    let ghost head = r@;
    let mut k: usize = rev.len();
    while k > 0
        invariant
            k <= rev@.len(),
            r@ == head + rev@.subrange(k as int, rev@.len() as int).reverse(),
        decreases k,
    {
        k -= 1;
        let ghost prev = r@;
        r.push(rev[k]);
        assert(rev@.subrange(k as int, rev@.len() as int).reverse() =~= rev@.subrange(
            k + 1,
            rev@.len() as int,
        ).reverse().push(rev@[k as int]));
    }
    assert(rev@.subrange(0, rev@.len() as int) =~= rev@);
    assert(r@ =~= decimal(i as int));
    r
}

} // verus!
