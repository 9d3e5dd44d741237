//! Decimal numbers in text: reading them as `str::parse::<u32>` and
//! `str::parse::<i32>` do, and writing them as `to_string` and the
//! zero-padded `{:02}` / `{:04}` formats do.
use vstd::prelude::*;

verus! {

/// An ASCII decimal digit.
pub open spec fn is_digit(c: char) -> bool {
    48 <= c as u32 <= 57
}

/// The value of an ASCII decimal digit.
pub open spec fn digit_value(c: char) -> int {
    c as u32 - 48
}

/// Every character is an ASCII decimal digit.
pub open spec fn all_digits(s: Seq<char>) -> bool {
    forall|i: int| 0 <= i < s.len() ==> is_digit(#[trigger] s[i])
}

/// The number the digits spell, most significant first.
pub open spec fn digits_value(s: Seq<char>) -> int
    decreases s.len(),
{
    if s.len() == 0 {
        0
    } else {
        digits_value(s.drop_last()) * 10 + digit_value(s.last())
    }
}

/// The digits after an optional leading `+`.
pub open spec fn unsigned_body(s: Seq<char>) -> Seq<char> {
    if s.len() > 0 && s[0] == '+' {
        s.drop_first()
    } else {
        s
    }
}

/// What `str::parse::<u32>` gives: an optional `+`, then at least one
/// ASCII digit and nothing else, of value at most `u32::MAX`.
pub open spec fn parsed_u32(s: Seq<char>) -> Option<u32> {
    let body = unsigned_body(s);
    if body.len() > 0 && all_digits(body) && digits_value(body) <= u32::MAX {
        Some(digits_value(body) as u32)
    } else {
        None
    }
}

/// What `str::parse::<i32>` gives: an optional `+` or `-`, then at least
/// one ASCII digit and nothing else, of value in the range of `i32`.
pub open spec fn parsed_i32(s: Seq<char>) -> Option<i32> {
    if s.len() > 0 && s[0] == '-' {
        let body = s.drop_first();
        if body.len() > 0 && all_digits(body) && digits_value(body) <= 0x8000_0000 {
            Some((-digits_value(body)) as i32)
        } else {
            None
        }
    } else {
        let body = unsigned_body(s);
        if body.len() > 0 && all_digits(body) && digits_value(body) <= i32::MAX {
            Some(digits_value(body) as i32)
        } else {
            None
        }
    }
}

/// Reads the digits `s[from..]`: their value when it is at most `limit`,
/// `None` when a character is no digit or the value exceeds `limit`.
fn digits_up_to(s: &Vec<char>, from: usize, limit: u64) -> (res: Option<u64>)
    requires
        from <= s.len(),
        limit <= 0x1_0000_0000,
    ensures
        ({
            let body = s@.skip(from as int);
            match res {
                Some(v) => all_digits(body) && digits_value(body) <= limit && v == digits_value(
                    body,
                ),
                None => !(all_digits(body) && digits_value(body) <= limit),
            }
        }),
{
    let ghost body = s@.skip(from as int);
    let mut acc: u64 = 0;
    let mut over = false;
    let mut i = from;
    assert(s@.subrange(from as int, from as int) =~= Seq::<char>::empty());
    while i < s.len()
        invariant
            from <= i <= s.len(),
            limit <= 0x1_0000_0000,
            all_digits(s@.subrange(from as int, i as int)),
            !over ==> acc == digits_value(s@.subrange(from as int, i as int)) && acc <= limit,
            over ==> digits_value(s@.subrange(from as int, i as int)) > limit,
        decreases s.len() - i,
    {
        let c = s[i];
        let n = c as u32;
        if n < 48 || n > 57 {
            assert(s@.skip(from as int)[i - from] == c);
            assert(!is_digit(c));
            return None;
        }
        let ghost prev = s@.subrange(from as int, i as int);
        let ghost next = s@.subrange(from as int, i + 1);
        assert(next.drop_last() =~= prev);
        assert(next.last() == c);
        assert(all_digits(next)) by {
            assert forall|k: int| 0 <= k < next.len() implies is_digit(#[trigger] next[k]) by {
                if k < prev.len() {
                    assert(next[k] == prev[k]);
                }
            }
        }
        if !over {
            let d = (n - 48) as u64;
            let m = acc * 10 + d;
            if m > limit {
                over = true;
            } else {
                acc = m;
            }
        }
        i = i + 1;
    }
    assert(s@.subrange(from as int, s.len() as int) =~= body);
    if over {
        None
    } else {
        Some(acc)
    }
}

/// Reads an unsigned decimal number (`str::parse::<u32>`).
pub fn parse_u32_chars(s: &Vec<char>) -> (res: Option<u32>)
    ensures
        res == parsed_u32(s@),
{
    let from: usize = if s.len() > 0 && s[0] == '+' {
        1
    } else {
        0
    };
    assert(s@.skip(from as int) =~= unsigned_body(s@));
    if from == s.len() {
        return None;
    }
    match digits_up_to(s, from, 0xFFFF_FFFF) {
        Some(v) => Some(v as u32),
        None => None,
    }
}

/// Reads a signed decimal number (`str::parse::<i32>`).
pub fn parse_i32_chars(s: &Vec<char>) -> (res: Option<i32>)
    ensures
        res == parsed_i32(s@),
{
    if s.len() > 0 && s[0] == '-' {
        assert(s@.skip(1) =~= s@.drop_first());
        if s.len() == 1 {
            return None;
        }
        match digits_up_to(s, 1, 0x8000_0000) {
            Some(v) => {
                let r: i64 = 0 - (v as i64);
                Some(r as i32)
            },
            None => None,
        }
    } else {
        let from: usize = if s.len() > 0 && s[0] == '+' {
            1
        } else {
            0
        };
        assert(s@.skip(from as int) =~= unsigned_body(s@));
        if from == s.len() {
            return None;
        }
        match digits_up_to(s, from, 0x7FFF_FFFF) {
            Some(v) => Some(v as i32),
            None => None,
        }
    }
}

/// The character of a decimal digit value.
pub open spec fn digit_char(d: int) -> char {
    (d + 48) as char
}

/// The decimal digits of `n`, as `to_string` writes them.
pub open spec fn decimal(n: nat) -> Seq<char>
    decreases n,
{
    if n < 10 {
        seq![digit_char(n as int)]
    } else {
        decimal(n / 10).push(digit_char((n % 10) as int))
    }
}

/// `k` zeros (none when `k` is not positive).
pub open spec fn zeros(k: int) -> Seq<char> {
    Seq::new(if k > 0 {
        k as nat
    } else {
        0
    }, |i: int| '0')
}

/// `n` written with at least `width` digits, zeros in front (`{:0width}`).
pub open spec fn padded(n: nat, width: int) -> Seq<char> {
    zeros(width - decimal(n).len()) + decimal(n)
}

/// A signed `n` written `{:0width}`: a `-` for a negative number, then zeros
/// up to `width` characters in all, then the digits of its magnitude.
pub open spec fn padded_signed(n: int, width: int) -> Seq<char> {
    if n < 0 {
        seq!['-'] + zeros(width - 1 - decimal((-n) as nat).len()) + decimal((-n) as nat)
    } else {
        padded(n as nat, width)
    }
}

fn digit_char_exec(d: u32) -> (c: char)
    requires
        d < 10,
    ensures
        c == digit_char(d as int),
{
    ((d + 48) as u8) as char
}

/// The decimal digits of `n`.
pub fn decimal_chars(n: u32) -> (res: Vec<char>)
    ensures
        res@ == decimal(n as nat),
    decreases n,
{
    if n < 10 {
        let mut v: Vec<char> = Vec::new();
        v.push(digit_char_exec(n));
        assert(v@ =~= seq![digit_char(n as int)]);
        v
    } else {
        let mut v = decimal_chars(n / 10);
        v.push(digit_char_exec(n % 10));
        v
    }
}

/// `n` written with at least `width` digits.
pub fn padded_chars(n: u32, width: usize) -> (res: Vec<char>)
    ensures
        res@ == padded(n as nat, width as int),
{
    let digits = decimal_chars(n);
    let mut res: Vec<char> = Vec::new();
    let mut k: usize = digits.len();
    while k < width
        invariant
            digits@ == decimal(n as nat),
            digits.len() <= k <= width || width < digits.len() && k == digits.len(),
            res@ == zeros(k - digits.len()),
        decreases width - k,
    {
        res.push('0');
        k = k + 1;
        assert(res@ =~= zeros(k - digits.len()));
    }
    assert(res@ =~= zeros(width - digits.len()));
    let mut i: usize = 0;
    let ghost z = res@;
    while i < digits.len()
        invariant
            i <= digits.len(),
            res@ == z + digits@.take(i as int),
        decreases digits.len() - i,
    {
        res.push(digits[i]);
        i = i + 1;
        assert(res@ =~= z + digits@.take(i as int));
    }
    assert(digits@.take(digits.len() as int) =~= digits@);
    res
}

/// A signed `n` written `{:0width}`.
pub fn padded_signed_chars(n: i32, width: usize) -> (res: Vec<char>)
    requires
        width >= 1,
    ensures
        res@ == padded_signed(n as int, width as int),
{
    if n < 0 {
        let m: u32 = (0 - (n as i64)) as u32;
        let digits = padded_chars(m, width - 1);
        let mut res: Vec<char> = Vec::new();
        res.push('-');
        let mut i: usize = 0;
        while i < digits.len()
            invariant
                i <= digits.len(),
                res@ == seq!['-'] + digits@.take(i as int),
            decreases digits.len() - i,
        {
            res.push(digits[i]);
            i = i + 1;
            assert(res@ =~= seq!['-'] + digits@.take(i as int));
        }
        assert(digits@.take(digits.len() as int) =~= digits@);
        assert(res@ =~= seq!['-'] + zeros(width - 1 - decimal(m as nat).len()) + decimal(
            m as nat,
        ));
        res
    } else {
        padded_chars(n as u32, width)
    }
}

proof fn lemma_decimal(n: nat)
    ensures
        decimal(n).len() >= 1,
        all_digits(decimal(n)),
        digits_value(decimal(n)) == n,
    decreases n,
{
    let d = decimal(n);
    if n >= 10 {
        lemma_decimal(n / 10);
        assert(d.drop_last() =~= decimal(n / 10));
        assert(digit_value(digit_char((n % 10) as int)) == n % 10);
        assert((n / 10) * 10 + n % 10 == n);
        assert(d.last() == digit_char((n % 10) as int));
        assert(digits_value(d) == digits_value(d.drop_last()) * 10 + digit_value(d.last()));
        assert(digits_value(d) == (n / 10) * 10 + n % 10);
        assert forall|i: int| 0 <= i < d.len() implies is_digit(#[trigger] d[i]) by {
            if i < d.len() - 1 {
                assert(d[i] == decimal(n / 10)[i]);
            }
        }
    } else {
        assert(d.drop_last() =~= Seq::<char>::empty());
        assert(digit_value(digit_char(n as int)) == n);
        assert(digits_value(d) == digits_value(d.drop_last()) * 10 + digit_value(d.last()));
        assert(digits_value(d) == n);
    }
}

proof fn lemma_zeros_value(k: int)
    ensures
        all_digits(zeros(k)),
        digits_value(zeros(k)) == 0,
    decreases k,
{
    if k > 0 {
        lemma_zeros_value(k - 1);
        assert(zeros(k).drop_last() =~= zeros(k - 1));
    }
}

proof fn lemma_leading_zeros(k: int, s: Seq<char>)
    requires
        all_digits(s),
    ensures
        all_digits(zeros(k) + s),
        digits_value(zeros(k) + s) == digits_value(s),
    decreases s.len(),
{
    lemma_zeros_value(k);
    let z = zeros(k) + s;
    assert forall|i: int| 0 <= i < z.len() implies is_digit(#[trigger] z[i]) by {
        if i >= zeros(k).len() {
            assert(z[i] == s[i - zeros(k).len()]);
        } else {
            assert(z[i] == zeros(k)[i]);
        }
    }
    if s.len() == 0 {
        assert(z =~= zeros(k));
    } else {
        lemma_leading_zeros(k, s.drop_last());
        assert(z.drop_last() =~= zeros(k) + s.drop_last());
    }
}

/// Reading back a number written with at least `width` digits gives the
/// number again.
pub proof fn law_padded_reads_back(n: u32, width: int)
    ensures
        parsed_u32(padded(n as nat, width)) == Some(n),
        parsed_i32(padded(n as nat, width)) == if n <= i32::MAX {
            Some(n as i32)
        } else {
            None::<i32>
        },
{
    lemma_decimal(n as nat);
    lemma_leading_zeros(width - decimal(n as nat).len(), decimal(n as nat));
    let p = padded(n as nat, width);
    assert(is_digit(p[0]));
    assert(unsigned_body(p) == p);
}

/// Reading back a signed number written `{:0width}` gives the number again.
pub proof fn law_padded_signed_reads_back(n: i32, width: int)
    ensures
        parsed_i32(padded_signed(n as int, width)) == Some(n),
{
    if n < 0 {
        let m = (-n) as nat;
        lemma_decimal(m);
        lemma_leading_zeros(width - 1 - decimal(m).len(), decimal(m));
        let p = padded_signed(n as int, width);
        assert(p.drop_first() =~= zeros(width - 1 - decimal(m).len()) + decimal(m));
    } else {
        law_padded_reads_back(n as u32, width);
    }
}

/// A number written with at least `width` digits is all digits.
pub proof fn lemma_padded_digits(n: nat, width: int)
    ensures
        all_digits(padded(n, width)),
        padded(n, width).len() >= 1,
{
    lemma_decimal(n);
    lemma_leading_zeros(width - decimal(n).len(), decimal(n));
}

/// A signed number written `{:0width}` is digits after an optional `-`.
pub proof fn lemma_padded_signed_digits(n: int, width: int)
    ensures
        forall|i: int|
            0 <= i < padded_signed(n, width).len() ==> is_digit(#[trigger] padded_signed(n, width)[i])
                || padded_signed(n, width)[i] == '-',
{
    if n < 0 {
        let m = (-n) as nat;
        lemma_padded_digits(m, width - 1);
        let body = zeros(width - 1 - decimal(m).len()) + decimal(m);
        assert(padded(m, width - 1) == body);
        let p = padded_signed(n, width);
        assert forall|i: int| 0 <= i < p.len() implies is_digit(#[trigger] p[i]) || p[i] == '-' by {
            if i > 0 {
                assert(p[i] == body[i - 1]);
            }
        }
    } else {
        lemma_padded_digits(n as nat, width);
    }
}

} // verus!
