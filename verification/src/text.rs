//! Character-level helpers shared by the parsers, the rule matcher and the
//! message builders.

use vstd::prelude::*;

verus! {

/// Collects the characters of a string slice, in order.
pub fn chars_of(s: &str) -> (r: Vec<char>)
    ensures
        r@ == s@,
{
    let mut r: Vec<char> = Vec::new();
    for c in it: s.chars()
        invariant
            it.seq() == s@,
            r@ == it.seq().take(it.index() as int),
    {
        r.push(c);
    }
    r
}

/// Appends `c` with `String::push`, which vstd leaves unspecified.  Believed, not
/// proved: the characters afterwards are the former ones followed by `c`.
#[verifier::external_body]
pub(crate) fn push_char(s: &mut String, c: char)
    ensures
        final(s)@ == old(s)@.push(c),
{
    s.push(c);
}

/// The string made of the given characters.
pub fn string_of(cs: &[char]) -> (r: String)
    ensures
        r@ == cs@,
{
    let mut r = String::new();
    let mut i: usize = 0;
    while i < cs.len()
        invariant
            i <= cs@.len(),
            r@ == cs@.take(i as int),
        decreases cs@.len() - i,
    {
        push_char(&mut r, cs[i]);
        assert(cs@.take(i + 1) =~= cs@.take(i as int).push(cs@[i as int]));
        i += 1;
    }
    assert(cs@.take(cs@.len() as int) =~= cs@);
    r
}

/// `a` followed by `b`.
pub fn concat(a: &str, b: &str) -> (r: String)
    ensures
        r@ == a@ + b@,
{
    let mut r = a.to_owned();
    let cs = chars_of(b);
    let mut i: usize = 0;
    while i < cs.len()
        invariant
            cs@ == b@,
            i <= cs@.len(),
            r@ == a@ + cs@.take(i as int),
        decreases cs@.len() - i,
    {
        push_char(&mut r, cs[i]);
        assert(a@ + cs@.take(i + 1) =~= (a@ + cs@.take(i as int)).push(cs@[i as int]));
        i += 1;
    }
    assert(cs@.take(cs@.len() as int) =~= cs@);
    r
}

/// `a`, `b` and `c` in a row.
pub fn concat3(a: &str, b: &str, c: &str) -> (r: String)
    ensures
        r@ == a@ + b@ + c@,
{
    let ab = concat(a, b);
    concat(ab.as_str(), c)
}

/// The decimal digit character of `d`.
pub open spec fn digit_char(d: int) -> char {
    (48 + d) as char
}

/// The decimal notation of `n`, without sign or leading zeros.
pub open spec fn decimal(n: nat) -> Seq<char>
    decreases n,
{
    if n < 10 {
        seq![digit_char(n as int)]
    } else {
        decimal(n / 10).push(digit_char((n % 10) as int))
    }
}

/// The decimal notation of `n` (as `u64::to_string`).
pub fn decimal_string(n: u64) -> (r: String)
    ensures
        r@ == decimal(n as nat),
    decreases n,
{
    let d = (n % 10) as u8;
    let c = (48u8 + d) as char;
    if n < 10 {
        let mut r = String::new();
        push_char(&mut r, c);
        r
    } else {
        let mut r = decimal_string(n / 10);
        push_char(&mut r, c);
        r
    }
}

/// `c` is an ASCII decimal digit.
pub open spec fn is_digit(c: char) -> bool {
    '0' <= c <= '9'
}

/// The value of a run of decimal digits.
pub open spec fn digits_value(s: Seq<char>) -> int
    decreases s.len(),
{
    if s.len() == 0 {
        0
    } else {
        digits_value(s.drop_last()) * 10 + (s.last() as int - 48)
    }
}

/// Every character of `s` is an ASCII decimal digit.
pub open spec fn all_digits(s: Seq<char>) -> bool {
    forall|i: int| 0 <= i < s.len() ==> is_digit(#[trigger] s[i])
}

/// One or more ASCII digits whose value fits in 64 bits, and that value.
pub open spec fn digits_number(body: Seq<char>) -> Option<u64> {
    if body.len() > 0 && all_digits(body) && digits_value(body) <= u64::MAX {
        Some(digits_value(body) as u64)
    } else {
        None
    }
}

/// What `str::parse::<u64>` gives: an optional `+`, then one or more ASCII digits
/// whose value fits in 64 bits.
pub open spec fn parsed_u64(s: Seq<char>) -> Option<u64> {
    digits_number(if s.len() > 0 && s[0] == '+' { s.drop_first() } else { s })
}

/// What `str::parse::<u32>` gives.
pub open spec fn parsed_u32(s: Seq<char>) -> Option<u32> {
    match parsed_u64(s) {
        Some(v) => if v <= u32::MAX { Some(v as u32) } else { None },
        None => None,
    }
}

/// The value a signed decimal denotes: an optional `+` or `-`, then one or more
/// ASCII digits.
pub open spec fn signed_value(s: Seq<char>) -> Option<int> {
    if s.len() > 0 && s[0] == '-' {
        match digits_number(s.drop_first()) {
            Some(v) => Some(-(v as int)),
            None => None,
        }
    } else {
        match parsed_u64(s) {
            Some(v) => Some(v as int),
            None => None,
        }
    }
}

/// What `str::parse::<i64>` gives.
pub open spec fn parsed_i64(s: Seq<char>) -> Option<i64> {
    match signed_value(s) {
        Some(v) => if i64::MIN <= v <= i64::MAX { Some(v as i64) } else { None },
        None => None,
    }
}

/// What `str::parse::<i32>` gives.
pub open spec fn parsed_i32(s: Seq<char>) -> Option<i32> {
    match signed_value(s) {
        Some(v) => if i32::MIN <= v <= i32::MAX { Some(v as i32) } else { None },
        None => None,
    }
}

proof fn lemma_digits_value_monotone(s: Seq<char>, k: int)
    requires
        0 <= k <= s.len(),
        forall|i: int| 0 <= i < s.len() ==> is_digit(#[trigger] s[i]),
    ensures
        0 <= digits_value(s.take(k)) <= digits_value(s),
    decreases s.len() - k,
{
    if k < s.len() {
        lemma_digits_value_monotone(s, k + 1);
        let t = s.take(k + 1);
        assert(t.drop_last() =~= s.take(k));
        assert(t.last() == s[k]);
        assert(is_digit(s[k]));
    } else {
        assert(s.take(k) =~= s);
    }
    assert(digits_value(s.take(k)) >= 0) by {
        lemma_digits_nonnegative(s.take(k));
    }
}

proof fn lemma_digits_nonnegative(s: Seq<char>)
    requires
        forall|i: int| 0 <= i < s.len() ==> is_digit(#[trigger] s[i]),
    ensures
        digits_value(s) >= 0,
    decreases s.len(),
{
    if s.len() > 0 {
        assert(is_digit(s[s.len() - 1]));
        lemma_digits_nonnegative(s.drop_last());
    }
}

proof fn lemma_decimal_digits(n: nat)
    ensures
        all_digits(decimal(n)),
        decimal(n).len() > 0,
        decimal(n)[0] != '+',
        digits_value(decimal(n)) == n,
    decreases n,
{
    if n >= 10 {
        lemma_decimal_digits(n / 10);
        let d = decimal(n);
        assert(d.drop_last() =~= decimal(n / 10));
        assert(d[0] == decimal(n / 10)[0]);
        assert(d.last() == digit_char((n % 10) as int));
        assert(digit_char((n % 10) as int) as int == 48 + n % 10);
        assert(digits_value(d) == digits_value(decimal(n / 10)) * 10 + (n % 10));
        assert((n / 10) * 10 + n % 10 == n);
    } else {
        assert(digit_char(n as int) as int == 48 + n);
        let d = decimal(n);
        assert(d.drop_last() =~= Seq::<char>::empty());
        assert(digits_value(Seq::<char>::empty()) == 0);
        assert(digits_value(d) == digits_value(d.drop_last()) * 10 + (d.last() as int - 48));
    }
}

/// Reading back the decimal notation of a number gives the number.
pub proof fn lemma_parse_decimal(n: u64)
    ensures
        parsed_u64(decimal(n as nat)) == Some(n),
{
    lemma_decimal_digits(n as nat);
}

/// Reads the digits of `cs` from `start` on as one decimal number.
fn parse_digits(cs: &Vec<char>, start: usize) -> (r: Option<u64>)
    requires
        start <= cs@.len(),
    ensures
        r == digits_number(cs@.skip(start as int)),
{
    let ghost body = cs@.skip(start as int);
    if start >= cs.len() {
        return None;
    }
    let mut value: u64 = 0;
    let mut i: usize = start;
    while i < cs.len()
        invariant
            start <= i <= cs@.len(),
            body == cs@.skip(start as int),
            forall|t: int| 0 <= t < i - start ==> is_digit(#[trigger] body[t]),
            value == digits_value(body.take(i - start)),
        decreases cs@.len() - i,
    {
        let c = cs[i];
        assert(body[i - start] == c);
        if !('0' <= c && c <= '9') {
            assert(!is_digit(body[i - start]));
            assert(!all_digits(body));
            return None;
        }
        let d = (c as u32 - 48) as u64;
        assert(body.take(i - start + 1).drop_last() =~= body.take(i - start));
        assert(body.take(i - start + 1).last() == c);
        match value.checked_mul(10) {
            None => {
                proof {
                    if all_digits(body) {
                        lemma_digits_value_monotone(body, i - start + 1);
                        lemma_digits_nonnegative(body.take(i - start));
                    }
                }
                return None;
            },
            Some(scaled) => match scaled.checked_add(d) {
                None => {
                    proof {
                        if all_digits(body) {
                            lemma_digits_value_monotone(body, i - start + 1);
                            assert(digits_value(body.take(i - start + 1)) == value * 10 + (c as int
                                - 48));
                            assert(digits_value(body) > u64::MAX);
                        }
                    }
                    return None;
                },
                Some(next) => {
                    value = next;
                },
            },
        }
        i += 1;
    }
    assert(body.take(body.len() as int) =~= body);
    Some(value)
}

/// Parses an unsigned 64-bit decimal number as `str::parse::<u64>` does.
pub fn parse_u64(s: &str) -> (r: Option<u64>)
    ensures
        r == parsed_u64(s@),
{
    let cs = chars_of(s);
    let start: usize = if cs.len() > 0 && cs[0] == '+' { 1 } else { 0 };
    assert(cs@.skip(start as int) =~= (if s@.len() > 0 && s@[0] == '+' {
        s@.drop_first()
    } else {
        s@
    }));
    parse_digits(&cs, start)
}

/// Parses an unsigned 32-bit decimal number as `str::parse::<u32>` does.
pub fn parse_u32(s: &str) -> (r: Option<u32>)
    ensures
        r == parsed_u32(s@),
{
    match parse_u64(s) {
        Some(v) => if v <= 0xffff_ffff {
            Some(v as u32)
        } else {
            None
        },
        None => None,
    }
}

/// The sign and magnitude of a signed decimal number.
fn parse_signed(s: &str) -> (r: Option<(bool, u64)>)
    ensures
        match r {
            Some((negative, magnitude)) => signed_value(s@) == Some(
                if negative { -(magnitude as int) } else { magnitude as int },
            ),
            None => signed_value(s@) is None,
        },
{
    let cs = chars_of(s);
    if cs.len() > 0 && cs[0] == '-' {
        assert(cs@.skip(1) =~= s@.drop_first());
        match parse_digits(&cs, 1) {
            Some(v) => Some((true, v)),
            None => None,
        }
    } else {
        match parse_u64(s) {
            Some(v) => Some((false, v)),
            None => None,
        }
    }
}

/// Parses a signed 64-bit decimal number as `str::parse::<i64>` does.
pub fn parse_i64(s: &str) -> (r: Option<i64>)
    ensures
        r == parsed_i64(s@),
{
    match parse_signed(s) {
        Some((true, m)) => if m <= 0x8000_0000_0000_0000 {
            if m == 0x8000_0000_0000_0000 {
                Some(i64::MIN)
            } else {
                Some(-(m as i64))
            }
        } else {
            None
        },
        Some((false, m)) => if m <= 0x7fff_ffff_ffff_ffff {
            Some(m as i64)
        } else {
            None
        },
        None => None,
    }
}

/// Parses a signed 32-bit decimal number as `str::parse::<i32>` does.
pub fn parse_i32(s: &str) -> (r: Option<i32>)
    ensures
        r == parsed_i32(s@),
{
    match parse_signed(s) {
        Some((true, m)) => if m <= 0x8000_0000 {
            Some((-(m as i64)) as i32)
        } else {
            None
        },
        Some((false, m)) => if m <= 0x7fff_ffff {
            Some(m as i32)
        } else {
            None
        },
        None => None,
    }
}

/// `a` comes no later than `b` in lexical (code point) order.
pub open spec fn lex_le(a: Seq<char>, b: Seq<char>) -> bool
    decreases a.len(),
{
    if a.len() == 0 {
        true
    } else if b.len() == 0 {
        false
    } else if a[0] != b[0] {
        a[0] < b[0]
    } else {
        lex_le(a.drop_first(), b.drop_first())
    }
}

pub proof fn lemma_lex_total(a: Seq<char>, b: Seq<char>)
    ensures
        lex_le(a, b) || lex_le(b, a),
    decreases a.len(),
{
    if a.len() > 0 && b.len() > 0 && a[0] == b[0] {
        lemma_lex_total(a.drop_first(), b.drop_first());
    }
}

pub proof fn lemma_lex_transitive(a: Seq<char>, b: Seq<char>, c: Seq<char>)
    requires
        lex_le(a, b),
        lex_le(b, c),
    ensures
        lex_le(a, c),
    decreases a.len(),
{
    if a.len() > 0 && b.len() > 0 && c.len() > 0 && a[0] == b[0] && b[0] == c[0] {
        lemma_lex_transitive(a.drop_first(), b.drop_first(), c.drop_first());
    }
}

pub fn lex_le_exec(a: &Vec<char>, b: &Vec<char>) -> (r: bool)
    ensures
        r == lex_le(a@, b@),
{
    let mut i: usize = 0;
    assert(a@.skip(0) =~= a@ && b@.skip(0) =~= b@);
    loop
        invariant
            i <= a@.len(),
            i <= b@.len(),
            lex_le(a@, b@) == lex_le(a@.skip(i as int), b@.skip(i as int)),
        decreases a@.len() - i,
    {
        if i == a.len() {
            return true;
        }
        if i == b.len() {
            return false;
        }
        if a[i] != b[i] {
            return a[i] < b[i];
        }
        assert(a@.skip(i as int).drop_first() =~= a@.skip(i + 1));
        assert(b@.skip(i as int).drop_first() =~= b@.skip(i + 1));
        i += 1;
    }
}

/// `a` comes strictly before `b` in lexical order.
pub open spec fn lex_lt(a: Seq<char>, b: Seq<char>) -> bool {
    lex_le(a, b) && a != b
}

pub proof fn lemma_lex_antisymmetric(a: Seq<char>, b: Seq<char>)
    requires
        lex_le(a, b),
        lex_le(b, a),
    ensures
        a == b,
    decreases a.len(),
{
    if a.len() > 0 && b.len() > 0 {
        lemma_lex_antisymmetric(a.drop_first(), b.drop_first());
        assert(a =~= seq![a[0]] + a.drop_first());
        assert(b =~= seq![b[0]] + b.drop_first());
    } else if a.len() == 0 && b.len() == 0 {
        assert(a =~= b);
    }
}

} // verus!
