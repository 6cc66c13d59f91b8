use vstd::prelude::*;

verus! {

/// The character of a decimal digit.
pub open spec fn digit_char(d: nat) -> char {
    if d == 0 {
        '0'
    } else if d == 1 {
        '1'
    } else if d == 2 {
        '2'
    } else if d == 3 {
        '3'
    } else if d == 4 {
        '4'
    } else if d == 5 {
        '5'
    } else if d == 6 {
        '6'
    } else if d == 7 {
        '7'
    } else if d == 8 {
        '8'
    } else {
        '9'
    }
}

/// `n` written in decimal, without leading zeros.
pub open spec fn decimal(n: nat) -> Seq<char>
    decreases n,
{
    if n < 10 {
        seq![digit_char(n)]
    } else {
        decimal(n / 10).push(digit_char(n % 10))
    }
}

/// An amount of cents written as units, a point, and two digits of cents.
pub open spec fn money_text(cents: nat) -> Seq<char> {
    decimal(cents / 100) + seq!['.', digit_char((cents % 100) / 10), digit_char(cents % 10)]
}

/// A signed amount of cents: a `-` before a negative one.
pub open spec fn signed_money_text(cents: int) -> Seq<char> {
    if cents < 0 {
        seq!['-'] + money_text((-cents) as nat)
    } else {
        money_text(cents as nat)
    }
}

/// Joins `parts` with `sep` between consecutive ones.
pub open spec fn joined(parts: Seq<Seq<char>>, sep: char) -> Seq<char>
    decreases parts.len(),
{
    if parts.len() == 0 {
        Seq::empty()
    } else if parts.len() == 1 {
        parts[0]
    } else {
        joined(parts.drop_last(), sep).push(sep) + parts.last()
    }
}

/// The text of one decimal digit.
fn digit_str(d: u8) -> (r: &'static str)
    requires
        d < 10,
    ensures
        r@ == seq![digit_char(d as nat)],
{
    if d == 0 {
        proof { reveal_strlit("0"); }
        "0"
    } else if d == 1 {
        proof { reveal_strlit("1"); }
        "1"
    } else if d == 2 {
        proof { reveal_strlit("2"); }
        "2"
    } else if d == 3 {
        proof { reveal_strlit("3"); }
        "3"
    } else if d == 4 {
        proof { reveal_strlit("4"); }
        "4"
    } else if d == 5 {
        proof { reveal_strlit("5"); }
        "5"
    } else if d == 6 {
        proof { reveal_strlit("6"); }
        "6"
    } else if d == 7 {
        proof { reveal_strlit("7"); }
        "7"
    } else if d == 8 {
        proof { reveal_strlit("8"); }
        "8"
    } else {
        proof { reveal_strlit("9"); }
        "9"
    }
}

/// Appends `n` in decimal.
pub fn push_decimal(out: &mut String, n: u128)
    ensures
        final(out)@ == old(out)@ + decimal(n as nat),
    decreases n,
{
    if n >= 10 {
        push_decimal(out, n / 10);
    }
    out.append(digit_str((n % 10) as u8));
    assert(out@ =~= old(out)@ + decimal(n as nat));
}

/// Appends an amount of cents as units, a point, and two digits of cents.
pub fn push_money(out: &mut String, cents: u128)
    ensures
        final(out)@ == old(out)@ + money_text(cents as nat),
{
    push_decimal(out, cents / 100);
    push_char(out, '.');
    out.append(digit_str(((cents % 100) / 10) as u8));
    out.append(digit_str((cents % 10) as u8));
    assert(out@ =~= old(out)@ + money_text(cents as nat));
}

/// Appends a signed amount of cents.
pub fn push_signed_money(out: &mut String, cents: i64)
    ensures
        final(out)@ == old(out)@ + signed_money_text(cents as int),
{
    if cents < 0 {
        push_char(out, '-');
        let magnitude = (-(cents as i128)) as u128;
        push_money(out, magnitude);
    } else {
        push_money(out, cents as u128);
    }
    assert(out@ =~= old(out)@ + signed_money_text(cents as int));
}

/// Appends one of the separators that serialized text uses: `,`, `_`, `.`,
/// `-` or a line break.
pub fn push_char(out: &mut String, c: char)
    requires
        c == ',' || c == '_' || c == '.' || c == '-' || c == '\n',
    ensures
        final(out)@ == old(out)@.push(c),
{
    if c == ',' {
        proof { reveal_strlit(","); }
        out.append(",");
    } else if c == '_' {
        proof { reveal_strlit("_"); }
        out.append("_");
    } else if c == '.' {
        proof { reveal_strlit("."); }
        out.append(".");
    } else if c == '-' {
        proof { reveal_strlit("-"); }
        out.append("-");
    } else {
        proof { reveal_strlit("\n"); }
        out.append("\n");
    }
    assert(out@ =~= old(out)@.push(c));
}

} // verus!

verus! {

/// Whether `c` is a decimal digit.
pub open spec fn is_digit(c: char) -> bool {
    '0' <= c <= '9'
}

/// The value of a run of decimal digits, most significant first.
pub open spec fn digits_value(s: Seq<char>) -> nat
    decreases s.len(),
{
    if s.len() == 0 {
        0
    } else {
        digits_value(s.drop_last()) * 10 + (s.last() as u32 - '0' as u32) as nat
    }
}

/// The number that `s` writes as an unsigned integer: an optional `+`,
/// then one or more decimal digits and nothing else.
pub open spec fn unsigned_value(s: Seq<char>) -> Option<nat> {
    if all_digits(unsigned_body(s)) {
        Some(digits_value(unsigned_body(s)))
    } else {
        None
    }
}

/// `s` without its leading `+`, if it has one.
pub open spec fn unsigned_body(s: Seq<char>) -> Seq<char> {
    if s.len() > 0 && s[0] == '+' {
        s.subrange(1, s.len() as int)
    } else {
        s
    }
}

/// Whether `s` is one or more decimal digits.
pub open spec fn all_digits(s: Seq<char>) -> bool {
    s.len() > 0 && forall|i: int| 0 <= i < s.len() ==> is_digit(#[trigger] s[i])
}

proof fn lemma_digits_value_grows(s: Seq<char>, k: int)
    requires
        0 <= k <= s.len(),
    ensures
        digits_value(s.subrange(0, k)) <= digits_value(s),
    decreases s.len(),
{
    if k < s.len() {
        assert(s.drop_last().subrange(0, k) =~= s.subrange(0, k));
        lemma_digits_value_grows(s.drop_last(), k);
    } else {
        assert(s.subrange(0, k) =~= s);
    }
}

/// The characters of `s`, in order.
pub fn chars_of(s: &str) -> (r: Vec<char>)
    ensures
        r@ == s@,
{
    let n = s.unicode_len();
    let mut r: Vec<char> = Vec::new();
    let mut i: usize = 0;
    while i < n
        invariant
            n == s@.len(),
            i <= n,
            r@ == s@.subrange(0, i as int),
        decreases n - i,
    {
        r.push(s.get_char(i));
        i = i + 1;
        assert(r@ =~= s@.subrange(0, i as int));
    }
    r
}

/// Reads the characters `lo..hi` of `s` as an unsigned integer no greater
/// than `max`, written as `unsigned_value` describes; `None` for any other
/// text or a larger value.
pub fn parse_unsigned_chars(s: &Vec<char>, lo: usize, hi: usize, max: u128) -> (r: Option<u128>)
    requires
        lo <= hi <= s@.len(),
    ensures
        r matches Some(v) ==> unsigned_value(s@.subrange(lo as int, hi as int)) == Some(v as nat)
            && v <= max,
        r is None ==> unsigned_value(s@.subrange(lo as int, hi as int)) is None || unsigned_value(
            s@.subrange(lo as int, hi as int),
        )->Some_0 > max,
{
    let ghost text = s@.subrange(lo as int, hi as int);
    let mut i: usize = lo;
    if lo < hi && s[lo] == '+' {
        i = lo + 1;
    }
    let start = i;
    let ghost body = unsigned_body(text);
    assert(body =~= s@.subrange(start as int, hi as int));
    if start == hi {
        return None;
    }
    let mut v: u128 = 0;
    while i < hi
        invariant
            hi <= s@.len(),
            start <= i <= hi,
            start < hi,
            text == s@.subrange(lo as int, hi as int),
            body == s@.subrange(start as int, hi as int),
            body == unsigned_body(text),
            forall|k: int| start <= k < i ==> is_digit(#[trigger] s@[k]),
            v as nat == digits_value(s@.subrange(start as int, i as int)),
            v <= max,
        decreases hi - i,
    {
        let c = s[i];
        let ghost prefix = s@.subrange(start as int, i + 1);
        assert(prefix.drop_last() =~= s@.subrange(start as int, i as int));
        if c < '0' || c > '9' {
            assert(body[i - start] == c);
            assert(!is_digit(body[i - start]));
            assert(!all_digits(body));
            return None;
        }
        let d = (c as u32 - '0' as u32) as u128;
        let next = match v.checked_mul(10) {
            Some(t) => t.checked_add(d),
            None => None,
        };
        assert(digits_value(prefix) == v * 10 + d);
        let fits = match next {
            Some(t) => t <= max,
            None => false,
        };
        if !fits {
            proof {
                assert(digits_value(prefix) > max);
                if unsigned_value(text) is Some {
                    assert(unsigned_value(text)->Some_0 == digits_value(body));
                }
                assert(body.subrange(0, i + 1 - start) =~= prefix);
                lemma_digits_value_grows(body, i + 1 - start);
            }
            return None;
        }
        v = match next {
            Some(t) => t,
            None => v,
        };
        i = i + 1;
    }
    assert(s@.subrange(start as int, hi as int) =~= body);
    Some(v)
}

/// Whether the characters `lo..lo + pat.len()` of `s` are `pat`.
pub fn matches_at(s: &Vec<char>, lo: usize, pat: &Vec<char>) -> (r: bool)
    requires
        lo + pat@.len() <= s@.len(),
    ensures
        r == (s@.subrange(lo as int, lo + pat@.len()) == pat@),
{
    let n = s.len();
    let mut k: usize = 0;
    while k < pat.len()
        invariant
            n == s@.len(),
            lo + pat@.len() <= s@.len(),
            k <= pat@.len(),
            forall|j: int| 0 <= j < k ==> s@[lo + j] == pat@[j],
        decreases pat@.len() - k,
    {
        if s[lo + k] != pat[k] {
            assert(s@.subrange(lo as int, lo + pat@.len())[k as int] != pat@[k as int]);
            return false;
        }
        k = k + 1;
    }
    assert(s@.subrange(lo as int, lo + pat@.len()) =~= pat@);
    true
}

} // verus!
