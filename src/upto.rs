use vstd::prelude::*;

use crate::text::{is_white_space, text_of, trim_chars, trim_end, trim_start, trimmed};

verus! {

/// A cap on how much of a file a viewer should read.
#[derive(Debug, Clone, Copy, PartialEq, Eq, Structural)]
pub enum UptoUnit {
    Tokens(usize),
    Characters(usize),
    Lines(usize),
}

/// Why a read-limit text was rejected.
#[derive(Debug, Clone, PartialEq, Eq)]
pub enum UptoError {
    /// Nothing but white space was given.
    InvalidFormat,
    /// The part before the unit is not a non-negative integer; holds that part.
    InvalidNumber(String),
    /// The last character is not one of `t`, `c`, `l`; holds it.
    InvalidUnit(char),
}

/// What an [`UptoError`] says, with its texts as character sequences.
pub ghost enum UptoFault {
    Format,
    Number(Seq<char>),
    Unit(char),
}

impl View for UptoError {
    type V = UptoFault;

    open spec fn view(&self) -> UptoFault {
        match self {
            UptoError::InvalidFormat => UptoFault::Format,
            UptoError::InvalidNumber(t) => UptoFault::Number(t@),
            UptoError::InvalidUnit(u) => UptoFault::Unit(*u),
        }
    }
}

pub open spec fn is_digit(c: char) -> bool {
    '0' <= c && c <= '9'
}

pub open spec fn digit_value(c: char) -> nat {
    (c as u32 - '0' as u32) as nat
}

pub open spec fn digit_char(d: nat) -> char {
    ('0' as u32 + d) as char
}

pub open spec fn all_digits(s: Seq<char>) -> bool {
    forall|i: int| 0 <= i < s.len() ==> is_digit(#[trigger] s[i])
}

/// The number that the decimal digits `s` write.
pub open spec fn digits_value(s: Seq<char>) -> nat
    decreases s.len(),
{
    if s.len() == 0 {
        0
    } else {
        digits_value(s.drop_last()) * 10 + digit_value(s.last())
    }
}

/// The decimal digits of `n`, without leading zeros.
pub open spec fn decimal(n: nat) -> Seq<char>
    decreases n,
{
    if n < 10 {
        seq![digit_char(n)]
    } else {
        decimal(n / 10).push(digit_char(n % 10))
    }
}

/// The value of `s` read as a `usize` the way `usize::from_str` reads it: an
/// optional `+`, then at least one decimal digit, within range.
pub open spec fn unsigned_of(s: Seq<char>) -> Option<usize> {
    let d = if s.len() > 0 && s[0] == '+' {
        s.drop_first()
    } else {
        s
    };
    if d.len() > 0 && all_digits(d) && digits_value(d) <= usize::MAX {
        Some(digits_value(d) as usize)
    } else {
        None
    }
}

pub open spec fn unit_suffix(u: UptoUnit) -> char {
    match u {
        UptoUnit::Tokens(_) => 't',
        UptoUnit::Characters(_) => 'c',
        UptoUnit::Lines(_) => 'l',
    }
}

pub open spec fn amount(u: UptoUnit) -> usize {
    match u {
        UptoUnit::Tokens(n) => n,
        UptoUnit::Characters(n) => n,
        UptoUnit::Lines(n) => n,
    }
}

/// The canonical text of a read limit: its amount in decimal, then its unit.
pub open spec fn encoded(u: UptoUnit) -> Seq<char> {
    decimal(amount(u) as nat).push(unit_suffix(u))
}

/// What reading `s` as a read limit gives: after trimming, all but the last
/// character must be a number and the last one a unit.
pub open spec fn upto_of(s: Seq<char>) -> Result<UptoUnit, UptoFault> {
    let t = trimmed(s);
    if t.len() == 0 {
        Err(UptoFault::Format)
    } else {
        let num = t.drop_last();
        let unit = t.last();
        match unsigned_of(num) {
            None => Err(UptoFault::Number(num)),
            Some(n) => if unit == 't' {
                Ok(UptoUnit::Tokens(n))
            } else if unit == 'c' {
                Ok(UptoUnit::Characters(n))
            } else if unit == 'l' {
                Ok(UptoUnit::Lines(n))
            } else {
                Err(UptoFault::Unit(unit))
            },
        }
    }
}

pub open spec fn upto_result_view(r: Result<UptoUnit, UptoError>) -> Result<UptoUnit, UptoFault> {
    match r {
        Ok(u) => Ok(u),
        Err(e) => Err(e@),
    }
}

proof fn lemma_digits_prefix_grows(s: Seq<char>, i: int, j: int)
    requires
        0 <= i <= j <= s.len(),
    ensures
        digits_value(s.subrange(0, i)) <= digits_value(s.subrange(0, j)),
    decreases j - i,
{
    if i < j {
        lemma_digits_prefix_grows(s, i, j - 1);
        assert(s.subrange(0, j).drop_last() =~= s.subrange(0, j - 1));
    }
}

/// `s` read as `usize::from_str` reads it.
fn parse_unsigned(s: &[char]) -> (r: Option<usize>)
    ensures
        r == unsigned_of(s@),
{
    let mut start: usize = 0;
    if s.len() > 0 && s[0] == '+' {
        start = 1;
    }
    let ghost d = if s@.len() > 0 && s@[0] == '+' {
        s@.drop_first()
    } else {
        s@
    };
    assert(d =~= s@.subrange(start as int, s@.len() as int));
    if start == s.len() {
        return None;
    }
    let mut k: usize = start;
    while k < s.len()
        invariant
            start <= k <= s.len(),
            d =~= s@.subrange(start as int, s@.len() as int),
            d == (if s@.len() > 0 && s@[0] == '+' {
                s@.drop_first()
            } else {
                s@
            }),
            forall|i: int| start <= i < k ==> is_digit(#[trigger] s@[i]),
        decreases s.len() - k,
    {
        if !('0' <= s[k] && s[k] <= '9') {
            assert(!is_digit(d[k - start]));
            assert(!all_digits(d));
            return None;
        }
        k = k + 1;
    }
    assert(all_digits(d)) by {
        assert forall|i: int| 0 <= i < d.len() implies is_digit(#[trigger] d[i]) by {
            assert(d[i] == s@[i + start]);
        }
    }
    let mut value: usize = 0;
    let mut k: usize = start;
    while k < s.len()
        invariant
            start <= k <= s.len(),
            d =~= s@.subrange(start as int, s@.len() as int),
            d == (if s@.len() > 0 && s@[0] == '+' {
                s@.drop_first()
            } else {
                s@
            }),
            all_digits(d),
            value as nat == digits_value(d.subrange(0, k - start)),
        decreases s.len() - k,
    {
        let ghost i = k - start;
        assert(d.subrange(0, i + 1).drop_last() =~= d.subrange(0, i));
        assert(d[i] == s@[k as int]);
        assert(is_digit(d[i]));
        let digit = (s[k] as u32 - '0' as u32) as usize;
        match value.checked_mul(10) {
            None => {
                proof {
                    lemma_digits_prefix_grows(d, i + 1, d.len() as int);
                    assert(d.subrange(0, d.len() as int) =~= d);
                    assert(digits_value(d.subrange(0, i + 1)) == value * 10 + digit_value(d[i]));
                    assert(digits_value(d) > usize::MAX);
                }
                return None;
            },
            Some(v) => match v.checked_add(digit) {
                None => {
                    proof {
                        lemma_digits_prefix_grows(d, i + 1, d.len() as int);
                        assert(d.subrange(0, d.len() as int) =~= d);
                    }
                    return None;
                },
                Some(w) => {
                    value = w;
                },
            },
        }
        k = k + 1;
    }
    assert(d.subrange(0, d.len() as int) =~= d);
    Some(value)
}

/// Reads a read limit such as `100t`, `500c` or `50l`, ignoring surrounding
/// white space.
pub fn parse_upto(s: &str) -> (r: Result<UptoUnit, UptoError>)
    ensures
        upto_result_view(r) == upto_of(s@),
{
    let mut t = trim_chars(s);
    let ghost whole = t@;
    let unit = match t.pop() {
        None => {
            return Err(UptoError::InvalidFormat);
        },
        Some(u) => u,
    };
    assert(t@ =~= whole.drop_last());
    let n = match parse_unsigned(t.as_slice()) {
        None => {
            return Err(UptoError::InvalidNumber(text_of(t.as_slice())));
        },
        Some(n) => n,
    };
    if unit == 't' {
        Ok(UptoUnit::Tokens(n))
    } else if unit == 'c' {
        Ok(UptoUnit::Characters(n))
    } else if unit == 'l' {
        Ok(UptoUnit::Lines(n))
    } else {
        Err(UptoError::InvalidUnit(unit))
    }
}

fn push_decimal(n: usize, out: &mut Vec<char>)
    ensures
        final(out)@ == old(out)@ + decimal(n as nat),
    decreases n,
{
    if n >= 10 {
        push_decimal(n / 10, out);
    }
    let c = ('0' as u32 + (n % 10) as u32) as u8 as char;
    proof {
        assert(c == digit_char((n % 10) as nat));
    }
    out.push(c);
    proof {
        if n < 10 {
            assert(decimal(n as nat) == seq![digit_char(n as nat)]);
        }
    }
    assert(final(out)@ =~= old(out)@ + decimal(n as nat));
}

impl UptoUnit {
    /// The canonical text of this limit, such as `100t`.
    pub fn to_string(&self) -> (r: String)
        ensures
            r@ == encoded(*self),
    {
        let mut cs: Vec<char> = Vec::new();
        let (n, unit) = match *self {
            UptoUnit::Tokens(n) => (n, 't'),
            UptoUnit::Characters(n) => (n, 'c'),
            UptoUnit::Lines(n) => (n, 'l'),
        };
        push_decimal(n, &mut cs);
        cs.push(unit);
        assert(cs@ =~= encoded(*self));
        text_of(cs.as_slice())
    }
}

pub open spec fn message_of(f: UptoFault) -> Seq<char> {
    match f {
        UptoFault::Format => "empty upto value"@,
        UptoFault::Number(t) => "invalid number: "@ + t,
        UptoFault::Unit(u) => "unknown unit '"@ + seq![u] + "', expected t/c/l"@,
    }
}

impl UptoError {
    /// A short description of the error for the user.
    pub fn message(&self) -> (r: String)
        ensures
            r@ == message_of(self@),
    {
        match self {
            UptoError::InvalidFormat => String::from_str("empty upto value"),
            UptoError::InvalidNumber(t) => {
                let mut m = String::from_str("invalid number: ");
                m.append(t.as_str());
                m
            },
            UptoError::InvalidUnit(u) => {
                let mut m = String::from_str("unknown unit '");
                let v = vec![*u];
                let ut = text_of(v.as_slice());
                m.append(ut.as_str());
                m.append("', expected t/c/l");
                m
            },
        }
    }
}

/// A literal in canonical form: decimal digits without a leading zero (unless
/// the number is zero itself) that fit a `usize`, then a unit letter.
pub open spec fn canonical_literal(s: Seq<char>) -> bool {
    let d = s.drop_last();
    &&& s.len() >= 2
    &&& all_digits(d)
    &&& (d[0] != '0' || d.len() == 1)
    &&& digits_value(d) <= usize::MAX
    &&& (s.last() == 't' || s.last() == 'c' || s.last() == 'l')
}

proof fn lemma_digit_char(d: nat)
    requires
        d < 10,
    ensures
        is_digit(digit_char(d)),
        digit_value(digit_char(d)) == d,
        !is_white_space(digit_char(d)),
        digit_char(d) != '+',
{
}

proof fn lemma_decimal(n: nat)
    ensures
        decimal(n).len() >= 1,
        all_digits(decimal(n)),
        digits_value(decimal(n)) == n,
        decimal(n)[0] != '0' || n == 0,
        decimal(n)[0] != '0' || decimal(n).len() == 1,
    decreases n,
{
    lemma_digit_char(n % 10);
    if n < 10 {
        assert(decimal(n).drop_last() =~= Seq::<char>::empty());
        assert(digits_value(Seq::<char>::empty()) == 0);
    } else {
        lemma_decimal(n / 10);
        let p = decimal(n / 10);
        assert(decimal(n).drop_last() =~= p);
        assert(decimal(n).last() == digit_char(n % 10));
        assert((n / 10) * 10 + n % 10 == n) by (nonlinear_arith);
        assert(decimal(n)[0] == p[0]);
        assert forall|i: int| 0 <= i < decimal(n).len() implies is_digit(#[trigger] decimal(n)[i]) by {
            if i < p.len() {
                assert(decimal(n)[i] == p[i]);
            }
        }
    }
}

proof fn lemma_positive_digits(d: Seq<char>)
    requires
        d.len() >= 1,
        all_digits(d),
        d[0] != '0',
    ensures
        digits_value(d) >= 1,
    decreases d.len(),
{
    if d.len() > 1 {
        let p = d.drop_last();
        assert(p[0] == d[0]);
        assert(all_digits(p)) by {
            assert forall|i: int| 0 <= i < p.len() implies is_digit(#[trigger] p[i]) by {
                assert(p[i] == d[i]);
            }
        }
        lemma_positive_digits(p);
    }
}

proof fn lemma_decimal_of_digits(d: Seq<char>)
    requires
        d.len() >= 1,
        all_digits(d),
        d[0] != '0' || d.len() == 1,
    ensures
        decimal(digits_value(d)) == d,
    decreases d.len(),
{
    let p = d.drop_last();
    let c = d.last();
    assert(is_digit(c));
    let v = digits_value(d);
    assert(digit_char(digit_value(c)) == c);
    if d.len() == 1 {
        assert(p =~= Seq::<char>::empty());
        assert(digits_value(p) == 0);
        assert(v == digit_value(c));
        assert(decimal(v) =~= d);
    } else {
        assert(p[0] == d[0]);
        assert(all_digits(p)) by {
            assert forall|i: int| 0 <= i < p.len() implies is_digit(#[trigger] p[i]) by {
                assert(p[i] == d[i]);
            }
        }
        lemma_positive_digits(p);
        lemma_decimal_of_digits(p);
        let q = digits_value(p);
        let r = digit_value(c);
        assert(v == q * 10 + r);
        assert(v / 10 == q && v % 10 == r && v >= 10) by (nonlinear_arith)
            requires
                v == q * 10 + r,
                r < 10,
                q >= 1,
        ;
        assert(decimal(v) =~= d);
    }
}

/// Reading a canonical literal and encoding the result gives the literal back.
pub proof fn lemma_encode_after_parse(s: Seq<char>)
    requires
        canonical_literal(s),
    ensures
        upto_of(s) is Ok,
        encoded(upto_of(s)->Ok_0) == s,
{
    let d = s.drop_last();
    assert(is_digit(d[0]));
    assert(s[0] == d[0]);
    assert(trim_start(s) == s);
    assert(trim_end(s) == s);
    assert(trimmed(s) == s);
    assert(unsigned_of(d) == Some(digits_value(d) as usize));
    lemma_decimal_of_digits(d);
    assert(encoded(upto_of(s)->Ok_0) =~= s);
}

/// Every read limit reads back from its canonical text.
pub proof fn lemma_parse_after_encode(u: UptoUnit)
    ensures
        upto_of(encoded(u)) == Ok::<UptoUnit, UptoFault>(u),
{
    let s = encoded(u);
    let d = decimal(amount(u) as nat);
    lemma_decimal(amount(u) as nat);
    assert(s.drop_last() =~= d);
    assert(s[0] == d[0]);
    assert(is_digit(d[0]));
    assert(trim_start(s) == s);
    assert(trim_end(s) == s);
    assert(trimmed(s) == s);
    assert(unsigned_of(d) == Some(amount(u)));
}

/// A read-limit text is rejected exactly when it is blank, when all but its
/// last character do not form a number, or when its last character is not a
/// unit; each case gives its own error.
pub proof fn lemma_parse_rejects(s: Seq<char>)
    ensures
        trimmed(s).len() == 0 ==> upto_of(s) == Err::<UptoUnit, UptoFault>(UptoFault::Format),
        trimmed(s).len() > 0 && unsigned_of(trimmed(s).drop_last()) is None ==> upto_of(s)
            == Err::<UptoUnit, UptoFault>(UptoFault::Number(trimmed(s).drop_last())),
        trimmed(s).len() > 0 && unsigned_of(trimmed(s).drop_last()) is Some && !(trimmed(s).last()
            == 't' || trimmed(s).last() == 'c' || trimmed(s).last() == 'l') ==> upto_of(s)
            == Err::<UptoUnit, UptoFault>(UptoFault::Unit(trimmed(s).last())),
        upto_of(s) is Ok <==> (trimmed(s).len() > 0 && unsigned_of(trimmed(s).drop_last()) is Some
            && (trimmed(s).last() == 't' || trimmed(s).last() == 'c' || trimmed(s).last() == 'l')),
{
}

} // verus!
