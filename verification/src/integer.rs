//! Signed integers of any size, kept as decimal digits.

use vstd::prelude::*;

verus! {

/// Ten to the power `n`.
pub open spec fn pow10(n: nat) -> nat
    decreases n,
{
    if n == 0 {
        1
    } else {
        10 * pow10((n - 1) as nat)
    }
}

/// Whether every element is a decimal digit.
pub open spec fn all_decimal(digits: Seq<u8>) -> bool {
    forall|i: int| 0 <= i < digits.len() ==> digits[i] < 10
}

/// The number that `digits` write, the least significant digit first.
pub open spec fn magnitude(digits: Seq<u8>) -> nat
    decreases digits.len(),
{
    if digits.len() == 0 {
        0
    } else {
        magnitude(digits.drop_last()) + digits.last() as nat * pow10((digits.len() - 1) as nat)
    }
}

/// The character that writes the digit `d`.
pub open spec fn digit_char(d: nat) -> char {
    (d + 48) as char
}

/// The decimal form of `n`, without leading zeros.
pub open spec fn decimal(n: nat) -> Seq<char>
    decreases n,
{
    if n < 10 {
        seq![digit_char(n)]
    } else {
        decimal(n / 10).push(digit_char(n % 10))
    }
}

/// The decimal form of `v`, with a minus sign below zero.
pub open spec fn signed_decimal(v: int) -> Seq<char> {
    if v < 0 {
        seq!['-'] + decimal((-v) as nat)
    } else {
        decimal(v as nat)
    }
}

/// Whether `c` is one of the digits `0` to `9`.
pub open spec fn is_digit(c: char) -> bool {
    48 <= c as u32 <= 57
}

/// The worth of a digit character.
pub open spec fn digit_value(c: char) -> nat {
    (c as u32 - 48) as nat
}

/// Whether `s` is a non-empty run of digits.
pub open spec fn is_number(s: Seq<char>) -> bool {
    s.len() > 0 && forall|i: int| 0 <= i < s.len() ==> is_digit(#[trigger] s[i])
}

/// The number that a run of digits writes, the most significant first.
pub open spec fn digits_value(s: Seq<char>) -> nat
    decreases s.len(),
{
    if s.len() == 0 {
        0
    } else {
        10 * digits_value(s.drop_last()) + digit_value(s.last())
    }
}

/// The integer that a token writes, if it writes one: digits, with one sign
/// `+` or `-` before them or none. Anything else in it makes it no integer.
pub open spec fn token_value(token: Seq<char>) -> Option<int> {
    if token.len() > 0 && token[0] == '-' {
        if is_number(token.drop_first()) {
            Some(-(digits_value(token.drop_first()) as int))
        } else {
            None
        }
    } else if token.len() > 0 && token[0] == '+' {
        if is_number(token.drop_first()) {
            Some(digits_value(token.drop_first()) as int)
        } else {
            None
        }
    } else if is_number(token) {
        Some(digits_value(token) as int)
    } else {
        None
    }
}

/// The digits as characters, the most significant first.
spec fn rendered(digits: Seq<u8>) -> Seq<char> {
    Seq::new(digits.len(), |j: int| digit_char(digits[digits.len() - 1 - j] as nat))
}

/// The digit at place `i`, zero beyond the most significant one.
spec fn digit_at(digits: Seq<u8>, i: int) -> nat {
    if 0 <= i < digits.len() {
        digits[i] as nat
    } else {
        0
    }
}

/// The number written by the `i` lowest places.
spec fn low(digits: Seq<u8>, i: int) -> nat {
    magnitude(digits.take(if i < digits.len() { i } else { digits.len() as int }))
}

proof fn lemma_low_step(digits: Seq<u8>, i: int)
    requires
        0 <= i,
    ensures
        low(digits, i + 1) == low(digits, i) + digit_at(digits, i) * pow10(i as nat),
{
    if i < digits.len() {
        let upper = digits.take(i + 1);
        assert(upper.drop_last() == digits.take(i));
        assert(upper.last() == digits[i]);
        assert(magnitude(upper) == magnitude(upper.drop_last()) + upper.last() as nat * pow10(
            (upper.len() - 1) as nat,
        ));
    } else {
        assert(0 * pow10(i as nat) == 0);
    }
}

proof fn lemma_low_all(digits: Seq<u8>, i: int)
    requires
        digits.len() <= i,
    ensures
        low(digits, i) == magnitude(digits),
{
    assert(digits.take(digits.len() as int) == digits);
}

proof fn lemma_push(digits: Seq<u8>, d: u8)
    ensures
        magnitude(digits.push(d)) == magnitude(digits) + d as nat * pow10(digits.len()),
        all_decimal(digits) && d < 10 ==> all_decimal(digits.push(d)),
{
    assert(digits.push(d).drop_last() == digits);
}

/// `n` places write only numbers below ten to the `n`.
proof fn lemma_magnitude_bound(digits: Seq<u8>)
    requires
        all_decimal(digits),
    ensures
        magnitude(digits) < pow10(digits.len()),
    decreases digits.len(),
{
    if digits.len() > 0 {
        lemma_magnitude_bound(digits.drop_last());
        let p = pow10((digits.len() - 1) as nat);
        let d = digits.last() as nat;
        assert(d * p <= 9 * p) by (nonlinear_arith)
            requires
                d <= 9,
        ;
    }
}

/// A digit put below the others counts once, and the others tenfold.
proof fn lemma_prepend(d: u8, digits: Seq<u8>)
    ensures
        magnitude(seq![d] + digits) == d as nat + 10 * magnitude(digits),
    decreases digits.len(),
{
    let whole = seq![d] + digits;
    if digits.len() == 0 {
        assert(whole.drop_last() == Seq::<u8>::empty());
        assert(magnitude(whole.drop_last()) == 0);
        assert(whole.last() == d);
        assert(pow10(0) == 1);
        assert(magnitude(digits) == 0);
        assert(magnitude(whole) == magnitude(whole.drop_last()) + d as nat * pow10(0));
        let one = pow10(0);
        assert(d as nat * one == d as nat) by (nonlinear_arith)
            requires
                one == 1,
        ;
        assert(magnitude(whole) == d as nat + 10 * magnitude(digits));
    } else {
        lemma_prepend(d, digits.drop_last());
        assert(whole.drop_last() == seq![d] + digits.drop_last());
        assert(whole.last() == digits.last());
        let p = pow10((digits.len() - 1) as nat);
        let x = digits.last() as nat;
        assert(pow10(digits.len()) == 10 * p);
        assert(x * (10 * p) == 10 * (x * p)) by (nonlinear_arith);
        assert(whole.len() - 1 == digits.len());
        assert(magnitude(whole) == magnitude(whole.drop_last()) + x * pow10(digits.len()));
        assert(magnitude(digits) == magnitude(digits.drop_last()) + x * p);
        assert(magnitude(whole) == d as nat + 10 * magnitude(digits));
    }
}

/// Digits read backwards from a run of digit characters write its number.
proof fn lemma_reversed_digits(s: Seq<char>, digits: Seq<u8>)
    requires
        digits.len() == s.len(),
        forall|j: int| 0 <= j < s.len() ==> digits[j] as nat == digit_value(s[s.len() - 1 - j]),
    ensures
        magnitude(digits) == digits_value(s),
    decreases s.len(),
{
    if s.len() > 0 {
        let rest = digits.drop_first();
        assert forall|j: int| 0 <= j < s.drop_last().len() implies rest[j] as nat == digit_value(
            s.drop_last()[s.drop_last().len() - 1 - j],
        ) by {
            assert(rest[j] == digits[j + 1]);
        }
        lemma_reversed_digits(s.drop_last(), rest);
        assert(digits == seq![digits[0]] + rest);
        lemma_prepend(digits[0], rest);
    } else {
        assert(digits == Seq::<u8>::empty());
    }
}

/// Digits whose most significant one is not zero write their number as its
/// decimal form.
proof fn lemma_rendered_is_decimal(digits: Seq<u8>)
    requires
        all_decimal(digits),
        digits.len() > 0,
        digits.last() != 0,
    ensures
        rendered(digits) == decimal(magnitude(digits)),
        magnitude(digits) > 0,
    decreases digits.len(),
{
    let rest = digits.drop_first();
    assert(digits == seq![digits[0]] + rest);
    lemma_prepend(digits[0], rest);
    if digits.len() == 1 {
        assert(rest == Seq::<u8>::empty());
        assert(magnitude(rest) == 0);
        assert(rendered(digits) == seq![digit_char(digits[0] as nat)]);
    } else {
        assert(rest.last() == digits.last());
        lemma_rendered_is_decimal(rest);
        let m = magnitude(digits);
        assert(m / 10 == magnitude(rest) && m % 10 == digits[0] as nat);
        assert(rendered(digits) == rendered(rest).push(digit_char(digits[0] as nat)));
    }
}

/// A zero in the most significant place changes nothing.
proof fn lemma_leading_zero(digits: Seq<u8>, n: int)
    requires
        0 < n <= digits.len(),
        digits[n - 1] == 0,
    ensures
        low(digits, n) == low(digits, n - 1),
{
    lemma_low_step(digits, n - 1);
    assert(0 * pow10((n - 1) as nat) == 0);
}

fn place(digits: &Vec<u8>, i: usize) -> (d: u8)
    requires
        all_decimal(digits@),
    ensures
        d as nat == digit_at(digits@, i as int),
        d < 10,
{
    if i < digits.len() {
        digits[i]
    } else {
        0
    }
}

/// Adds two numbers given by their digits.
fn add_magnitudes(a: &Vec<u8>, b: &Vec<u8>) -> (r: Vec<u8>)
    requires
        all_decimal(a@),
        all_decimal(b@),
    ensures
        all_decimal(r@),
        magnitude(r@) == magnitude(a@) + magnitude(b@),
{
    let n: usize = if a.len() >= b.len() { a.len() } else { b.len() };
    let mut r: Vec<u8> = Vec::new();
    let mut carry: u8 = 0;
    let mut i: usize = 0;
    while i < n
        invariant
            i <= n,
            a.len() <= n,
            b.len() <= n,
            r@.len() == i,
            carry <= 1,
            all_decimal(r@),
            all_decimal(a@),
            all_decimal(b@),
            magnitude(r@) + carry as nat * pow10(i as nat) == low(a@, i as int) + low(b@, i as int),
        decreases n - i,
    {
        let da: u8 = place(a, i);
        let db: u8 = place(b, i);
        let s: u8 = da + db + carry;
        let digit: u8 = if s >= 10 { s - 10 } else { s };
        let next: u8 = if s >= 10 { 1 } else { 0 };
        proof {
            lemma_low_step(a@, i as int);
            lemma_low_step(b@, i as int);
            lemma_push(r@, digit);
            let p = pow10(i as nat);
            assert(pow10((i + 1) as nat) == 10 * p);
            let (x, y, c, g, h) = (da as nat, db as nat, carry as nat, digit as nat, next as nat);
            assert(g * p + h * (10 * p) == x * p + y * p + c * p) by (nonlinear_arith)
                requires
                    g + 10 * h == x + y + c,
            ;
        }
        r.push(digit);
        carry = next;
        i += 1;
    }
    proof {
        lemma_low_all(a@, n as int);
        lemma_low_all(b@, n as int);
        lemma_push(r@, carry);
    }
    if carry > 0 {
        r.push(carry);
    }
    r
}

/// Takes `b` from `a`, place by place. The flag tells that the last place
/// had to borrow, which is the case exactly where `a` is the smaller; the
/// digits are the difference where it is not.
fn sub_magnitudes(a: &Vec<u8>, b: &Vec<u8>) -> (out: (Vec<u8>, bool))
    requires
        all_decimal(a@),
        all_decimal(b@),
    ensures
        all_decimal(out.0@),
        out.1 <==> magnitude(a@) < magnitude(b@),
        !out.1 ==> magnitude(out.0@) == magnitude(a@) - magnitude(b@),
{
    let n: usize = if a.len() >= b.len() { a.len() } else { b.len() };
    let mut r: Vec<u8> = Vec::new();
    let mut borrow: u8 = 0;
    let mut i: usize = 0;
    while i < n
        invariant
            i <= n,
            a.len() <= n,
            b.len() <= n,
            r@.len() == i,
            borrow <= 1,
            all_decimal(r@),
            all_decimal(a@),
            all_decimal(b@),
            magnitude(r@) - borrow as nat * pow10(i as nat) == low(a@, i as int) - low(b@, i as int),
        decreases n - i,
    {
        let da: u8 = place(a, i);
        let db: u8 = place(b, i);
        let take: u8 = db + borrow;
        let digit: u8 = if da >= take { da - take } else { da + 10 - take };
        let next: u8 = if da >= take { 0 } else { 1 };
        proof {
            lemma_low_step(a@, i as int);
            lemma_low_step(b@, i as int);
            lemma_push(r@, digit);
            let p = pow10(i as nat) as int;
            assert(pow10((i + 1) as nat) == 10 * p);
            let (x, y, c, g, h) = (da as int, db as int, borrow as int, digit as int, next as int);
            assert(g * p - h * (10 * p) == x * p - y * p - c * p) by (nonlinear_arith)
                requires
                    g - 10 * h == x - y - c,
            ;
        }
        r.push(digit);
        borrow = next;
        i += 1;
    }
    proof {
        lemma_low_all(a@, n as int);
        lemma_low_all(b@, n as int);
        lemma_magnitude_bound(r@);
    }
    (r, borrow > 0)
}

/// A signed integer without a limit on its size.
#[derive(Debug)]
pub struct Integer {
    negative: bool,
    digits: Vec<u8>,
}

impl View for Integer {
    type V = int;

    /// The number that the value stands for.
    closed spec fn view(&self) -> int {
        if self.negative {
            -(magnitude(self.digits@) as int)
        } else {
            magnitude(self.digits@) as int
        }
    }
}

impl Integer {
    #[verifier::type_invariant]
    spec fn well_formed(&self) -> bool {
        all_decimal(self.digits@)
    }

    /// The number zero.
    pub fn zero() -> (r: Integer)
        ensures
            r@ == 0,
    {
        Integer { negative: false, digits: Vec::new() }
    }

    /// The integer with the value of `n`.
    pub fn from_usize(n: usize) -> (r: Integer)
        ensures
            r@ == n,
    {
        let mut digits: Vec<u8> = Vec::new();
        let mut rest: usize = n;
        proof {
            let one = pow10(0);
            assert(rest * one == n) by (nonlinear_arith)
                requires
                    one == 1,
                    rest == n,
            ;
        }
        while rest > 0
            invariant
                all_decimal(digits@),
                magnitude(digits@) + rest * pow10(digits@.len()) == n,
            decreases rest,
        {
            let d: u8 = (rest % 10) as u8;
            proof {
                lemma_push(digits@, d);
                let p = pow10(digits@.len());
                let (m, q, x) = (rest as nat, (rest / 10) as nat, d as nat);
                assert(pow10(digits@.len() + 1) == 10 * p);
                assert(x * p + q * (10 * p) == m * p) by (nonlinear_arith)
                    requires
                        m == 10 * q + x,
                ;
            }
            digits.push(d);
            rest = rest / 10;
        }
        assert(0 * pow10(digits@.len()) == 0);
        Integer { negative: false, digits }
    }

    /// The decimal form of the number: a minus sign below zero, then the
    /// digits without leading zeros.
    pub fn to_string(&self) -> (s: String)
        ensures
            s@ == signed_decimal(self@),
    {
        let mut out: String = String::new();
        self.write_to(&mut out);
        assert(out@ == signed_decimal(self@));
        out
    }

    /// The sum of two integers.
    pub fn plus(&self, other: &Integer) -> (r: Integer)
        ensures
            r@ == self@ + other@,
    {
        proof {
            use_type_invariant(self);
            use_type_invariant(other);
        }
        if self.negative == other.negative {
            Integer { negative: self.negative, digits: add_magnitudes(&self.digits, &other.digits) }
        } else {
            let (digits, borrowed) = sub_magnitudes(&self.digits, &other.digits);
            if !borrowed {
                Integer { negative: self.negative, digits }
            } else {
                let (digits, _) = sub_magnitudes(&other.digits, &self.digits);
                Integer { negative: other.negative, digits }
            }
        }
    }

    /// Reads a token as an integer: digits with at most one sign before
    /// them. `None` for every other token; nothing of it is read in part.
    pub fn parse(token: &Vec<char>) -> (r: Option<Integer>)
        ensures
            r is Some <==> token_value(token@) is Some,
            r is Some ==> r->0@ == token_value(token@)->0,
    {
        let n: usize = token.len();
        if n == 0 {
            return None;
        }
        let negative: bool = token[0] == '-';
        let start: usize = if negative || token[0] == '+' { 1 } else { 0 };
        let ghost body = if start == 1 { token@.drop_first() } else { token@ };
        if start == n {
            return None;
        }
        let mut digits: Vec<u8> = Vec::new();
        let mut k: usize = n;
        while k > start
            invariant
                start <= k <= n,
                n == token@.len(),
                n > 0,
                start == if token@[0] == '-' || token@[0] == '+' { 1usize } else { 0usize },
                body == if start == 1 { token@.drop_first() } else { token@ },
                digits@.len() == n - k,
                all_decimal(digits@),
                forall|j: int| k <= j < n ==> is_digit(token@[j]),
                forall|j: int| 0 <= j < n - k ==> digits@[j] as nat == digit_value(token@[n - 1 - j]),
            decreases k,
        {
            let v: u32 = token[k - 1] as u32;
            if v < 48 || v > 57 {
                assert(!is_digit(body[k - 1 - start]));
                return None;
            }
            digits.push((v - 48) as u8);
            k -= 1;
        }
        proof {
            assert(is_number(body));
            lemma_reversed_digits(body, digits@);
        }
        Some(Integer { negative, digits })
    }

    /// Appends the decimal form of the number to `out`.
    pub fn write_to(&self, out: &mut String)
        ensures
            final(out)@ == old(out)@ + signed_decimal(self@),
    {
        proof {
            use_type_invariant(self);
            lemma_low_all(self.digits@, self.digits@.len() as int);
        }
        let mut n: usize = self.digits.len();
        while n > 0 && self.digits[n - 1] == 0
            invariant
                n <= self.digits@.len(),
                low(self.digits@, n as int) == magnitude(self.digits@),
            decreases n,
        {
            proof {
                lemma_leading_zero(self.digits@, n as int);
            }
            n -= 1;
        }
        let ghost top = self.digits@.take(n as int);
        if n == 0 {
            out.push('0');
            assert(decimal(0) == seq![digit_char(0)]);
            assert(final(out)@ == old(out)@ + signed_decimal(self@));
            return ;
        }
        proof {
            lemma_rendered_is_decimal(top);
        }
        if self.negative {
            out.push('-');
        }
        let ghost base = out@;
        let mut k: usize = n;
        while k > 0
            invariant
                k <= n <= self.digits@.len(),
                all_decimal(self.digits@),
                top == self.digits@.take(n as int),
                out@ == base + rendered(top).take(n - k),
            decreases k,
        {
            let c: char = digit_to_char(self.digits[k - 1]);
            out.push(c);
            k -= 1;
            assert(rendered(top).take(n - k) == rendered(top).take(n - k - 1).push(c));
        }
        assert(rendered(top).take(n as int) == rendered(top));
        assert(final(out)@ == old(out)@ + signed_decimal(self@));
    }

    /// Whether the number is below zero.
    pub fn is_negative(&self) -> (b: bool)
        ensures
            b == (self@ < 0),
    {
        proof {
            use_type_invariant(self);
        }
        self.negative && !is_zero(&self.digits)
    }
}

fn digit_to_char(d: u8) -> (c: char)
    requires
        d < 10,
    ensures
        c == digit_char(d as nat),
{
    (d + 48) as char
}

/// Whether the digits write zero.
fn is_zero(digits: &Vec<u8>) -> (b: bool)
    requires
        all_decimal(digits@),
    ensures
        b == (magnitude(digits@) == 0),
{
    let mut i: usize = 0;
    while i < digits.len()
        invariant
            i <= digits.len(),
            low(digits@, i as int) == 0,
        decreases digits.len() - i,
    {
        proof {
            lemma_low_step(digits@, i as int);
            lemma_pow10_positive(i as nat);
            assert(0 * pow10(i as nat) == 0);
        }
        if digits[i] != 0 {
            proof {
                lemma_low_monotone(digits@, i as int + 1);
                let d = digits[i as int] as nat;
                let p = pow10(i as nat);
                assert(d * p >= 1) by (nonlinear_arith)
                    requires
                        d >= 1,
                        p >= 1,
                ;
            }
            return false;
        }
        i += 1;
    }
    proof {
        lemma_low_all(digits@, i as int);
    }
    true
}

proof fn lemma_pow10_positive(n: nat)
    ensures
        pow10(n) >= 1,
    decreases n,
{
    if n > 0 {
        lemma_pow10_positive((n - 1) as nat);
    }
}

/// The lowest places write no more than all of them.
proof fn lemma_low_monotone(digits: Seq<u8>, i: int)
    requires
        0 <= i,
    ensures
        low(digits, i) <= magnitude(digits),
    decreases digits.len() - i,
{
    if i < digits.len() {
        lemma_low_step(digits, i);
        lemma_low_monotone(digits, i + 1);
    } else {
        lemma_low_all(digits, i);
    }
}

} // verus!
