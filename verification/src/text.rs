//! Building the text of keys and diagnostics: decimal and hexadecimal numerals.
use vstd::prelude::*;

verus! {

/// The character of digit `d` (`0`-`9`, then lower-case `a`-`f`).
pub open spec fn digit_char(d: int) -> char {
    if d < 10 {
        (48 + d) as char
    } else {
        (87 + d) as char
    }
}

/// Numeral of `n` in base `base`, most significant digit first, without leading zeros
/// (`0` is written as a single digit).
pub open spec fn numeral(n: nat, base: nat) -> Seq<char>
    decreases n,
{
    if base < 2 || n < base {
        seq![digit_char(n as int)]
    } else {
        proof {
            assert(n / base < n) by (nonlinear_arith)
                requires
                    base >= 2,
                    n >= base,
            ;
        }
        numeral(n / base, base).push(digit_char((n % base) as int))
    }
}

/// Decimal numeral of `n`, as `format!("{}", n)` writes it.
pub open spec fn decimal(n: nat) -> Seq<char> {
    numeral(n, 10)
}

/// Lower-case hexadecimal numeral of `n`, as `format!("{:x}", n)` writes it.
pub open spec fn hex(n: nat) -> Seq<char> {
    numeral(n, 16)
}

/// Appends one character to a `String`.
///
/// Calls `String::push`, which std documents as appending the given `char` to the end of
/// the string; the contract says exactly that of the character view.
#[verifier::external_body]
pub(crate) fn push_char(s: &mut String, c: char)
    ensures
        final(s)@ == old(s)@.push(c),
{
    s.push(c)
}

fn digit(d: u64) -> (c: char)
    requires
        d < 16,
    ensures
        c == digit_char(d as int),
{
    let b: u8 = if d < 10 {
        48 + d as u8
    } else {
        87 + d as u8
    };
    b as char
}

/// Appends the numeral of `n` in base `base`.
pub fn push_numeral(s: &mut String, n: u64, base: u64)
    requires
        base == 10 || base == 16,
    ensures
        final(s)@ == old(s)@ + numeral(n as nat, base as nat),
    decreases n,
{
    if n < base {
        push_char(s, digit(n));
        assert(old(s)@.push(digit_char(n as int)) =~= old(s)@ + seq![digit_char(n as int)]);
    } else {
        push_numeral(s, n / base, base);
        push_char(s, digit(n % base));
        assert(numeral(n as nat, base as nat) == numeral((n / base) as nat, base as nat).push(
            digit_char((n % base) as int),
        ));
        assert(old(s)@ + numeral(n as nat, base as nat) =~= (old(s)@ + numeral(
            (n / base) as nat,
            base as nat,
        )).push(digit_char((n % base) as int)));
    }
}

/// Appends the decimal numeral of `n`.
pub fn push_decimal(s: &mut String, n: u64)
    ensures
        final(s)@ == old(s)@ + decimal(n as nat),
{
    push_numeral(s, n, 10)
}

/// Appends the hexadecimal numeral of `n`.
pub fn push_hex(s: &mut String, n: u64)
    ensures
        final(s)@ == old(s)@ + hex(n as nat),
{
    push_numeral(s, n, 16)
}

/// Hexadecimal digits of `n`, least significant first.
pub open spec fn reversed_hex(n: nat) -> Seq<char>
    decreases n,
{
    if n < 16 {
        seq![digit_char(n as int)]
    } else {
        seq![digit_char((n % 16) as int)] + reversed_hex(n / 16)
    }
}

/// The hexadecimal digits produced lowest first are the numeral reversed.
pub proof fn lemma_reversed_hex(n: nat)
    ensures
        reversed_hex(n) == hex(n).reverse(),
    decreases n,
{
    if n < 16 {
        assert(hex(n).reverse() =~= seq![digit_char(n as int)]);
    } else {
        lemma_reversed_hex(n / 16);
        let h = hex(n / 16);
        let d = digit_char((n % 16) as int);
        assert(hex(n) == h.push(d));
        assert(h.push(d).reverse() =~= seq![d] + h.reverse());
    }
}

/// Appends the hexadecimal numeral of `n` written backwards (least significant digit first).
pub fn push_reversed_hex(s: &mut String, n: u64)
    ensures
        final(s)@ == old(s)@ + hex(n as nat).reverse(),
    decreases n,
{
    proof {
        lemma_reversed_hex(n as nat);
    }
    push_char(s, digit(n % 16));
    if n >= 16 {
        let ghost mid = s@;
        push_reversed_hex(s, n / 16);
        proof {
            lemma_reversed_hex((n / 16) as nat);
        }
        assert(old(s)@ + reversed_hex(n as nat) =~= mid + reversed_hex((n / 16) as nat));
    } else {
        assert(old(s)@ + reversed_hex(n as nat) =~= old(s)@.push(digit_char(n as int)));
    }
}

/// A hexadecimal numeral has at least one digit and no `_`.
pub proof fn lemma_hex_no_underscore(n: nat)
    ensures
        hex(n).len() >= 1,
        forall|i: int| 0 <= i < hex(n).len() ==> hex(n)[i] != '_',
    decreases n,
{
    if n >= 16 {
        lemma_hex_no_underscore(n / 16);
        let h = hex(n / 16);
        assert(hex(n) == h.push(digit_char((n % 16) as int)));
        assert forall|i: int| 0 <= i < hex(n).len() implies hex(n)[i] != '_' by {
            if i < h.len() {
                assert(hex(n)[i] == h[i]);
            }
        }
    }
}

/// Different hexadecimal digits are written with different characters.
pub proof fn lemma_digit_char_injective(d: int, e: int)
    requires
        0 <= d < 16,
        0 <= e < 16,
        digit_char(d) == digit_char(e),
    ensures
        d == e,
{
    let x: int = if d < 10 { 48 + d } else { 87 + d };
    let y: int = if e < 10 { 48 + e } else { 87 + e };
    assert(digit_char(d) as int == x);
    assert(digit_char(e) as int == y);
}

/// Different numbers have different hexadecimal numerals.
pub proof fn lemma_hex_injective(n: nat, m: nat)
    requires
        hex(n) == hex(m),
    ensures
        n == m,
    decreases n,
{
    if n < 16 && m < 16 {
        assert(hex(n) == seq![digit_char(n as int)]);
        assert(hex(m) == seq![digit_char(m as int)]);
        assert(hex(n)[0] == digit_char(n as int));
        assert(hex(m)[0] == digit_char(m as int));
        assert(hex(n)[0] == hex(m)[0]);
        lemma_digit_char_injective(n as int, m as int);
    } else if n < 16 {
        lemma_hex_no_underscore(m / 16);
        assert(hex(m).len() == hex(m / 16).len() + 1);
    } else if m < 16 {
        lemma_hex_no_underscore(n / 16);
        assert(hex(n).len() == hex(n / 16).len() + 1);
    } else {
        assert(hex(n).drop_last() =~= hex(n / 16));
        assert(hex(m).drop_last() =~= hex(m / 16));
        assert(hex(n) == hex(n / 16).push(digit_char((n % 16) as int)));
        assert(hex(m) == hex(m / 16).push(digit_char((m % 16) as int)));
        assert(hex(n).last() == digit_char((n % 16) as int));
        assert(hex(m).last() == digit_char((m % 16) as int));
        assert(hex(n).last() == hex(m).last());
        lemma_hex_injective(n / 16, m / 16);
        lemma_digit_char_injective((n % 16) as int, (m % 16) as int);
        assert(n == 16 * (n / 16) + n % 16);
        assert(m == 16 * (m / 16) + m % 16);
    }
}

/// Text split at its first `_`: when two texts are each a part without `_`, a `_` and a rest,
/// and are equal, their parts and their rests are equal.
pub proof fn lemma_split_at_underscore(a: Seq<char>, b: Seq<char>, c: Seq<char>, d: Seq<char>)
    requires
        a + seq!['_'] + b == c + seq!['_'] + d,
        forall|i: int| 0 <= i < a.len() ==> a[i] != '_',
        forall|i: int| 0 <= i < c.len() ==> c[i] != '_',
    ensures
        a == c,
        b == d,
{
    let l = a + seq!['_'] + b;
    let r = c + seq!['_'] + d;
    if a.len() < c.len() {
        assert(l[a.len() as int] == '_');
        assert(r[a.len() as int] == c[a.len() as int]);
    } else if c.len() < a.len() {
        assert(r[c.len() as int] == '_');
        assert(l[c.len() as int] == a[c.len() as int]);
    }
    assert(a =~= l.subrange(0, a.len() as int));
    assert(c =~= r.subrange(0, c.len() as int));
    assert(b =~= l.subrange(a.len() as int + 1, l.len() as int));
    assert(d =~= r.subrange(c.len() as int + 1, r.len() as int));
}

/// Text split at its last `_`: when two texts are each a first part, a `_` and a last part
/// without `_`, and are equal, their first parts and their last parts are equal.
pub proof fn lemma_split_at_last_underscore(a: Seq<char>, b: Seq<char>, c: Seq<char>, d: Seq<char>)
    requires
        a + seq!['_'] + b == c + seq!['_'] + d,
        forall|i: int| 0 <= i < b.len() ==> b[i] != '_',
        forall|i: int| 0 <= i < d.len() ==> d[i] != '_',
    ensures
        a == c,
        b == d,
{
    let l = a + seq!['_'] + b;
    let r = c + seq!['_'] + d;
    let n = l.len() as int;
    if b.len() < d.len() {
        assert(l[n - 1 - b.len()] == '_');
        assert(r[n - 1 - b.len()] == d[d.len() - 1 - b.len()]);
    } else if d.len() < b.len() {
        assert(r[n - 1 - d.len()] == '_');
        assert(l[n - 1 - d.len()] == b[b.len() - 1 - d.len()]);
    }
    assert(a =~= l.subrange(0, a.len() as int));
    assert(c =~= r.subrange(0, c.len() as int));
    assert(b =~= l.subrange(a.len() as int + 1, n));
    assert(d =~= r.subrange(c.len() as int + 1, n));
}

} // verus!
