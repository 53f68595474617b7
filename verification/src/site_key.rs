//! Call-site keys: a short name for a place in the source.
use crate::ast::Span;
use vstd::prelude::*;

verus! {

pub const FNV_OFFSET_BASIS: u64 = 0xcbf2_9ce4_8422_2325;

pub const FNV_PRIME: u64 = 0x0000_0100_0000_01b3;

/// The FNV-1a hash of a sequence of bytes, on 64 bits.
pub open spec fn fnv(bytes: Seq<u8>) -> u64
    decreases bytes.len(),
{
    if bytes.len() == 0 {
        FNV_OFFSET_BASIS
    } else {
        (fnv(bytes.drop_last()) ^ (bytes.last() as u64)).wrapping_mul(FNV_PRIME)
    }
}

/// The digit of value `d`, in a base of at most 36.
pub open spec fn digit(d: int) -> char {
    if d < 10 {
        ('0' as u8 + d) as char
    } else {
        ('a' as u8 + (d - 10)) as char
    }
}

/// The digits of `n` in the given base, most significant first.
pub open spec fn numeral(n: nat, base: nat) -> Seq<char>
    decreases n,
{
    if n < base || base < 2 {
        seq![digit(n as int)]
    } else {
        proof {
            lemma_quotient_shrinks(n, base);
        }
        numeral(n / base, base).push(digit((n % base) as int))
    }
}

pub proof fn lemma_quotient_shrinks(n: nat, base: nat)
    requires
        2 <= base <= n,
    ensures
        0 < n / base < n,
{
    vstd::arithmetic::div_mod::lemma_div_decreases(n as int, base as int);
    vstd::arithmetic::div_mod::lemma_div_non_zero(n as int, base as int);
}

/// The text that names a place: `filename:lo:hi`.
pub open spec fn site_text(filename: Seq<char>, span: Span) -> Seq<char> {
    filename + ":"@ + numeral(span.lo as nat, 10) + ":"@ + numeral(span.hi as nat, 10)
}

/// The key of a place: `m`, and the hash of its text in base 36.
pub open spec fn site_key(filename: Seq<char>, span: Span) -> Seq<char> {
    "m"@ + numeral(fnv(vstd::utf8::encode_utf8(site_text(filename, span))) as nat, 36)
}

/// The FNV-1a hash of `bytes`, on 64 bits.
pub fn fnv1a64(bytes: &[u8]) -> (r: u64)
    ensures
        r == fnv(bytes@),
{
    let mut hash: u64 = FNV_OFFSET_BASIS;
    let mut i: usize = 0;
    while i < bytes.len()
        invariant
            i <= bytes@.len(),
            hash == fnv(bytes@.take(i as int)),
        decreases bytes.len() - i,
    {
        hash = (hash ^ (bytes[i] as u64)).wrapping_mul(FNV_PRIME);
        i += 1;
        assert(bytes@.take(i as int).drop_last() == bytes@.take(i - 1));
    }
    assert(bytes@.take(i as int) == bytes@);
    hash
}

fn digit_char(d: u8) -> (r: char)
    requires
        d < 36,
    ensures
        r == digit(d as int),
{
    if d < 10 {
        (48 + d) as char
    } else {
        (87 + d) as char
    }
}

fn to_base(n: u64, base: u64) -> (r: String)
    requires
        2 <= base <= 36,
    ensures
        r@ == numeral(n as nat, base as nat),
    decreases n,
{
    if n < base {
        let mut out = String::new();
        out.push(digit_char(n as u8));
        assert(out@ =~= seq![digit(n as int)]);
        out
    } else {
        proof {
            lemma_quotient_shrinks(n as nat, base as nat);
        }
        let mut out = to_base(n / base, base);
        out.push(digit_char((n % base) as u8));
        out
    }
}

/// The digits of `n` in base 36, in lower case.
pub fn to_base36(n: u64) -> (r: String)
    ensures
        r@ == numeral(n as nat, 36),
{
    to_base(n, 36)
}

/// The key of the call site at `span` in the file `filename`: `m`, and the
/// base-36 digits of the FNV-1a hash of `filename:lo:hi`.
pub fn call_site_key(filename: &str, span: Span) -> (r: String)
    ensures
        r@ == site_key(filename@, span),
{
    let mut input = filename.to_owned();
    input.append(":");
    input.append(to_base(span.lo as u64, 10).as_str());
    input.append(":");
    input.append(to_base(span.hi as u64, 10).as_str());
    let mut out = "m".to_owned();
    out.append(to_base36(fnv1a64(input.as_str().as_bytes())).as_str());
    out
}

proof fn lemma_digit_injective(a: int, b: int)
    requires
        0 <= a < 36,
        0 <= b < 36,
        digit(a) == digit(b),
    ensures
        a == b,
{
}

proof fn lemma_numeral_len(n: nat, base: nat)
    requires
        2 <= base,
    ensures
        numeral(n, base).len() >= 1,
        numeral(n, base).len() == 1 <==> n < base,
    decreases n,
{
    if n >= base {
        lemma_quotient_shrinks(n, base);
        lemma_numeral_len(n / base, base);
    }
}

/// Different numbers have different digits.
pub proof fn law_numeral_injective(a: nat, b: nat, base: nat)
    requires
        2 <= base <= 36,
        numeral(a, base) == numeral(b, base),
    ensures
        a == b,
    decreases a,
{
    lemma_numeral_len(a, base);
    lemma_numeral_len(b, base);
    let x = numeral(a, base);
    let y = numeral(b, base);
    if a < base {
        assert(x[0] == y[0]);
        lemma_digit_injective(a as int, b as int);
    } else {
        lemma_quotient_shrinks(a, base);
        lemma_quotient_shrinks(b, base);
        assert(x.drop_last() =~= numeral(a / base, base));
        assert(y.drop_last() =~= numeral(b / base, base));
        law_numeral_injective(a / base, b / base, base);
        assert(x.last() == y.last());
        lemma_digit_injective((a % base) as int, (b % base) as int);
        vstd::arithmetic::div_mod::lemma_fundamental_div_mod(a as int, base as int);
        vstd::arithmetic::div_mod::lemma_fundamental_div_mod(b as int, base as int);
    }
}

proof fn lemma_decimal_has_no_colon(n: nat)
    ensures
        forall|i: int| 0 <= i < numeral(n, 10).len() ==> #[trigger] numeral(n, 10)[i] != ':',
    decreases n,
{
    if n >= 10 {
        lemma_decimal_has_no_colon(n / 10);
        let rest = numeral(n / 10, 10);
        let all = numeral(n, 10);
        assert(all == rest.push(digit((n % 10) as int)));
        assert forall|i: int| 0 <= i < all.len() implies #[trigger] all[i] != ':' by {
            if i < rest.len() {
                assert(all[i] == rest[i]);
            }
        }
    }
}

/// A text splits at its last colon in one way only.
proof fn lemma_split_at_last_colon(x: Seq<char>, a: Seq<char>, y: Seq<char>, b: Seq<char>)
    requires
        x + ":"@ + a == y + ":"@ + b,
        forall|i: int| 0 <= i < a.len() ==> #[trigger] a[i] != ':',
        forall|i: int| 0 <= i < b.len() ==> #[trigger] b[i] != ':',
    ensures
        x == y,
        a == b,
{
    reveal_strlit(":");
    let s = x + ":"@ + a;
    let t = y + ":"@ + b;
    assert(s.len() == x.len() + 1 + a.len());
    assert(t.len() == y.len() + 1 + b.len());
    assert(s[x.len() as int] == ':');
    assert(t[y.len() as int] == ':');
    if x.len() < y.len() {
        assert(s[y.len() as int] == a[y.len() - x.len() - 1]);
    } else if y.len() < x.len() {
        assert(t[x.len() as int] == b[x.len() - y.len() - 1]);
    }
    assert(x =~= y) by {
        assert forall|i: int| 0 <= i < x.len() implies x[i] == y[i] by {
            assert(s[i] == x[i] && t[i] == y[i]);
        }
    }
    assert(a =~= b) by {
        assert forall|i: int| 0 <= i < a.len() implies a[i] == b[i] by {
            assert(s[x.len() + 1 + i] == a[i] && t[x.len() + 1 + i] == b[i]);
        }
    }
}

/// Two places share the text that is hashed only if they are one place: the
/// same file and the same span.
pub proof fn law_site_text_injective(f: Seq<char>, s: Span, g: Seq<char>, t: Span)
    requires
        site_text(f, s) == site_text(g, t),
    ensures
        f == g,
        s == t,
{
    lemma_decimal_has_no_colon(s.lo as nat);
    lemma_decimal_has_no_colon(s.hi as nat);
    lemma_decimal_has_no_colon(t.lo as nat);
    lemma_decimal_has_no_colon(t.hi as nat);
    lemma_split_at_last_colon(
        f + ":"@ + numeral(s.lo as nat, 10),
        numeral(s.hi as nat, 10),
        g + ":"@ + numeral(t.lo as nat, 10),
        numeral(t.hi as nat, 10),
    );
    lemma_split_at_last_colon(f, numeral(s.lo as nat, 10), g, numeral(t.lo as nat, 10));
    law_numeral_injective(s.lo as nat, t.lo as nat, 10);
    law_numeral_injective(s.hi as nat, t.hi as nat, 10);
}

/// Two places share a key exactly when the hashes of their texts collide.
pub proof fn law_site_key_names_hash(f: Seq<char>, s: Span, g: Seq<char>, t: Span)
    ensures
        site_key(f, s) == site_key(g, t) <==> fnv(vstd::utf8::encode_utf8(site_text(f, s))) == fnv(
            vstd::utf8::encode_utf8(site_text(g, t)),
        ),
{
    reveal_strlit("m");
    let a = numeral(fnv(vstd::utf8::encode_utf8(site_text(f, s))) as nat, 36);
    let b = numeral(fnv(vstd::utf8::encode_utf8(site_text(g, t))) as nat, 36);
    if site_key(f, s) == site_key(g, t) {
        assert(a =~= site_key(f, s).skip(1));
        assert(b =~= site_key(g, t).skip(1));
        law_numeral_injective(
            fnv(vstd::utf8::encode_utf8(site_text(f, s))) as nat,
            fnv(vstd::utf8::encode_utf8(site_text(g, t))) as nat,
            36,
        );
    }
}

/// The hash of no bytes is the offset basis. One more byte is first mixed in by
/// an exclusive or, and then spread by the multiplication, modulo 2^64.
pub proof fn law_hash_is_made_byte_by_byte(bytes: Seq<u8>, b: u8)
    ensures
        fnv(Seq::empty()) == 14695981039346656037u64,
        fnv(bytes.push(b)) == (fnv(bytes) ^ (b as u64)).wrapping_mul(1099511628211u64),
{
    assert(bytes.push(b).drop_last() =~= bytes);
}

/// The value of a digit, in a base of at most 36.
pub open spec fn digit_value(c: char) -> int {
    if '0' <= c && c <= '9' {
        c as int - '0' as int
    } else {
        c as int - 'a' as int + 10
    }
}

/// The number that a sequence of digits stands for.
pub open spec fn value_of(digits: Seq<char>, base: nat) -> int
    decreases digits.len(),
{
    if digits.len() == 0 {
        0
    } else {
        value_of(digits.drop_last(), base) * base + digit_value(digits.last())
    }
}

/// A digit below the base: `0` to `9`, and then `a` onwards.
pub open spec fn proper_digit(c: char, base: nat) -> bool {
    (('0' <= c && c <= '9') || ('a' <= c && c <= 'z')) && digit_value(c) < base
}

/// The numeral of a number reads back as the number. It is made of digits below
/// the base, and only the numeral of zero starts with a zero.
pub proof fn law_numerals_read_back(n: nat, base: nat)
    requires
        2 <= base <= 36,
    ensures
        value_of(numeral(n, base), base) == n,
        numeral(n, base).len() > 0,
        forall|i: int|
            0 <= i < numeral(n, base).len() ==> proper_digit(#[trigger] numeral(n, base)[i], base),
        numeral(n, base)[0] == '0' <==> n == 0,
    decreases n,
{
    let digits = numeral(n, base);
    if n < base {
        assert(digits.drop_last() =~= Seq::empty());
        assert(value_of(digits.drop_last(), base) == 0);
        assert(0 * base == 0) by (nonlinear_arith);
        assert(proper_digit(digits[0], base));
    } else {
        lemma_quotient_shrinks(n, base);
        law_numerals_read_back(n / base, base);
        let front = numeral(n / base, base);
        assert(digits.drop_last() =~= front);
        vstd::arithmetic::div_mod::lemma_fundamental_div_mod(n as int, base as int);
        vstd::arithmetic::div_mod::lemma_mod_bound(n as int, base as int);
        let low = (n % base) as int;
        assert(digits.last() == digit(low));
        assert(digit_value(digit(low)) == low);
        assert((n / base) * base == base * (n / base)) by (nonlinear_arith);
        assert forall|i: int| 0 <= i < digits.len() implies proper_digit(
            #[trigger] digits[i],
            base,
        ) by {
            if i < front.len() {
                assert(digits[i] == front[i]);
            }
        }
        assert(digits[0] == front[0]);
    }
}

/// The key of a place is `m` and digits in base 36 that read back as the hash
/// of the text `filename:lo:hi`, with both positions in decimal.
pub proof fn law_keys_hold_the_hash(filename: Seq<char>, span: Span)
    ensures
        ({
            let key = site_key(filename, span);
            let text = filename + seq![':'] + numeral(span.lo as nat, 10) + seq![':'] + numeral(
                span.hi as nat,
                10,
            );
            &&& key.len() > 1
            &&& key[0] == 'm'
            &&& value_of(key.skip(1), 36) == fnv(vstd::utf8::encode_utf8(text))
        }),
{
    reveal_strlit("m");
    reveal_strlit(":");
    let text = filename + seq![':'] + numeral(span.lo as nat, 10) + seq![':'] + numeral(
        span.hi as nat,
        10,
    );
    assert(":"@ =~= seq![':']);
    assert(site_text(filename, span) =~= text);
    let hash = fnv(vstd::utf8::encode_utf8(text));
    law_numerals_read_back(hash as nat, 36);
    assert("m"@ =~= seq!['m']);
    assert(site_key(filename, span).skip(1) =~= numeral(hash as nat, 36));
}

} // verus!
