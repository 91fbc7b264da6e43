use vstd::prelude::*;
use vstd::utf8::*;
use vstd::string::*;

verus! {

broadcast use vstd::seq::group_seq_axioms;

// ---------------------------------------------------------------------------
// std string operations that vstd does not specify
// ---------------------------------------------------------------------------

/// Appends one `char` (`String::push`): the text grows by exactly that char.
#[verifier::external_body]
pub(crate) fn push_char(s: &mut String, c: char)
    ensures
        final(s)@ == old(s)@.push(c),
{
    s.push(c);
}

/// The chars of a string slice, in order.
pub(crate) fn chars_of(s: &str) -> (chars: Vec<char>)
    ensures
        chars@ == s@,
{
    broadcast use vstd::string::axiom_spec_iter;
    let mut chars: Vec<char> = Vec::new();
    for c in it: s.chars()
        invariant
            it.seq() == s@,
            chars@ == it.seq().take(it.index() as int),
    {
        chars.push(c);
    }
    chars
}

/// `String::from_utf8`: succeeds exactly on valid UTF-8, and then holds the
/// chars those bytes encode.
#[verifier::external_body]
pub(crate) fn string_from_utf8(bytes: Vec<u8>) -> (s: Option<String>)
    ensures
        s is Some <==> valid_utf8(bytes@),
        s matches Some(text) ==> text@ == decode_utf8(bytes@),
{
    String::from_utf8(bytes).ok()
}

/// What `String::from_utf8_lossy` makes of a byte string: a function of the
/// bytes alone.
pub uninterp spec fn utf8_lossy(bytes: Seq<u8>) -> Seq<char>;

/// `String::from_utf8_lossy`, made owned: the text is the lossy decoding of
/// the bytes, which on valid UTF-8 is their plain decoding. How invalid
/// sequences are replaced is left to the name.
#[verifier::external_body]
pub(crate) fn string_from_utf8_lossy(bytes: &[u8]) -> (s: String)
    ensures
        s@ == utf8_lossy(bytes@),
        valid_utf8(bytes@) ==> s@ == decode_utf8(bytes@),
{
    String::from_utf8_lossy(bytes).into_owned()
}

/// The UTF-8 bytes of a string, copied out.
pub fn utf8_bytes(s: &str) -> (bytes: Vec<u8>)
    ensures
        bytes@ == encode_utf8(s@),
{
    let slice = s.as_bytes();
    let mut bytes: Vec<u8> = Vec::new();
    let mut i: usize = 0;
    while i < slice.len()
        invariant
            slice@ == encode_utf8(s@),
            0 <= i <= slice@.len(),
            bytes@ == slice@.take(i as int),
        decreases slice@.len() - i,
    {
        bytes.push(slice[i]);
        i = i + 1;
        assert(bytes@ =~= slice@.take(i as int));
    }
    assert(slice@.take(i as int) =~= slice@);
    bytes
}

/// Two strings are equal exactly when their UTF-8 encodings are.
pub proof fn lemma_utf8_injective(a: Seq<char>, b: Seq<char>)
    requires
        encode_utf8(a) == encode_utf8(b),
    ensures
        a == b,
{
    encode_utf8_decode_utf8(a);
    encode_utf8_decode_utf8(b);
}

/// Equality of two string slices, decided on their bytes.
pub fn str_eq(a: &str, b: &str) -> (equal: bool)
    ensures
        equal == (a@ == b@),
{
    let x = a.as_bytes();
    let y = b.as_bytes();
    if x.len() != y.len() {
        proof {
            if a@ == b@ {
                assert(x@ == y@);
            }
        }
        return false;
    }
    let mut i: usize = 0;
    while i < x.len()
        invariant
            x@ == encode_utf8(a@),
            y@ == encode_utf8(b@),
            x@.len() == y@.len(),
            0 <= i <= x@.len(),
            forall|k: int| 0 <= k < i ==> x@[k] == y@[k],
        decreases x@.len() - i,
    {
        if x[i] != y[i] {
            proof {
                if a@ == b@ {
                    assert(x@[i as int] == y@[i as int]);
                }
            }
            return false;
        }
        i = i + 1;
    }
    proof {
        assert(x@ =~= y@);
        lemma_utf8_injective(a@, b@);
    }
    true
}

/// Equality of a string and a sequence of chars held in a vector.
pub fn chars_eq(a: &[char], b: &[char]) -> (equal: bool)
    ensures
        equal == (a@ == b@),
{
    if a.len() != b.len() {
        return false;
    }
    let mut i: usize = 0;
    while i < a.len()
        invariant
            a@.len() == b@.len(),
            0 <= i <= a@.len(),
            forall|k: int| 0 <= k < i ==> a@[k] == b@[k],
        decreases a@.len() - i,
    {
        if a[i] != b[i] {
            return false;
        }
        i = i + 1;
    }
    assert(a@ =~= b@);
    true
}

/// Copies a sequence of chars into a new `String`.
pub fn string_of_chars(chars: &[char]) -> (s: String)
    ensures
        s@ == chars@,
{
    let mut s = String::new();
    let mut i: usize = 0;
    while i < chars.len()
        invariant
            0 <= i <= chars@.len(),
            s@ == chars@.take(i as int),
        decreases chars@.len() - i,
    {
        push_char(&mut s, chars[i]);
        i = i + 1;
        assert(s@ =~= chars@.take(i as int));
    }
    assert(chars@.take(i as int) =~= chars@);
    s
}

/// Appends a string slice to a string.
pub fn push_str(s: &mut String, tail: &str)
    ensures
        final(s)@ == old(s)@ + tail@,
{
    let chars = chars_of(tail);
    let ghost start = s@;
    let mut i: usize = 0;
    while i < chars.len()
        invariant
            chars@ == tail@,
            0 <= i <= chars@.len(),
            s@ == start + chars@.take(i as int),
        decreases chars@.len() - i,
    {
        push_char(s, chars[i]);
        i = i + 1;
        assert(s@ =~= start + chars@.take(i as int));
    }
    assert(chars@.take(i as int) =~= chars@);
}

/// Appends a sequence of chars to a string.
pub fn push_chars(s: &mut String, tail: &[char])
    ensures
        final(s)@ == old(s)@ + tail@,
{
    let ghost start = s@;
    let mut i: usize = 0;
    while i < tail.len()
        invariant
            0 <= i <= tail@.len(),
            s@ == start + tail@.take(i as int),
        decreases tail@.len() - i,
    {
        push_char(s, tail[i]);
        i = i + 1;
        assert(s@ =~= start + tail@.take(i as int));
    }
    assert(tail@.take(i as int) =~= tail@);
}

// ---------------------------------------------------------------------------
// Decimal numbers
// ---------------------------------------------------------------------------

pub open spec fn digit_char(d: int) -> char {
    (d + 48) as char
}

pub open spec fn is_digit(c: char) -> bool {
    '0' <= c && c <= '9'
}

pub open spec fn digit_value(c: char) -> int {
    c as int - 48
}

/// The decimal spelling of a natural number, most significant digit first,
/// without leading zeros.
pub open spec fn decimal(n: nat) -> Seq<char>
    decreases n,
{
    if n < 10 {
        seq![digit_char(n as int)]
    } else {
        decimal(n / 10).push(digit_char((n % 10) as int))
    }
}

/// The decimal spelling of an integer: a `-` before the magnitude of a
/// negative number.
pub open spec fn signed_decimal(n: int) -> Seq<char> {
    if n < 0 {
        seq!['-'] + decimal((-n) as nat)
    } else {
        decimal(n as nat)
    }
}

pub open spec fn all_digits(s: Seq<char>) -> bool {
    forall|i: int| 0 <= i < s.len() ==> is_digit(#[trigger] s[i])
}

/// The value of a string of decimal digits.
pub open spec fn digits_value(s: Seq<char>) -> nat
    decreases s.len(),
{
    if s.len() == 0 {
        0
    } else {
        digits_value(s.drop_last()) * 10 + (digit_value(s.last()) as nat)
    }
}

/// The digits of an unsigned number in text: an optional `+`, then at least
/// one digit.
pub open spec fn unsigned_digits(s: Seq<char>) -> Seq<char> {
    if s.len() > 0 && s[0] == '+' {
        s.drop_first()
    } else {
        s
    }
}

/// How `str::parse` reads an unsigned integer no greater than `max`: an
/// optional `+` and one or more decimal digits whose value is at most `max`.
pub open spec fn parse_unsigned(s: Seq<char>, max: nat) -> Option<nat> {
    let body = unsigned_digits(s);
    if body.len() > 0 && all_digits(body) && digits_value(body) <= max {
        Some(digits_value(body))
    } else {
        None
    }
}

/// How `str::parse` reads an `i64`: an optional sign and one or more decimal
/// digits whose signed value fits.
pub open spec fn parse_signed(s: Seq<char>) -> Option<int> {
    if s.len() > 0 && s[0] == '-' {
        let body = s.drop_first();
        if body.len() > 0 && all_digits(body) && digits_value(body) <= 0x8000_0000_0000_0000 {
            Some(-(digits_value(body) as int))
        } else {
            None
        }
    } else {
        match parse_unsigned(s, 0x7fff_ffff_ffff_ffff) {
            Some(v) => Some(v as int),
            None => None,
        }
    }
}

proof fn lemma_digit_char(d: int)
    requires
        0 <= d < 10,
    ensures
        is_digit(digit_char(d)),
        digit_value(digit_char(d)) == d,
        digit_char(d) != '+',
        digit_char(d) != '-',
{
}

/// The spelling of a number is all digits and reads back as that number.
pub proof fn lemma_decimal_digits(n: nat)
    ensures
        decimal(n).len() > 0,
        all_digits(decimal(n)),
        digits_value(decimal(n)) == n,
        decimal(n)[0] != '+',
        decimal(n)[0] != '-',
        n < 10 ==> decimal(n).len() == 1,
    decreases n,
{
    if n < 10 {
        lemma_digit_char(n as int);
        assert(decimal(n).drop_last() =~= Seq::<char>::empty());
        assert(digits_value(Seq::<char>::empty()) == 0);
        assert(digits_value(decimal(n)) == n);
    } else {
        lemma_decimal_digits(n / 10);
        lemma_digit_char((n % 10) as int);
        let s = decimal(n);
        assert(s.drop_last() =~= decimal(n / 10));
        assert(s.last() == digit_char((n % 10) as int));
        assert(digits_value(s) == digits_value(decimal(n / 10)) * 10 + (n % 10));
        assert((n / 10) * 10 + n % 10 == n);
        assert(digits_value(decimal(n)) == n);
    }
}

/// A number parses back from its own spelling.
pub proof fn lemma_parse_decimal(n: nat, max: nat)
    requires
        n <= max,
    ensures
        parse_unsigned(decimal(n), max) == Some(n),
{
    lemma_decimal_digits(n);
}

pub proof fn lemma_parse_signed_decimal(n: int)
    requires
        -0x8000_0000_0000_0000 <= n <= 0x7fff_ffff_ffff_ffff,
    ensures
        parse_signed(signed_decimal(n)) == Some(n),
{
    if n < 0 {
        lemma_decimal_digits((-n) as nat);
        assert((seq!['-'] + decimal((-n) as nat)).drop_first() =~= decimal((-n) as nat));
    } else {
        lemma_decimal_digits(n as nat);
    }
}

/// A longer digit string is worth at least as much as its prefix.
proof fn lemma_digits_value_prefix(s: Seq<char>, i: int)
    requires
        0 <= i <= s.len(),
        all_digits(s),
    ensures
        digits_value(s.take(i)) <= digits_value(s),
    decreases s.len() - i,
{
    if i < s.len() {
        lemma_digits_value_prefix(s, i + 1);
        let t = s.take(i + 1);
        assert(t.drop_last() =~= s.take(i));
        assert(is_digit(s[i]));
        assert(t.last() == s[i]);
        assert(digits_value(t) == digits_value(s.take(i)) * 10 + (digit_value(s[i]) as nat));
        assert(digits_value(s.take(i)) * 10 >= digits_value(s.take(i))) by (nonlinear_arith);
    } else {
        assert(s.take(i) =~= s);
    }
}

/// Appends the decimal spelling of `n`.
pub fn push_decimal(s: &mut String, n: u64)
    ensures
        final(s)@ == old(s)@ + decimal(n as nat),
    decreases n,
{
    if n >= 10 {
        push_decimal(s, n / 10);
    }
    let d: u8 = (n % 10) as u8;
    let c: char = (48u8 + d) as char;
    assert(c == digit_char((n % 10) as int));
    push_char(s, c);
    proof {
        if n >= 10 {
            assert(decimal(n as nat) == decimal((n / 10) as nat).push(digit_char((n % 10) as int)));
        } else {
            assert(decimal(n as nat) =~= seq![digit_char((n % 10) as int)]);
        }
    }
}

/// Appends the decimal spelling of a signed number.
pub fn push_signed_decimal(s: &mut String, n: i64)
    ensures
        final(s)@ == old(s)@ + signed_decimal(n as int),
{
    if n < 0 {
        push_char(s, '-');
        let magnitude: u64 = if n == i64::MIN {
            0x8000_0000_0000_0000u64
        } else {
            (-n) as u64
        };
        let ghost before = s@;
        push_decimal(s, magnitude);
        assert(s@ =~= old(s)@ + signed_decimal(n as int));
    } else {
        push_decimal(s, n as u64);
    }
}

/// Reads an unsigned number no greater than `max`, as `str::parse` does.
pub fn parse_unsigned_chars(s: &[char], max: u64) -> (value: Option<u64>)
    ensures
        value matches Some(v) ==> parse_unsigned(s@, max as nat) == Some(v as nat),
        value is None ==> parse_unsigned(s@, max as nat) is None,
{
    let start: usize = if s.len() > 0 && s[0] == '+' {
        1
    } else {
        0
    };
    let ghost body = unsigned_digits(s@);
    assert(body =~= s@.subrange(start as int, s@.len() as int));
    if start >= s.len() {
        return None;
    }
    let mut acc: u64 = 0;
    let mut i: usize = start;
    while i < s.len()
        invariant
            body == s@.subrange(start as int, s@.len() as int),
            body == unsigned_digits(s@),
            start <= i <= s@.len(),
            start < s@.len(),
            all_digits(body.take(i - start)),
            acc as nat == digits_value(body.take(i - start)),
            acc <= max,
        decreases s@.len() - i,
    {
        let c = s[i];
        assert(body[i - start] == c);
        if !('0' <= c && c <= '9') {
            proof {
                assert(!is_digit(body[i - start]));
                assert(!all_digits(body));
            }
            return None;
        }
        let d: u64 = ((c as u32) - 48) as u64;
        let ghost prefix = body.take(i - start + 1);
        assert(prefix.drop_last() =~= body.take(i - start));
        assert(prefix.last() == c);
        assert(all_digits(prefix));
        assert(digit_value(c) == d as int);
        assert(digits_value(prefix) == digits_value(prefix.drop_last()) * 10 + (digit_value(prefix.last()) as nat));
        assert(digits_value(prefix) == acc * 10 + d);
        if acc > max / 10 || (acc == max / 10 && d > max % 10) {
            proof {
                assert(digits_value(prefix) > max) by (nonlinear_arith)
                    requires
                        digits_value(prefix) == acc * 10 + d,
                        acc > max / 10 || (acc == max / 10 && d > max % 10),
                        d < 10,
                ;
                if all_digits(body) {
                    lemma_digits_value_prefix(body, i - start + 1);
                    assert(digits_value(body) > max);
                }
                assert(parse_unsigned(s@, max as nat) is None);
            }
            return None;
        }
        assert(acc * 10 + d <= max) by (nonlinear_arith)
            requires
                !(acc > max / 10 || (acc == max / 10 && d > max % 10)),
                d < 10,
        ;
        acc = acc * 10 + d;
        i = i + 1;
    }
    assert(body.take(i - start) =~= body);
    Some(acc)
}

/// Reads an `i64`, as `str::parse` does.
pub fn parse_signed_chars(s: &[char]) -> (value: Option<i64>)
    ensures
        value matches Some(v) ==> parse_signed(s@) == Some(v as int),
        value is None ==> parse_signed(s@) is None,
{
    if s.len() > 0 && s[0] == '-' {
        let mut body: Vec<char> = Vec::new();
        let mut i: usize = 1;
        while i < s.len()
            invariant
                1 <= i <= s@.len(),
                body@ == s@.subrange(1, i as int),
            decreases s@.len() - i,
        {
            body.push(s[i]);
            i = i + 1;
            assert(body@ =~= s@.subrange(1, i as int));
        }
        assert(body@ =~= s@.drop_first());
        if body.len() > 0 && body[0] == '+' {
            // a second sign is not a digit
            proof {
                assert(!is_digit(body@[0]));
            }
            return None;
        }
        assert(unsigned_digits(body@) == body@);
        match parse_unsigned_chars(body.as_slice(), 0x8000_0000_0000_0000u64) {
            Some(v) => {
                if v == 0x8000_0000_0000_0000u64 {
                    Some(i64::MIN)
                } else {
                    Some(-(v as i64))
                }
            },
            None => None,
        }
    } else {
        match parse_unsigned_chars(s, 0x7fff_ffff_ffff_ffffu64) {
            Some(v) => Some(v as i64),
            None => None,
        }
    }
}

// ---------------------------------------------------------------------------
// Hexadecimal bytes
// ---------------------------------------------------------------------------

/// The lower-case hex digit of a value below 16.
pub open spec fn hex_digit(v: int) -> char {
    if v < 10 {
        (v + 48) as char
    } else {
        (v + 87) as char
    }
}

/// The value of a hex digit of either case.
pub open spec fn hex_value(c: char) -> Option<u8> {
    if '0' <= c && c <= '9' {
        Some((c as int - 48) as u8)
    } else if 'a' <= c && c <= 'f' {
        Some((c as int - 87) as u8)
    } else if 'A' <= c && c <= 'F' {
        Some((c as int - 55) as u8)
    } else {
        None
    }
}

/// Two lower-case hex digits per byte, high nibble first.
pub open spec fn hex_of(bytes: Seq<u8>) -> Seq<char> {
    Seq::new(
        2 * bytes.len(),
        |i: int|
            if i % 2 == 0 {
                hex_digit(bytes[i / 2] as int / 16)
            } else {
                hex_digit(bytes[i / 2] as int % 16)
            },
    )
}

/// Text of hex digit pairs read back into bytes; `None` for an odd length or
/// a char that is not a hex digit.
pub open spec fn hex_decode(s: Seq<char>) -> Option<Seq<u8>> {
    if s.len() % 2 == 0 && forall|i: int| 0 <= i < s.len() ==> (#[trigger] hex_value(s[i])) is Some {
        Some(
            Seq::new(
                s.len() / 2,
                |i: int|
                    (hex_value(s[2 * i])->0 as int * 16 + hex_value(s[2 * i + 1])->0 as int) as u8,
            ),
        )
    } else {
        None
    }
}

proof fn lemma_hex_digit(v: int)
    requires
        0 <= v < 16,
    ensures
        hex_value(hex_digit(v)) == Some(v as u8),
        hex_digit(v) != ' ',
        hex_digit(v) != '\n',
        hex_digit(v) != '\r',
        hex_digit(v) != '-',
{
}

/// Bytes come back unchanged through their hex spelling.
pub proof fn lemma_hex_round_trip(bytes: Seq<u8>)
    ensures
        hex_decode(hex_of(bytes)) == Some(bytes),
{
    let s = hex_of(bytes);
    assert forall|i: int| 0 <= i < s.len() implies (#[trigger] hex_value(s[i])) is Some by {
        if i % 2 == 0 {
            lemma_hex_digit(bytes[i / 2] as int / 16);
        } else {
            lemma_hex_digit(bytes[i / 2] as int % 16);
        }
    }
    let decoded = hex_decode(s)->0;
    assert forall|i: int| 0 <= i < bytes.len() implies decoded[i] == bytes[i] by {
        lemma_hex_digit(bytes[i] as int / 16);
        lemma_hex_digit(bytes[i] as int % 16);
        assert((2 * i) / 2 == i);
        assert((2 * i + 1) / 2 == i);
        assert((2 * i) % 2 == 0);
        assert((2 * i + 1) % 2 == 1);
    }
    assert(decoded =~= bytes);
}

/// Hex spelling contains no separator of the state text.
pub proof fn lemma_hex_chars(bytes: Seq<u8>)
    ensures
        forall|i: int|
            0 <= i < hex_of(bytes).len() ==> {
                &&& #[trigger] hex_of(bytes)[i] != ' '
                &&& hex_of(bytes)[i] != '\n'
                &&& hex_of(bytes)[i] != '\r'
                &&& hex_of(bytes)[i] != '-'
            },
{
    assert forall|i: int| 0 <= i < hex_of(bytes).len() implies {
        &&& #[trigger] hex_of(bytes)[i] != ' '
        &&& hex_of(bytes)[i] != '\n'
        &&& hex_of(bytes)[i] != '\r'
        &&& hex_of(bytes)[i] != '-'
    } by {
        if i % 2 == 0 {
            lemma_hex_digit(bytes[i / 2] as int / 16);
        } else {
            lemma_hex_digit(bytes[i / 2] as int % 16);
        }
    }
}

fn hex_digit_char(v: u8) -> (c: char)
    requires
        v < 16,
    ensures
        c == hex_digit(v as int),
{
    if v < 10 {
        (48u8 + v) as char
    } else {
        (87u8 + v) as char
    }
}

/// Appends the hex spelling of some bytes.
pub fn push_hex(s: &mut String, bytes: &[u8])
    ensures
        final(s)@ == old(s)@ + hex_of(bytes@),
{
    let ghost start = s@;
    let mut i: usize = 0;
    while i < bytes.len()
        invariant
            0 <= i <= bytes@.len(),
            s@ == start + hex_of(bytes@.take(i as int)),
        decreases bytes@.len() - i,
    {
        let b = bytes[i];
        let ghost before = s@;
        push_char(s, hex_digit_char(b / 16));
        push_char(s, hex_digit_char(b % 16));
        i = i + 1;
        proof {
            let t = bytes@.take(i as int);
            let p = bytes@.take(i - 1);
            assert(hex_of(t) =~= hex_of(p) + seq![hex_digit(b as int / 16), hex_digit(b as int % 16)]) by {
                assert forall|k: int| 0 <= k < hex_of(t).len() implies hex_of(t)[k] == (hex_of(p) + seq![hex_digit(b as int / 16), hex_digit(b as int % 16)])[k] by {
                    if k < 2 * p.len() {
                        assert(k / 2 < p.len());
                    } else {
                        assert(k / 2 == p.len());
                    }
                }
            }
            assert(s@ =~= start + hex_of(bytes@.take(i as int)));
        }
    }
    assert(bytes@.take(i as int) =~= bytes@);
}

fn hex_value_of(c: char) -> (v: Option<u8>)
    ensures
        v == hex_value(c),
{
    if '0' <= c && c <= '9' {
        Some(((c as u32) - 48) as u8)
    } else if 'a' <= c && c <= 'f' {
        Some(((c as u32) - 87) as u8)
    } else if 'A' <= c && c <= 'F' {
        Some(((c as u32) - 55) as u8)
    } else {
        None
    }
}

/// Reads hex digit pairs back into bytes.
pub fn decode_hex(s: &[char]) -> (bytes: Option<Vec<u8>>)
    ensures
        bytes matches Some(b) ==> hex_decode(s@) == Some(b@),
        bytes is None ==> hex_decode(s@) is None,
{
    if s.len() % 2 != 0 {
        return None;
    }
    let mut out: Vec<u8> = Vec::new();
    let mut i: usize = 0;
    while i < s.len() / 2
        invariant
            s@.len() % 2 == 0,
            0 <= i <= s@.len() / 2,
            forall|k: int| 0 <= k < 2 * i ==> (#[trigger] hex_value(s@[k])) is Some,
            out@.len() == i,
            forall|k: int|
                0 <= k < i ==> #[trigger] out@[k] == (hex_value(s@[2 * k])->0 as int * 16
                    + hex_value(s@[2 * k + 1])->0 as int) as u8,
        decreases s@.len() / 2 - i,
    {
        let hi = hex_value_of(s[2 * i]);
        let lo = hex_value_of(s[2 * i + 1]);
        match (hi, lo) {
            (Some(h), Some(l)) => {
                out.push(h * 16 + l);
                i = i + 1;
                assert forall|k: int| 0 <= k < 2 * i implies (#[trigger] hex_value(s@[k])) is Some by {
                    if k >= 2 * i - 2 {
                        assert(k == 2 * (i - 1) || k == 2 * (i - 1) + 1);
                    }
                }
            },
            _ => {
                return None;
            },
        }
    }
    assert(out@ =~= hex_decode(s@)->0);
    Some(out)
}

// ---------------------------------------------------------------------------
// Joining and splitting on a separator
// ---------------------------------------------------------------------------

/// The parts written one after another with `sep` between neighbours.
pub open spec fn join_with(parts: Seq<Seq<char>>, sep: char) -> Seq<char>
    decreases parts.len(),
{
    if parts.len() == 0 {
        Seq::empty()
    } else if parts.len() == 1 {
        parts[0]
    } else {
        join_with(parts.drop_last(), sep) + seq![sep] + parts.last()
    }
}

/// The pieces of a text between occurrences of `sep`, as `str::split` gives
/// them: one more piece than there are separators.
pub open spec fn split_on(s: Seq<char>, sep: char) -> Seq<Seq<char>>
    decreases s.len(),
{
    if s.len() == 0 {
        seq![Seq::empty()]
    } else {
        let pieces = split_on(s.drop_last(), sep);
        if s.last() == sep {
            pieces.push(Seq::empty())
        } else {
            pieces.update(pieces.len() - 1, pieces.last().push(s.last()))
        }
    }
}

pub open spec fn free_of(s: Seq<char>, c: char) -> bool {
    forall|i: int| 0 <= i < s.len() ==> #[trigger] s[i] != c
}

pub proof fn lemma_split_on_len(s: Seq<char>, sep: char)
    ensures
        split_on(s, sep).len() >= 1,
    decreases s.len(),
{
    if s.len() > 0 {
        lemma_split_on_len(s.drop_last(), sep);
    }
}

/// Splitting `prefix + [sep] + tail` where the tail holds no separator adds
/// exactly one piece, the tail.
proof fn lemma_split_on_tail(prefix: Seq<char>, tail: Seq<char>, sep: char)
    requires
        free_of(tail, sep),
    ensures
        split_on(prefix + seq![sep] + tail, sep) == split_on(prefix, sep).push(tail),
    decreases tail.len(),
{
    let whole = prefix + seq![sep] + tail;
    if tail.len() == 0 {
        assert(whole.drop_last() =~= prefix);
        assert(tail =~= Seq::<char>::empty());
    } else {
        let front = tail.drop_last();
        assert forall|i: int| 0 <= i < front.len() implies #[trigger] front[i] != sep by {
            assert(front[i] == tail[i]);
        }
        lemma_split_on_tail(prefix, front, sep);
        assert(whole.drop_last() =~= prefix + seq![sep] + front);
        assert(whole.last() == tail.last());
        assert(tail.last() == tail[tail.len() - 1]);
        let shorter = split_on(prefix, sep).push(front);
        assert(front.push(tail.last()) =~= tail);
        assert(shorter.update(shorter.len() - 1, shorter.last().push(tail.last()))
            =~= split_on(prefix, sep).push(tail));
    }
}

/// A single piece free of the separator splits to itself.
proof fn lemma_split_on_single(s: Seq<char>, sep: char)
    requires
        free_of(s, sep),
    ensures
        split_on(s, sep) == seq![s],
    decreases s.len(),
{
    if s.len() > 0 {
        let front = s.drop_last();
        assert forall|i: int| 0 <= i < front.len() implies #[trigger] front[i] != sep by {
            assert(front[i] == s[i]);
        }
        lemma_split_on_single(front, sep);
        assert(s.last() == s[s.len() - 1]);
        assert(front.push(s.last()) =~= s);
        assert(seq![front].update(0, front.push(s.last())) =~= seq![s]);
    } else {
        assert(s =~= Seq::<char>::empty());
    }
}

/// Splitting undoes joining when no part holds the separator.
pub proof fn lemma_split_join(parts: Seq<Seq<char>>, sep: char)
    requires
        parts.len() >= 1,
        forall|i: int| 0 <= i < parts.len() ==> free_of(#[trigger] parts[i], sep),
    ensures
        split_on(join_with(parts, sep), sep) == parts,
    decreases parts.len(),
{
    if parts.len() == 1 {
        lemma_split_on_single(parts[0], sep);
        assert(seq![parts[0]] =~= parts);
    } else {
        let front = parts.drop_last();
        assert forall|i: int| 0 <= i < front.len() implies free_of(#[trigger] front[i], sep) by {
            assert(front[i] == parts[i]);
        }
        lemma_split_join(front, sep);
        assert(free_of(parts[parts.len() - 1], sep));
        lemma_split_on_tail(join_with(front, sep), parts.last(), sep);
        assert(front.push(parts.last()) =~= parts);
    }
}

/// Joining one more part adds a separator and the part.
pub proof fn lemma_join_push(parts: Seq<Seq<char>>, part: Seq<char>, sep: char)
    ensures
        join_with(parts.push(part), sep) == if parts.len() == 0 {
            part
        } else {
            join_with(parts, sep) + seq![sep] + part
        },
{
    assert(parts.push(part).drop_last() =~= parts);
}

/// One step of a left-to-right scan: the pieces of `s` extended by one char.
proof fn lemma_split_on_step(s: Seq<char>, c: char, sep: char)
    ensures
        split_on(s.push(c), sep) == if c == sep {
            split_on(s, sep).push(Seq::empty())
        } else {
            let p = split_on(s, sep);
            p.update(p.len() - 1, p.last().push(c))
        },
{
    assert(s.push(c).drop_last() =~= s);
}

/// The ranges `(start, end)` of `s` between occurrences of `sep` within
/// `s[lo..hi]`, each piece as `split_on` gives it.
pub fn split_ranges(s: &[char], lo: usize, hi: usize, sep: char) -> (ranges: Vec<(usize, usize)>)
    requires
        lo <= hi <= s@.len(),
    ensures
        ranges@.len() == split_on(s@.subrange(lo as int, hi as int), sep).len(),
        forall|k: int|
            0 <= k < ranges@.len() ==> {
                &&& lo <= (#[trigger] ranges@[k]).0 <= ranges@[k].1 <= hi
                &&& s@.subrange(ranges@[k].0 as int, ranges@[k].1 as int) == split_on(
                    s@.subrange(lo as int, hi as int),
                    sep,
                )[k]
            },
{
    let mut ranges: Vec<(usize, usize)> = Vec::new();
    let mut start: usize = lo;
    let mut i: usize = lo;
    proof {
        assert(s@.subrange(lo as int, lo as int) =~= Seq::<char>::empty());
    }
    while i < hi
        invariant
            lo <= start <= i <= hi <= s@.len(),
            split_on(s@.subrange(lo as int, i as int), sep).len() == ranges@.len() + 1,
            split_on(s@.subrange(lo as int, i as int), sep).last() == s@.subrange(
                start as int,
                i as int,
            ),
            forall|k: int|
                0 <= k < ranges@.len() ==> {
                    &&& lo <= (#[trigger] ranges@[k]).0 <= ranges@[k].1 <= start
                    &&& s@.subrange(ranges@[k].0 as int, ranges@[k].1 as int) == split_on(
                        s@.subrange(lo as int, i as int),
                        sep,
                    )[k]
                },
        decreases hi - i,
    {
        let c = s[i];
        let ghost before = split_on(s@.subrange(lo as int, i as int), sep);
        proof {
            assert(s@.subrange(lo as int, i + 1) =~= s@.subrange(lo as int, i as int).push(c));
            lemma_split_on_step(s@.subrange(lo as int, i as int), c, sep);
        }
        if c == sep {
            ranges.push((start, i));
            start = i + 1;
            proof {
                assert(s@.subrange(start as int, i + 1) =~= Seq::<char>::empty());
            }
        } else {
            proof {
                assert(s@.subrange(start as int, i + 1) =~= s@.subrange(start as int, i as int).push(c));
            }
        }
        i = i + 1;
    }
    ranges.push((start, hi));
    ranges
}

// ---------------------------------------------------------------------------
// Lines
// ---------------------------------------------------------------------------

/// A line with one trailing carriage return removed, if it has one.
pub open spec fn strip_cr(line: Seq<char>) -> Seq<char> {
    if line.len() > 0 && line.last() == '\r' {
        line.drop_last()
    } else {
        line
    }
}

/// The lines of a text as `str::lines` yields them: split at `\n`, a `\r`
/// right before a `\n` dropped, and no empty line after a final `\n`.
pub open spec fn text_lines(s: Seq<char>) -> Seq<Seq<char>> {
    let p = split_on(s, '\n');
    let ended = Seq::new((p.len() - 1) as nat, |k: int| strip_cr(p[k]));
    if p.last().len() == 0 {
        ended
    } else {
        ended.push(p.last())
    }
}

/// Each line followed by `\n`.
pub open spec fn terminated(lines: Seq<Seq<char>>) -> Seq<char>
    decreases lines.len(),
{
    if lines.len() == 0 {
        Seq::empty()
    } else {
        terminated(lines.drop_last()) + lines.last() + seq!['\n']
    }
}

/// A line that reads back as itself: no line feed, no trailing carriage return.
pub open spec fn plain_line(line: Seq<char>) -> bool {
    &&& free_of(line, '\n')
    &&& strip_cr(line) == line
}

proof fn lemma_terminated_join(lines: Seq<Seq<char>>)
    requires
        lines.len() >= 1,
    ensures
        terminated(lines) == join_with(lines, '\n').push('\n'),
    decreases lines.len(),
{
    if lines.len() == 1 {
        assert(terminated(lines.drop_last()) =~= Seq::<char>::empty());
        assert(terminated(lines) =~= join_with(lines, '\n').push('\n'));
    } else {
        lemma_terminated_join(lines.drop_last());
        assert(terminated(lines) =~= join_with(lines, '\n').push('\n'));
    }
}

/// Writing lines each followed by `\n` and reading the lines back gives them.
pub proof fn lemma_lines_round_trip(lines: Seq<Seq<char>>)
    requires
        forall|k: int| 0 <= k < lines.len() ==> plain_line(#[trigger] lines[k]),
    ensures
        text_lines(terminated(lines)) == lines,
{
    if lines.len() == 0 {
        assert(split_on(terminated(lines), '\n') =~= seq![Seq::<char>::empty()]);
        assert(text_lines(terminated(lines)) =~= lines);
    } else {
        lemma_terminated_join(lines);
        assert forall|k: int| 0 <= k < lines.len() implies free_of(#[trigger] lines[k], '\n') by {
            assert(plain_line(lines[k]));
        }
        lemma_split_join(lines, '\n');
        lemma_split_on_step(join_with(lines, '\n'), '\n', '\n');
        let p = split_on(terminated(lines), '\n');
        assert(p == lines.push(Seq::<char>::empty()));
        assert forall|k: int| 0 <= k < lines.len() implies strip_cr(p[k]) == lines[k] by {
            assert(plain_line(lines[k]));
        }
        assert(text_lines(terminated(lines)) =~= lines);
    }
}

/// The ranges of the lines of `s`, in order, as `text_lines` gives them.
pub fn line_ranges(s: &[char]) -> (ranges: Vec<(usize, usize)>)
    ensures
        ranges@.len() == text_lines(s@).len(),
        forall|k: int|
            0 <= k < ranges@.len() ==> {
                &&& (#[trigger] ranges@[k]).0 <= ranges@[k].1 <= s@.len()
                &&& s@.subrange(ranges@[k].0 as int, ranges@[k].1 as int) == text_lines(s@)[k]
            },
{
    let pieces = split_ranges(s, 0, s.len(), '\n');
    let ghost p = split_on(s@, '\n');
    proof {
        assert(s@.subrange(0, s@.len() as int) =~= s@);
        lemma_split_on_len(s@, '\n');
    }
    let n = pieces.len() - 1;
    let mut ranges: Vec<(usize, usize)> = Vec::new();
    let mut k: usize = 0;
    while k < n
        invariant
            n + 1 == pieces@.len() == p.len(),
            p == split_on(s@, '\n'),
            k <= n,
            ranges@.len() == k,
            forall|j: int|
                0 <= j < pieces@.len() ==> {
                    &&& (#[trigger] pieces@[j]).0 <= pieces@[j].1 <= s@.len()
                    &&& s@.subrange(pieces@[j].0 as int, pieces@[j].1 as int) == p[j]
                },
            forall|j: int|
                0 <= j < k ==> {
                    &&& (#[trigger] ranges@[j]).0 <= ranges@[j].1 <= s@.len()
                    &&& s@.subrange(ranges@[j].0 as int, ranges@[j].1 as int) == strip_cr(p[j])
                },
        decreases n - k,
    {
        let (a, b) = pieces[k];
        let ghost piece = p[k as int];
        if b > a && s[b - 1] == '\r' {
            proof {
                assert(piece.last() == s@[b - 1]);
                assert(s@.subrange(a as int, b - 1) =~= piece.drop_last());
            }
            ranges.push((a, b - 1));
        } else {
            ranges.push((a, b));
        }
        k = k + 1;
    }
    let (a, b) = pieces[n];
    if b > a {
        ranges.push((a, b));
    }
    proof {
        let lines = text_lines(s@);
        assert(lines.len() == ranges@.len());
        assert forall|j: int| 0 <= j < ranges@.len() implies s@.subrange(
            ranges@[j].0 as int,
            ranges@[j].1 as int,
        ) == lines[j] by {
            if j < n {
                assert(lines[j] == strip_cr(p[j]));
            }
        }
    }
    ranges
}

} // verus!
