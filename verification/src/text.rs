//! Text primitives shared by the frame reader and the command parser:
//! string comparison, whitespace trimming, decimal numbers, byte-length
//! prefixes and lower-casing.

use vstd::prelude::*;
use vstd::string::*;
use vstd::utf8::*;

verus! {

/// Compares two string slices byte by byte.
pub fn str_eq(a: &str, b: &str) -> (r: bool)
    ensures
        r == (a@ == b@),
{
    let x = a.as_bytes();
    let y = b.as_bytes();
    proof {
        encode_utf8_decode_utf8(a@);
        encode_utf8_decode_utf8(b@);
    }
    if x.len() != y.len() {
        return false;
    }
    let mut i: usize = 0;
    while i < x.len()
        invariant
            i <= x@.len(),
            x@.len() == y@.len(),
            x@ == encode_utf8(a@),
            y@ == encode_utf8(b@),
            forall|j: int| 0 <= j < i ==> x@[j] == y@[j],
        decreases x@.len() - i,
    {
        if x[i] != y[i] {
            return false;
        }
        i += 1;
    }
    proof {
        assert(x@ =~= y@);
    }
    true
}

/// The characters of `s`, in order.
pub fn chars_of(s: &str) -> (v: Vec<char>)
    ensures
        v@ == s@,
{
    broadcast use vstd::string::group_string_axioms;

    let chars = s.chars();
    let mut v: Vec<char> = Vec::new();
    for c in it: chars
        invariant
            it.seq() == s@,
            v@ == it.seq().take(it.index()),
    {
        v.push(c);
        proof {
            assert(v@ =~= it.seq().take(it.index() + 1));
        }
    }
    proof {
        assert(v@ =~= s@);
    }
    v
}

/// Whether `c` is white space: the code points that carry the Unicode
/// property `White_Space`.
pub open spec fn is_whitespace(c: char) -> bool {
    let u = c as u32;
    ||| 0x09 <= u <= 0x0D
    ||| u == 0x20
    ||| u == 0x85
    ||| u == 0xA0
    ||| u == 0x1680
    ||| 0x2000 <= u <= 0x200A
    ||| u == 0x2028
    ||| u == 0x2029
    ||| u == 0x202F
    ||| u == 0x205F
    ||| u == 0x3000
}

/// `s` without the white space it starts with.
pub open spec fn trim_start(s: Seq<char>) -> Seq<char>
    decreases s.len(),
{
    if s.len() > 0 && is_whitespace(s.first()) {
        trim_start(s.drop_first())
    } else {
        s
    }
}

/// `s` without the white space it ends with.
pub open spec fn trim_end(s: Seq<char>) -> Seq<char>
    decreases s.len(),
{
    if s.len() > 0 && is_whitespace(s.last()) {
        trim_end(s.drop_last())
    } else {
        s
    }
}

/// `s` without the white space around it.
pub open spec fn trimmed(s: Seq<char>) -> Seq<char> {
    trim_end(trim_start(s))
}

/// Where the first `a` characters of `s` are white space and the next one
/// is not, trimming the start leaves what follows them.
pub proof fn lemma_trim_start(s: Seq<char>, a: int)
    requires
        0 <= a <= s.len(),
        forall|j: int| 0 <= j < a ==> is_whitespace(#[trigger] s[j]),
        a < s.len() ==> !is_whitespace(s[a]),
    ensures
        trim_start(s) == s.skip(a),
    decreases a,
{
    if a == 0 {
        assert(s.skip(0) =~= s);
    } else {
        let rest = s.drop_first();
        assert forall|j: int| 0 <= j < a - 1 implies is_whitespace(#[trigger] rest[j]) by {
            assert(rest[j] == s[j + 1]);
        }
        lemma_trim_start(rest, a - 1);
        assert(rest.skip(a - 1) =~= s.skip(a));
    }
}

/// Where the characters of `s` from the index `b` on are white space and
/// the one before them is not, trimming the end leaves the first `b`.
pub proof fn lemma_trim_end(s: Seq<char>, b: int)
    requires
        0 <= b <= s.len(),
        forall|j: int| b <= j < s.len() ==> is_whitespace(#[trigger] s[j]),
        b > 0 ==> !is_whitespace(s[b - 1]),
    ensures
        trim_end(s) == s.take(b),
    decreases s.len() - b,
{
    if b == s.len() {
        assert(s.take(b) =~= s);
    } else {
        let rest = s.drop_last();
        lemma_trim_end(rest, b);
        assert(rest.take(b) =~= s.take(b));
    }
}

/// Whether `c` is white space.
pub fn is_space(c: char) -> (r: bool)
    ensures
        r == is_whitespace(c),
{
    let u: u32 = c as u32;
    (0x09 <= u && u <= 0x0D) || u == 0x20 || u == 0x85 || u == 0xA0 || u == 0x1680 || (0x2000 <= u
        && u <= 0x200A) || u == 0x2028 || u == 0x2029 || u == 0x202F || u == 0x205F || u == 0x3000
}

/// The slice of `s` between the white space it starts with and the white
/// space it ends with.
pub fn trim(s: &str) -> (t: &str)
    ensures
        t@ == trimmed(s@),
{
    broadcast use vstd::string::group_string_axioms;

    let n: usize = s.unicode_len();
    let chars = s.chars();
    let mut found = false;
    let mut start: usize = 0;
    let mut end: usize = 0;
    let mut i: usize = 0;
    for c in it: chars
        invariant
            it.seq() == s@,
            n == s@.len(),
            i == it.index(),
            !found ==> forall|j: int| 0 <= j < i ==> is_whitespace(#[trigger] s@[j]),
            found ==> forall|j: int| 0 <= j < start ==> is_whitespace(#[trigger] s@[j]),
            found ==> start < end <= i,
            found ==> !is_whitespace(s@[start as int]) && !is_whitespace(s@[end - 1]),
            found ==> forall|j: int| end <= j < i ==> is_whitespace(#[trigger] s@[j]),
    {
        if !is_space(c) {
            if !found {
                found = true;
                start = i;
            }
            end = i + 1;
        }
        i += 1;
    }
    if found {
        proof {
            lemma_trim_start(s@, start as int);
            let rest = s@.skip(start as int);
            assert forall|j: int| end - start <= j < rest.len() implies is_whitespace(
                #[trigger] rest[j],
            ) by {
                assert(rest[j] == s@[j + start]);
            }
            lemma_trim_end(rest, end - start);
            assert(rest.take(end - start) =~= s@.subrange(start as int, end as int));
        }
        s.substring_char(start, end)
    } else {
        proof {
            lemma_trim_start(s@, n as int);
            lemma_trim_end(s@.skip(n as int), 0);
            assert(s@.skip(n as int).take(0) =~= s@.subrange(0, 0));
        }
        s.substring_char(0, 0)
    }
}

/// Whether `c` is one of the digits `0` to `9`.
pub open spec fn is_digit(c: char) -> bool {
    '0' <= c <= '9'
}

/// The number that the digit `c` stands for.
pub open spec fn digit_value(c: char) -> nat {
    if is_digit(c) {
        (c as u32 - '0' as u32) as nat
    } else {
        0
    }
}

/// The digit that stands for `d`, a number below ten.
pub open spec fn digit_char(d: nat) -> char {
    (d + '0' as u32) as char
}

/// Whether `s` holds digits only.
pub open spec fn all_digits(s: Seq<char>) -> bool {
    forall|i: int| 0 <= i < s.len() ==> is_digit(#[trigger] s[i])
}

/// The number that the digits `s` denote in base ten; zero for no digits.
pub open spec fn digits_value(s: Seq<char>) -> nat
    decreases s.len(),
{
    if s.len() == 0 {
        0
    } else {
        digits_value(s.drop_last()) * 10 + digit_value(s.last())
    }
}

/// The digits of an unsigned decimal number: `s` itself, or what follows
/// the one `+` that it may start with.
pub open spec fn unsigned_digits(s: Seq<char>) -> Seq<char> {
    if s.len() > 0 && s[0] == '+' {
        s.skip(1)
    } else {
        s
    }
}

/// The number that `s` denotes as an unsigned decimal number: an optional
/// `+` and then one digit or more, nothing before, between or after. Other
/// texts denote none.
pub open spec fn decimal_value(s: Seq<char>) -> Option<nat> {
    let digits = unsigned_digits(s);
    if digits.len() > 0 && all_digits(digits) {
        Some(digits_value(digits))
    } else {
        None
    }
}

/// The number that `s` denotes, where it denotes one that is at most
/// `max`.
pub open spec fn decimal_up_to(s: Seq<char>, max: nat) -> Option<nat> {
    match decimal_value(s) {
        Some(v) => if v <= max {
            Some(v)
        } else {
            None
        },
        None => None,
    }
}

/// The decimal digits of `n`, without leading zeros.
pub open spec fn decimal_digits(n: nat) -> Seq<char>
    decreases n,
{
    if n < 10 {
        seq![digit_char(n)]
    } else {
        decimal_digits(n / 10).push(digit_char(n % 10))
    }
}

/// The digits before the last never denote more than all of them.
pub proof fn lemma_digits_value_prefix(s: Seq<char>, k: int)
    requires
        0 <= k <= s.len(),
    ensures
        digits_value(s.take(k)) <= digits_value(s),
    decreases s.len() - k,
{
    if k == s.len() {
        assert(s.take(k) =~= s);
    } else {
        lemma_digits_value_prefix(s.drop_last(), k);
        assert(s.drop_last().take(k) =~= s.take(k));
    }
}

/// The number that `s` denotes as an unsigned decimal number, where it
/// denotes one that is at most `max`.
pub fn parse_decimal(s: &str, max: u128) -> (r: Option<u128>)
    ensures
        match r {
            Some(v) => decimal_up_to(s@, max as nat) == Some(v as nat),
            None => decimal_up_to(s@, max as nat) is None,
        },
{
    broadcast use vstd::string::group_string_axioms;

    let n: usize = s.unicode_len();
    let chars = s.chars();
    let mut acc: u128 = 0;
    let mut signed = false;
    let mut i: usize = 0;
    for c in it: chars
        invariant
            it.seq() == s@,
            n == s@.len(),
            i == it.index(),
            signed <==> i > 0 && s@[0] == '+',
            !signed && i > 0 ==> s@[0] != '+',
            acc <= max,
            ({
                let digits = unsigned_digits(s@);
                let seen = if signed { i - 1 } else { i as int };
                &&& 0 <= seen <= digits.len()
                &&& all_digits(digits.take(seen))
                &&& acc == digits_value(digits.take(seen))
            }),
    {
        let ghost digits = unsigned_digits(s@);
        let ghost seen = if signed { i - 1 } else { i as int };
        if i == 0 && c == '+' {
            signed = true;
            proof {
                assert(digits.take(0) =~= Seq::<char>::empty());
            }
        } else {
            assert(c == digits[seen]);
            if !('0' <= c && c <= '9') {
                return None;
            }
            let d: u128 = (c as u32 - '0' as u32) as u128;
            proof {
                assert(digits.take(seen + 1).drop_last() =~= digits.take(seen));
                assert(digits.take(seen + 1).last() == c);
            }
            if d > max || acc > (max - d) / 10 {
                proof {
                    lemma_digits_value_prefix(digits, seen + 1);
                }
                return None;
            }
            acc = acc * 10 + d;
        }
        i += 1;
    }
    proof {
        let digits = unsigned_digits(s@);
        assert(digits.take(digits.len() as int) =~= digits);
    }
    if (signed && n == 1) || n == 0 {
        None
    } else {
        Some(acc)
    }
}

/// The decimal digits of a number are digits, at least one, and denote
/// the number: writing a number and reading it again gives it back.
pub proof fn lemma_decimal_digits(n: nat)
    ensures
        decimal_digits(n).len() > 0,
        all_digits(decimal_digits(n)),
        digits_value(decimal_digits(n)) == n,
        decimal_value(decimal_digits(n)) == Some(n),
    decreases n,
{
    let s = decimal_digits(n);
    if n < 10 {
        assert(s.drop_last() =~= Seq::<char>::empty());
        assert(digits_value(s) == digits_value(s.drop_last()) * 10 + digit_value(s.last()));
    } else {
        lemma_decimal_digits(n / 10);
        assert(s.drop_last() =~= decimal_digits(n / 10));
        assert(digits_value(s) == digits_value(s.drop_last()) * 10 + digit_value(s.last()));
    }
    assert(is_digit(s[0]));
    assert(unsigned_digits(s) == s);
}

/// The digit that stands for `d`, as a text.
fn digit_str(d: u8) -> (r: &'static str)
    requires
        d < 10,
    ensures
        r@ == seq![digit_char(d as nat)],
{
    proof {
        reveal_strlit("0");
        reveal_strlit("1");
        reveal_strlit("2");
        reveal_strlit("3");
        reveal_strlit("4");
        reveal_strlit("5");
        reveal_strlit("6");
        reveal_strlit("7");
        reveal_strlit("8");
        reveal_strlit("9");
    }
    let r = if d == 0 {
        "0"
    } else if d == 1 {
        "1"
    } else if d == 2 {
        "2"
    } else if d == 3 {
        "3"
    } else if d == 4 {
        "4"
    } else if d == 5 {
        "5"
    } else if d == 6 {
        "6"
    } else if d == 7 {
        "7"
    } else if d == 8 {
        "8"
    } else {
        "9"
    };
    proof {
        assert(r@ =~= seq![digit_char(d as nat)]);
    }
    r
}

/// The decimal digits of `n`, without leading zeros.
pub fn decimal_string(n: u128) -> (r: String)
    ensures
        r@ == decimal_digits(n as nat),
{
    let mut out = String::from_str(digit_str((n % 10) as u8));
    let mut rest: u128 = n / 10;
    while rest > 0
        invariant
            decimal_digits(n as nat) == if rest > 0 {
                decimal_digits(rest as nat) + out@
            } else {
                out@
            },
        decreases rest,
    {
        let ghost before = out@;
        out = String::from_str(digit_str((rest % 10) as u8)).concat(out.as_str());
        proof {
            let d = seq![digit_char((rest % 10) as nat)];
            assert(out@ == d + before);
            if rest >= 10 {
                assert(decimal_digits(rest as nat) =~= decimal_digits((rest / 10) as nat) + d);
                assert((decimal_digits((rest / 10) as nat) + d) + before =~= decimal_digits(
                    (rest / 10) as nat,
                ) + (d + before));
            }
        }
        rest = rest / 10;
    }
    out
}

/// The first `n` bytes of the UTF-8 encoding of `s`, as text; none where
/// `s` is shorter than that or its `n`-th byte lies inside a character.
pub open spec fn byte_prefix(s: Seq<char>, n: nat) -> Option<Seq<char>> {
    let bytes = encode_utf8(s);
    if n <= bytes.len() && is_char_boundary(bytes, n as int) {
        Some(decode_utf8(bytes.subrange(0, n as int)))
    } else {
        None
    }
}

/// The slice of the first `n` bytes of `s`, where `s` is that long and the
/// slice ends between two characters.
pub fn take_bytes(s: &str, n: usize) -> (r: Option<&str>)
    ensures
        match r {
            Some(head) => byte_prefix(s@, n as nat) == Some(head@),
            None => byte_prefix(s@, n as nat) is None,
        },
{
    proof {
        encode_utf8_valid_utf8(s@);
    }
    if s.is_char_boundary(n) {
        let (head, _) = s.split_at(n);
        proof {
            assert(n <= encode_utf8(s@).len());
            assert(head.spec_bytes() == encode_utf8(s@).subrange(0, n as int));
            encode_utf8_decode_utf8(head@);
        }
        Some(head)
    } else {
        None
    }
}

/// The lower-case form of a text under the Unicode case mapping.
pub uninterp spec fn lowercase(s: Seq<char>) -> Seq<char>;

/// `str::to_lowercase` of the standard library: the result is the
/// lower-case form of `s`, a function of the characters of `s` alone.
#[verifier::external_body]
pub(crate) fn to_lowercase(s: &str) -> (r: String)
    ensures
        r@ == lowercase(s@),
{
    s.to_lowercase()
}

} // verus!
