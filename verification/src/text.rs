//! Source text as characters with their byte offsets, numerals, and the
//! building of strings.

use vstd::prelude::*;
use vstd::utf8::encode_scalar;
use vstd::utf8::encode_utf8;

use crate::chars::all_in_class;
use crate::chars::CharClass;
use crate::chars::in_class;
use crate::chars::is_digit;
use crate::chars::is_hex_digit;

verus! {

/// `String::push` of the standard library: it appends the one character `c`
/// to the string and leaves what was there before in place.
pub assume_specification[ std::string::String::push ](s: &mut std::string::String, c: char)
    ensures
        final(s)@ == old(s)@.push(c),
;

/// Number of bytes that the UTF-8 encoding of `c` takes.
pub open spec fn utf8_width(c: char) -> nat {
    if (c as u32) < 0x80 {
        1
    } else if (c as u32) < 0x800 {
        2
    } else if (c as u32) < 0x10000 {
        3
    } else {
        4
    }
}

/// The byte offset of the character at index `i`: the length of the UTF-8
/// encoding of the `i` characters before it.
pub open spec fn byte_offset(s: Seq<char>, i: int) -> nat
    recommends
        0 <= i <= s.len(),
{
    encode_utf8(s.subrange(0, i)).len()
}

/// Encoding distributes over concatenation.
pub proof fn lemma_encode_concat(a: Seq<char>, b: Seq<char>)
    ensures
        encode_utf8(a + b) == encode_utf8(a) + encode_utf8(b),
    decreases a.len(),
{
    if a.len() == 0 {
        assert(a + b =~= b);
        assert(encode_utf8(a) + encode_utf8(b) =~= encode_utf8(b));
    } else {
        lemma_encode_concat(a.drop_first(), b);
        assert((a + b).drop_first() =~= a.drop_first() + b);
        assert(encode_utf8(a + b) =~= encode_utf8(a) + encode_utf8(b));
    }
}

/// The first character stands at offset zero.
pub proof fn lemma_byte_offset_zero(s: Seq<char>)
    ensures
        byte_offset(s, 0) == 0,
{
    assert(s.subrange(0, 0) =~= Seq::<char>::empty());
}

/// The offset of the next character lies one encoded character further.
pub proof fn lemma_byte_offset_step(s: Seq<char>, i: int)
    requires
        0 <= i < s.len(),
    ensures
        byte_offset(s, i + 1) == byte_offset(s, i) + utf8_width(s[i]),
        byte_offset(s, 0) == 0,
{
    let one = seq![s[i]];
    assert(s.subrange(0, i + 1) =~= s.subrange(0, i) + one);
    lemma_encode_concat(s.subrange(0, i), one);
    assert(one.drop_first() =~= Seq::<char>::empty());
    assert(encode_utf8(one) =~= encode_scalar(s[i] as u32)) by {
        reveal_with_fuel(encode_utf8, 2);
    }
    assert(s.subrange(0, 0) =~= Seq::<char>::empty());
    vstd::utf8::char_is_scalar(s[i]);
    assert(encode_scalar(s[i] as u32).len() == utf8_width(s[i]));
}

/// Offsets grow with the index and end at the length of the whole encoding.
pub proof fn lemma_byte_offset_monotonic(s: Seq<char>, i: int, j: int)
    requires
        0 <= i <= j <= s.len(),
    ensures
        byte_offset(s, i) <= byte_offset(s, j),
        j - i <= byte_offset(s, j) - byte_offset(s, i),
        byte_offset(s, s.len() as int) == encode_utf8(s).len(),
    decreases j - i,
{
    assert(s.subrange(0, s.len() as int) =~= s);
    if i < j {
        lemma_byte_offset_monotonic(s, i, j - 1);
        lemma_byte_offset_step(s, j - 1);
    }
}

/// Number of bytes that the UTF-8 encoding of `c` takes.
pub fn char_width(c: char) -> (w: usize)
    ensures
        w == utf8_width(c),
{
    let n: u32 = c as u32;
    if n < 0x80 {
        1
    } else if n < 0x800 {
        2
    } else if n < 0x10000 {
        3
    } else {
        4
    }
}

/// A text held as its characters, each with the byte offset at which its
/// UTF-8 encoding starts.
pub struct SourceText {
    pub chars: Vec<char>,
    pub offsets: Vec<usize>,
}

impl SourceText {
    /// There is one offset for each character and one for the end, and each
    /// is the byte offset of its index.
    pub open spec fn wf(&self) -> bool {
        &&& self.offsets@.len() == self.chars@.len() + 1
        &&& forall|i: int|
            0 <= i <= self.chars@.len() ==> #[trigger] self.offsets@[i] == byte_offset(
                self.chars@,
                i,
            )
    }

    /// Splits `s` into its characters and notes where each one starts.
    pub fn new(s: &str) -> (r: SourceText)
        ensures
            r.wf(),
            r.chars@ == s@,
    {
        broadcast use vstd::string::group_string_axioms;

        let total: usize = s.as_bytes().len();
        let mut chars: Vec<char> = Vec::new();
        let mut offsets: Vec<usize> = Vec::new();
        let mut at: usize = 0;
        offsets.push(at);
        proof {
            assert(s@.subrange(0, 0) =~= Seq::<char>::empty());
            lemma_byte_offset_monotonic(s@, 0, s@.len() as int);
        }
        for c in it: s.chars()
            invariant
                it.seq() == s@,
                total == encode_utf8(s@).len(),
                chars@ == s@.subrange(0, it.index() as int),
                offsets@.len() == it.index() + 1,
                at == byte_offset(s@, it.index() as int),
                forall|i: int|
                    0 <= i <= it.index() ==> #[trigger] offsets@[i] == byte_offset(s@, i),
        {
            proof {
                lemma_byte_offset_step(s@, it.index() as int);
                lemma_byte_offset_monotonic(s@, it.index() + 1, s@.len() as int);
            }
            at = at + char_width(c);
            chars.push(c);
            offsets.push(at);
            assert(chars@ =~= s@.subrange(0, it.index() + 1));
        }
        assert(chars@ =~= s@);
        SourceText { chars, offsets }
    }
}

/// Copies the characters from `a` up to `b` into a string.
pub fn string_from(v: &Vec<char>, a: usize, b: usize) -> (s: String)
    requires
        a <= b <= v.len(),
    ensures
        s@ == v@.subrange(a as int, b as int),
{
    let mut s = String::new();
    let mut i: usize = a;
    while i < b
        invariant
            a <= i <= b <= v.len(),
            s@ == v@.subrange(a as int, i as int),
        decreases b - i,
    {
        s.push(v[i]);
        i += 1;
        assert(s@ =~= v@.subrange(a as int, i as int));
    }
    s
}

/// The character that shows the digit `d`.
pub open spec fn digit_char(d: nat) -> char
    recommends
        d < 10,
{
    ((48 + d) as u8) as char
}

/// The decimal numeral of `n`, without sign or leading zeros.
pub open spec fn dec_text(n: nat) -> Seq<char>
    decreases n,
{
    if n < 10 {
        seq![digit_char(n)]
    } else {
        dec_text(n / 10).push(digit_char(n % 10))
    }
}

/// What a digit stands for, in bases up to sixteen; letters of either case
/// count from ten.
pub open spec fn digit_value(c: char) -> nat {
    if is_digit(c) {
        (c as nat - 48) as nat
    } else if 'a' <= c <= 'f' {
        (c as nat - 87) as nat
    } else if 'A' <= c <= 'F' {
        (c as nat - 55) as nat
    } else {
        0
    }
}

/// The number that the digits of `s` write in base `radix`.
pub open spec fn numeral_value(s: Seq<char>, radix: nat) -> nat
    decreases s.len(),
{
    if s.len() == 0 {
        0
    } else {
        numeral_value(s.drop_last(), radix) * radix + digit_value(s.last())
    }
}

/// Appends the decimal numeral of `n` to `out`.
pub fn push_decimal(out: &mut String, n: u32)
    ensures
        final(out)@ == old(out)@ + dec_text(n as nat),
    decreases n,
{
    if n >= 10 {
        push_decimal(out, n / 10);
    }
    let d: u8 = (n % 10) as u8;
    out.push((48u8 + d) as char);
    assert(final(out)@ =~= old(out)@ + dec_text(n as nat));
}

/// What the digit `c` stands for.
pub fn digit_of(c: char) -> (d: u64)
    requires
        is_hex_digit(c),
    ensures
        d == digit_value(c),
        d < 16,
        is_digit(c) ==> d < 10,
{
    let n: u32 = c as u32;
    if is_digit(c) {
        (n - 48) as u64
    } else if 'a' <= c && c <= 'f' {
        (n - 87) as u64
    } else {
        (n - 55) as u64
    }
}

/// A numeral with more digits is worth at least as much as the one without them.
pub proof fn lemma_numeral_prefix(s: Seq<char>, k: int, radix: nat)
    requires
        0 <= k <= s.len(),
        radix >= 1,
    ensures
        numeral_value(s.subrange(0, k), radix) <= numeral_value(s, radix),
    decreases s.len() - k,
{
    if k < s.len() {
        lemma_numeral_prefix(s.drop_last(), k, radix);
        assert(s.drop_last().subrange(0, k) =~= s.subrange(0, k));
        assert(numeral_value(s.drop_last(), radix) <= numeral_value(s.drop_last(), radix)
            * radix) by (nonlinear_arith)
            requires
                radix >= 1,
        ;
    } else {
        assert(s.subrange(0, k) =~= s);
    }
}

/// Reads the digits from `a` up to `b` as a number in base ten or sixteen,
/// and gives it where it is at most `limit`.
pub fn read_numeral(v: &Vec<char>, a: usize, b: usize, hex: bool, limit: u64) -> (r: Option<u64>)
    requires
        a <= b <= v.len(),
        limit <= 0xffff_ffff,
        all_in_class(
            v@.subrange(a as int, b as int),
            if hex {
                CharClass::Hex
            } else {
                CharClass::Digit
            },
        ),
    ensures
        r == if numeral_value(v@.subrange(a as int, b as int), radix_of(hex)) <= limit {
            Some(numeral_value(v@.subrange(a as int, b as int), radix_of(hex)) as u64)
        } else {
            None
        },
{
    let radix: u64 = if hex {
        16
    } else {
        10
    };
    let ghost whole = v@.subrange(a as int, b as int);
    let mut acc: u64 = 0;
    let mut i: usize = a;
    while i < b
        invariant
            a <= i <= b <= v.len(),
            limit <= 0xffff_ffff,
            radix == radix_of(hex),
            whole == v@.subrange(a as int, b as int),
            all_in_class(
                whole,
                if hex {
                    CharClass::Hex
                } else {
                    CharClass::Digit
                },
            ),
            acc == numeral_value(whole.subrange(0, i - a), radix as nat),
            acc <= limit,
        decreases b - i,
    {
        let ghost before = whole.subrange(0, i - a);
        let ghost after = whole.subrange(0, i - a + 1);
        assert(whole[i - a] == v@[i as int]);
        assert(is_hex_digit(v@[i as int]));
        let d = digit_of(v[i]);
        proof {
            assert(after.drop_last() =~= before);
            assert(after.last() == v@[i as int]);
            assert(acc * radix <= 0xffff_ffff * 16) by (nonlinear_arith)
                requires
                    acc <= 0xffff_ffff,
                    radix <= 16,
            ;
        }
        let next: u64 = acc * radix + d;
        if next > limit {
            proof {
                lemma_numeral_prefix(whole, i - a + 1, radix as nat);
            }
            return None;
        }
        acc = next;
        i += 1;
    }
    assert(whole.subrange(0, b - a) =~= whole);
    Some(acc)
}

/// Ten or sixteen.
pub open spec fn radix_of(hex: bool) -> nat {
    if hex {
        16
    } else {
        10
    }
}

/// The decimal numeral of a number is made of digits, and read as a
/// numeral it is worth the number.
pub proof fn lemma_decimal_round_trip(n: nat)
    ensures
        dec_text(n).len() >= 1,
        all_in_class(dec_text(n), CharClass::Digit),
        numeral_value(dec_text(n), 10) == n,
    decreases n,
{
    let d = digit_char(n % 10);
    assert(is_digit(d) && digit_value(d) == n % 10);
    if n < 10 {
        assert(dec_text(n).drop_last() =~= Seq::<char>::empty());
        assert(dec_text(n).last() == d);
        reveal_with_fuel(numeral_value, 2);
    } else {
        lemma_decimal_round_trip(n / 10);
        let front = dec_text(n / 10);
        assert(dec_text(n).drop_last() =~= front);
        assert(dec_text(n).last() == d);
        assert forall|i: int| 0 <= i < dec_text(n).len() implies in_class(
            CharClass::Digit,
            #[trigger] dec_text(n)[i],
        ) by {
            if i < front.len() {
                assert(dec_text(n)[i] == front[i]);
            }
        }
    }
}

} // verus!
