//! The text of a memory reference: an offset and a base register, written
//! `offset(register)`.
//!
//! In the tree a memory reference is one operand, a literal that holds this
//! text with the offset as a decimal numeral without leading zeros. The
//! text can be made from its two parts and taken apart again.

use vstd::prelude::*;
use vstd::string::StringExecFns;

use crate::canonical::is_register_name;
use crate::chars::CharClass;
use crate::chars::in_class;
use crate::chars::is_register_char;
use crate::chars::lemma_run_end;
use crate::chars::lemma_run_end_is;
use crate::chars::run_end;
use crate::chars::scan_run;
use crate::text::dec_text;
use crate::text::lemma_decimal_round_trip;
use crate::text::numeral_value;
use crate::text::push_decimal;
use crate::text::read_numeral;
use crate::text::string_from;
use crate::text::SourceText;

verus! {

/// The text of the memory reference with the offset `offset` and the base
/// register `base`.
pub open spec fn memory_text(offset: u32, base: Seq<char>) -> Seq<char> {
    dec_text(offset as nat) + "("@ + base + ")"@
}

/// Where the digits at the start of `t` end.
pub open spec fn offset_end(t: Seq<char>) -> int {
    run_end(t, 0, CharClass::Digit)
}

/// The number that the digits at the start of `t` write: the offset of a
/// memory reference.
pub open spec fn memory_offset(t: Seq<char>) -> nat {
    numeral_value(t.subrange(0, offset_end(t)), 10)
}

/// What stands in `t` between the character after its digits and its last
/// character: the base register of a memory reference.
pub open spec fn memory_base(t: Seq<char>) -> Seq<char> {
    t.subrange(offset_end(t) + 1, t.len() - 1)
}

/// Whether `t` is the text of a memory reference: the decimal numeral of an
/// offset that fits in 32 bits, without leading zeros, and the name of a
/// register in parentheses.
pub open spec fn is_memory_text(t: Seq<char>) -> bool {
    &&& 1 <= offset_end(t)
    &&& offset_end(t) + 4 <= t.len()
    &&& t[offset_end(t)] == '('
    &&& t[t.len() - 1] == ')'
    &&& is_register_name(memory_base(t))
    &&& memory_offset(t) <= 0xffff_ffff
    &&& t.subrange(0, offset_end(t)) == dec_text(memory_offset(t))
}

/// The text made from an offset and a register is the text of a memory
/// reference, and its parts are that offset and that register.
pub proof fn lemma_memory_text(offset: u32, base: Seq<char>)
    requires
        is_register_name(base),
    ensures
        is_memory_text(memory_text(offset, base)),
        memory_offset(memory_text(offset, base)) == offset,
        memory_base(memory_text(offset, base)) == base,
{
    reveal_strlit("(");
    reveal_strlit(")");
    let d = dec_text(offset as nat);
    let t = memory_text(offset, base);
    lemma_decimal_round_trip(offset as nat);
    let e = d.len() as int;
    assert(t.len() == e + base.len() + 2);
    assert forall|n: int| 0 <= n < e implies in_class(CharClass::Digit, #[trigger] t[n]) by {
        assert(t[n] == d[n]);
        assert(in_class(CharClass::Digit, d[n]));
    }
    assert(t[e] == '(');
    lemma_run_end_is(t, 0, e, CharClass::Digit);
    assert(t.subrange(0, e) =~= d);
    assert(t.subrange(e + 1, t.len() - 1) =~= base);
}

/// The text of a memory reference is the text made from its offset and its
/// register.
pub proof fn lemma_memory_text_parts(t: Seq<char>)
    requires
        is_memory_text(t),
    ensures
        t == memory_text(memory_offset(t) as u32, memory_base(t)),
{
    reveal_strlit("(");
    reveal_strlit(")");
    let e = offset_end(t);
    let made = memory_text(memory_offset(t) as u32, memory_base(t));
    assert(made =~= t.subrange(0, e) + seq!['('] + memory_base(t) + seq![')']);
    assert(made =~= t);
}

/// The text of the memory reference with the offset `offset` and the base
/// register `base`.
pub fn memory_reference_text(offset: u32, base: &str) -> (s: String)
    ensures
        s@ == memory_text(offset, base@),
{
    let mut s = String::new();
    push_decimal(&mut s, offset);
    s.append("(");
    s.append(base);
    s.append(")");
    assert(s@ =~= memory_text(offset, base@));
    s
}

/// Whether the characters of `v` from `a` up to `b` are those of `w`.
pub fn range_equals(v: &Vec<char>, a: usize, b: usize, w: &Vec<char>) -> (r: bool)
    requires
        a <= b <= v.len(),
    ensures
        r == (v@.subrange(a as int, b as int) == w@),
{
    if b - a != w.len() {
        return false;
    }
    let mut i: usize = 0;
    while i < w.len()
        invariant
            a <= b <= v.len(),
            b - a == w.len(),
            0 <= i <= w.len(),
            forall|k: int| 0 <= k < i ==> v@[a + k] == w@[k],
        decreases w.len() - i,
    {
        if v[a + i] != w[i] {
            assert(v@.subrange(a as int, b as int)[i as int] != w@[i as int]);
            return false;
        }
        i += 1;
    }
    assert(v@.subrange(a as int, b as int) =~= w@);
    true
}

/// Takes the text of a memory reference apart: gives its offset and its
/// base register, or `None` where `text` is no memory reference.
pub fn read_memory_reference(text: &str) -> (r: Option<(u32, String)>)
    ensures
        match r {
            Some((offset, base)) => is_memory_text(text@) && offset == memory_offset(text@)
                && base@ == memory_base(text@),
            None => !is_memory_text(text@),
        },
{
    let source = SourceText::new(text);
    let v = &source.chars;
    let n: usize = v.len();
    let e = scan_run(v, 0, CharClass::Digit);
    proof {
        lemma_run_end(v@, 0, CharClass::Digit);
    }
    if e < 1 || n - e < 4 {
        return None;
    }
    if v[e] != '(' || v[n - 1] != ')' || v[e + 1] != '$' {
        assert(memory_base(v@)[0] == v@[e + 1]);
        return None;
    }
    let j = scan_run(v, e + 2, CharClass::Register);
    proof {
        lemma_run_end(v@, e + 2, CharClass::Register);
        let base = memory_base(v@);
        assert(base[0] == v@[e + 1]);
        if j >= n - 1 {
            assert forall|i: int| 1 <= i < base.len() implies is_register_char(#[trigger] base[i]) by {
                assert(base[i] == v@[e + 1 + i]);
            }
        } else {
            assert(base[j - e - 1] == v@[j as int]);
        }
    }
    if j < n - 1 {
        return None;
    }
    let offset = match read_numeral(v, 0, e, false, 0xffff_ffff) {
        Some(value) => value as u32,
        None => {
            return None;
        },
    };
    let mut numeral = String::new();
    push_decimal(&mut numeral, offset);
    assert(numeral@ =~= dec_text(offset as nat));
    let digits = SourceText::new(numeral.as_str());
    if !range_equals(v, 0, e, &digits.chars) {
        return None;
    }
    Some((offset, string_from(v, e + 1, n - 1)))
}

} // verus!
