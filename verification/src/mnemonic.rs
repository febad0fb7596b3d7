//! The closed set of instruction mnemonics and their spelling.

use vstd::prelude::*;
use vstd::string::is_ascii;
use vstd::string::StringSliceAdditionalSpecFns;

use crate::chars::all_in_class;
use crate::chars::char_code;
use crate::chars::CharClass;
use crate::chars::is_lower;
use crate::chars::is_word_start;
use crate::text::SourceText;

verus! {

/// The operation of an instruction.
#[derive(Clone, Copy, Debug, PartialEq, Eq, Structural)]
pub enum Mnemonic {
    /// Load immediate: `li $t0, 5`.
    Li,
    /// Load address: `la $a0, msg`.
    La,
    /// System call, without operands.
    Syscall,
    /// Copy a register: `move $t0, $t1`.
    Move,
    /// Jump and link: `jal label`.
    Jal,
    /// Subtract: `sub $t0, $t1, $t2`.
    Sub,
    /// Add: `add $t0, $t1, $t2`.
    Add,
    /// Jump to the address in a register: `jr $ra`.
    Jr,
    /// Add an immediate: `addi $t0, $t1, 4`.
    Addi,
    /// Bitwise and with an immediate: `andi $t0, $t1, 255`.
    Andi,
    /// Jump: `j label`.
    J,
    /// Store word: `sw $t0, 0($t1)`.
    Sw,
    /// Load word: `lw $t0, 0($t1)`.
    Lw,
    /// Set if less than: `slt $t0, $t1, $t2`.
    Slt,
    /// Set if less than or equal: `sle $t0, $t1, $t2`.
    Sle,
    /// Set if greater than: `sgt $t0, $t1, $t2`.
    Sgt,
    /// Set if greater than or equal: `sge $t0, $t1, $t2`.
    Sge,
    /// Set if equal: `seq $t0, $t1, $t2`.
    SetEq,
    /// Set if not equal: `sne $t0, $t1, $t2`.
    Sne,
    /// Branch if zero: `beqz $t0, label`.
    Beqz,
    /// Branch if not zero: `bnez $t0, label`.
    Bnez,
    /// Branch if less than zero: `bltz $t0, label`.
    Bltz,
    /// Branch if greater than zero: `bgtz $t0, label`.
    Bgtz,
    /// Branch if less than or equal to zero: `blez $t0, label`.
    Blez,
    /// Branch if greater than or equal to zero: `bgez $t0, label`.
    Bgez,
    /// Branch if less than: `blt $t0, $t1, label`.
    Blt,
    /// Branch if greater than: `bgt $t0, $t1, label`.
    Bgt,
    /// Branch if less than or equal: `ble $t0, $t1, label`.
    Ble,
    /// Branch if greater than or equal: `bge $t0, $t1, label`.
    Bge,
    /// Branch if equal: `beq $t0, $t1, label`.
    Beq,
    /// Branch if not equal: `bne $t0, $t1, label`.
    Bne,
}

/// How a mnemonic is written in assembly text.
pub open spec fn mnemonic_text(m: Mnemonic) -> Seq<char> {
    match m {
        Mnemonic::Li => "li"@,
        Mnemonic::La => "la"@,
        Mnemonic::Syscall => "syscall"@,
        Mnemonic::Move => "move"@,
        Mnemonic::Jal => "jal"@,
        Mnemonic::Sub => "sub"@,
        Mnemonic::Add => "add"@,
        Mnemonic::Jr => "jr"@,
        Mnemonic::Addi => "addi"@,
        Mnemonic::Andi => "andi"@,
        Mnemonic::J => "j"@,
        Mnemonic::Sw => "sw"@,
        Mnemonic::Lw => "lw"@,
        Mnemonic::Slt => "slt"@,
        Mnemonic::Sle => "sle"@,
        Mnemonic::Sgt => "sgt"@,
        Mnemonic::Sge => "sge"@,
        Mnemonic::SetEq => "seq"@,
        Mnemonic::Sne => "sne"@,
        Mnemonic::Beqz => "beqz"@,
        Mnemonic::Bnez => "bnez"@,
        Mnemonic::Bltz => "bltz"@,
        Mnemonic::Bgtz => "bgtz"@,
        Mnemonic::Blez => "blez"@,
        Mnemonic::Bgez => "bgez"@,
        Mnemonic::Blt => "blt"@,
        Mnemonic::Bgt => "bgt"@,
        Mnemonic::Ble => "ble"@,
        Mnemonic::Bge => "bge"@,
        Mnemonic::Beq => "beq"@,
        Mnemonic::Bne => "bne"@,
    }
}

/// The mnemonic that is spelled `w`, if there is one.
pub open spec fn mnemonic_of(w: Seq<char>) -> Option<Mnemonic> {
    if w == "li"@ {
        Some(Mnemonic::Li)
    } else if w == "la"@ {
        Some(Mnemonic::La)
    } else if w == "syscall"@ {
        Some(Mnemonic::Syscall)
    } else if w == "move"@ {
        Some(Mnemonic::Move)
    } else if w == "jal"@ {
        Some(Mnemonic::Jal)
    } else if w == "sub"@ {
        Some(Mnemonic::Sub)
    } else if w == "add"@ {
        Some(Mnemonic::Add)
    } else if w == "jr"@ {
        Some(Mnemonic::Jr)
    } else if w == "addi"@ {
        Some(Mnemonic::Addi)
    } else if w == "andi"@ {
        Some(Mnemonic::Andi)
    } else if w == "j"@ {
        Some(Mnemonic::J)
    } else if w == "sw"@ {
        Some(Mnemonic::Sw)
    } else if w == "lw"@ {
        Some(Mnemonic::Lw)
    } else if w == "slt"@ {
        Some(Mnemonic::Slt)
    } else if w == "sle"@ {
        Some(Mnemonic::Sle)
    } else if w == "sgt"@ {
        Some(Mnemonic::Sgt)
    } else if w == "sge"@ {
        Some(Mnemonic::Sge)
    } else if w == "seq"@ {
        Some(Mnemonic::SetEq)
    } else if w == "sne"@ {
        Some(Mnemonic::Sne)
    } else if w == "beqz"@ {
        Some(Mnemonic::Beqz)
    } else if w == "bnez"@ {
        Some(Mnemonic::Bnez)
    } else if w == "bltz"@ {
        Some(Mnemonic::Bltz)
    } else if w == "bgtz"@ {
        Some(Mnemonic::Bgtz)
    } else if w == "blez"@ {
        Some(Mnemonic::Blez)
    } else if w == "bgez"@ {
        Some(Mnemonic::Bgez)
    } else if w == "blt"@ {
        Some(Mnemonic::Blt)
    } else if w == "bgt"@ {
        Some(Mnemonic::Bgt)
    } else if w == "ble"@ {
        Some(Mnemonic::Ble)
    } else if w == "bge"@ {
        Some(Mnemonic::Bge)
    } else if w == "beq"@ {
        Some(Mnemonic::Beq)
    } else if w == "bne"@ {
        Some(Mnemonic::Bne)
    } else {
        None
    }
}

/// Whether `w` is the spelling of some mnemonic.
pub open spec fn is_mnemonic(w: Seq<char>) -> bool {
    mnemonic_of(w) is Some
}

/// Makes the characters of every mnemonic known to the verifier.
pub proof fn lemma_mnemonic_spellings()
    ensures
        "li"@ =~= seq!['l', 'i'],
        "la"@ =~= seq!['l', 'a'],
        "syscall"@ =~= seq!['s', 'y', 's', 'c', 'a', 'l', 'l'],
        "move"@ =~= seq!['m', 'o', 'v', 'e'],
        "jal"@ =~= seq!['j', 'a', 'l'],
        "sub"@ =~= seq!['s', 'u', 'b'],
        "add"@ =~= seq!['a', 'd', 'd'],
        "jr"@ =~= seq!['j', 'r'],
        "addi"@ =~= seq!['a', 'd', 'd', 'i'],
        "andi"@ =~= seq!['a', 'n', 'd', 'i'],
        "j"@ =~= seq!['j'],
        "sw"@ =~= seq!['s', 'w'],
        "lw"@ =~= seq!['l', 'w'],
        "slt"@ =~= seq!['s', 'l', 't'],
        "sle"@ =~= seq!['s', 'l', 'e'],
        "sgt"@ =~= seq!['s', 'g', 't'],
        "sge"@ =~= seq!['s', 'g', 'e'],
        "seq"@ =~= seq!['s', 'e', 'q'],
        "sne"@ =~= seq!['s', 'n', 'e'],
        "beqz"@ =~= seq!['b', 'e', 'q', 'z'],
        "bnez"@ =~= seq!['b', 'n', 'e', 'z'],
        "bltz"@ =~= seq!['b', 'l', 't', 'z'],
        "bgtz"@ =~= seq!['b', 'g', 't', 'z'],
        "blez"@ =~= seq!['b', 'l', 'e', 'z'],
        "bgez"@ =~= seq!['b', 'g', 'e', 'z'],
        "blt"@ =~= seq!['b', 'l', 't'],
        "bgt"@ =~= seq!['b', 'g', 't'],
        "ble"@ =~= seq!['b', 'l', 'e'],
        "bge"@ =~= seq!['b', 'g', 'e'],
        "beq"@ =~= seq!['b', 'e', 'q'],
        "bne"@ =~= seq!['b', 'n', 'e'],
{
    reveal_strlit("li");
    reveal_strlit("la");
    reveal_strlit("syscall");
    reveal_strlit("move");
    reveal_strlit("jal");
    reveal_strlit("sub");
    reveal_strlit("add");
    reveal_strlit("jr");
    reveal_strlit("addi");
    reveal_strlit("andi");
    reveal_strlit("j");
    reveal_strlit("sw");
    reveal_strlit("lw");
    reveal_strlit("slt");
    reveal_strlit("sle");
    reveal_strlit("sgt");
    reveal_strlit("sge");
    reveal_strlit("seq");
    reveal_strlit("sne");
    reveal_strlit("beqz");
    reveal_strlit("bnez");
    reveal_strlit("bltz");
    reveal_strlit("bgtz");
    reveal_strlit("blez");
    reveal_strlit("bgez");
    reveal_strlit("blt");
    reveal_strlit("bgt");
    reveal_strlit("ble");
    reveal_strlit("bge");
    reveal_strlit("beq");
    reveal_strlit("bne");
}

/// A mnemonic is a lower-case word: it has the shape of an identifier and is
/// plain ASCII.
pub proof fn lemma_mnemonic_shape(m: Mnemonic)
    ensures
        1 <= mnemonic_text(m).len() <= 7,
        forall|i: int| 0 <= i < mnemonic_text(m).len() ==> is_lower(#[trigger] mnemonic_text(m)[i]),
        all_in_class(mnemonic_text(m), CharClass::Word),
        is_word_start(mnemonic_text(m)[0]),
        vstd::utf8::is_ascii_chars(mnemonic_text(m)),
{
    lemma_mnemonic_spellings();
}

/// No two mnemonics are spelled alike.
pub proof fn lemma_mnemonic_text_injective(a: Mnemonic, b: Mnemonic)
    requires
        mnemonic_text(a) == mnemonic_text(b),
    ensures
        a == b,
{
    lemma_mnemonic_spellings();
    let ta = mnemonic_text(a);
    let tb = mnemonic_text(b);
    assert(ta.len() == tb.len());
    assert(ta[0] == tb[0]);
    if ta.len() > 1 {
        assert(ta[1] == tb[1]);
    }
    if ta.len() > 2 {
        assert(ta[2] == tb[2]);
    }
    if ta.len() > 3 {
        assert(ta[3] == tb[3]);
    }
}

/// The mnemonic of a word is the one that is spelled so, and a word
/// without a mnemonic is the spelling of none.
pub proof fn lemma_mnemonic_spelled(w: Seq<char>)
    ensures
        match mnemonic_of(w) {
            Some(m) => mnemonic_text(m) == w,
            None => forall|m: Mnemonic| mnemonic_text(m) != w,
        },
{
    match mnemonic_of(w) {
        Some(m) => {},
        None => {
            assert forall|m: Mnemonic| mnemonic_text(m) != w by {
                match m {
                    Mnemonic::Li => {},
                    Mnemonic::La => {},
                    Mnemonic::Syscall => {},
                    Mnemonic::Move => {},
                    Mnemonic::Jal => {},
                    Mnemonic::Sub => {},
                    Mnemonic::Add => {},
                    Mnemonic::Jr => {},
                    Mnemonic::Addi => {},
                    Mnemonic::Andi => {},
                    Mnemonic::J => {},
                    Mnemonic::Sw => {},
                    Mnemonic::Lw => {},
                    Mnemonic::Slt => {},
                    Mnemonic::Sle => {},
                    Mnemonic::Sgt => {},
                    Mnemonic::Sge => {},
                    Mnemonic::SetEq => {},
                    Mnemonic::Sne => {},
                    Mnemonic::Beqz => {},
                    Mnemonic::Bnez => {},
                    Mnemonic::Bltz => {},
                    Mnemonic::Bgtz => {},
                    Mnemonic::Blez => {},
                    Mnemonic::Bgez => {},
                    Mnemonic::Blt => {},
                    Mnemonic::Bgt => {},
                    Mnemonic::Ble => {},
                    Mnemonic::Bge => {},
                    Mnemonic::Beq => {},
                    Mnemonic::Bne => {},
                }
            }
        },
    }
}

/// The mnemonic of a spelling is the one that is spelled so.
pub proof fn lemma_mnemonic_of_text(m: Mnemonic)
    ensures
        is_mnemonic(mnemonic_text(m)),
        mnemonic_of(mnemonic_text(m)) == Some(m),
{
    lemma_mnemonic_spelled(mnemonic_text(m));
    match mnemonic_of(mnemonic_text(m)) {
        Some(c) => lemma_mnemonic_text_injective(c, m),
        None => {},
    }
}

impl Mnemonic {
    /// The spelling of the mnemonic.
    pub fn name(self) -> (s: &'static str)
        ensures
            s@ == mnemonic_text(self),
            is_ascii(s),
    {
        proof {
            lemma_mnemonic_shape(self);
        }
        match self {
            Mnemonic::Li => "li",
            Mnemonic::La => "la",
            Mnemonic::Syscall => "syscall",
            Mnemonic::Move => "move",
            Mnemonic::Jal => "jal",
            Mnemonic::Sub => "sub",
            Mnemonic::Add => "add",
            Mnemonic::Jr => "jr",
            Mnemonic::Addi => "addi",
            Mnemonic::Andi => "andi",
            Mnemonic::J => "j",
            Mnemonic::Sw => "sw",
            Mnemonic::Lw => "lw",
            Mnemonic::Slt => "slt",
            Mnemonic::Sle => "sle",
            Mnemonic::Sgt => "sgt",
            Mnemonic::Sge => "sge",
            Mnemonic::SetEq => "seq",
            Mnemonic::Sne => "sne",
            Mnemonic::Beqz => "beqz",
            Mnemonic::Bnez => "bnez",
            Mnemonic::Bltz => "bltz",
            Mnemonic::Bgtz => "bgtz",
            Mnemonic::Blez => "blez",
            Mnemonic::Bgez => "bgez",
            Mnemonic::Blt => "blt",
            Mnemonic::Bgt => "bgt",
            Mnemonic::Ble => "ble",
            Mnemonic::Bge => "bge",
            Mnemonic::Beq => "beq",
            Mnemonic::Bne => "bne",
        }
    }
}

/// Whether the characters from `a` up to `b` spell exactly `word`.
pub fn range_is(v: &Vec<char>, a: usize, b: usize, word: &str) -> (r: bool)
    requires
        a <= b <= v.len(),
        is_ascii(word),
    ensures
        r == (v@.subrange(a as int, b as int) == word@),
{
    broadcast use vstd::string::is_ascii_spec_bytes;

    let bytes = word.as_bytes();
    let n: usize = bytes.len();
    assert(n == word@.len());
    if b - a != n {
        return false;
    }
    let mut i: usize = 0;
    while i < n
        invariant
            a <= b <= v.len(),
            b - a == n,
            n == word@.len(),
            0 <= i <= n,
            is_ascii(word),
            bytes@ == word.spec_bytes(),
            forall|k: int| 0 <= k < i ==> v@[a + k] == word@[k],
        decreases n - i,
    {
        let c: u32 = char_code(v[a + i]);
        let w: u32 = bytes[i] as u32;
        assert(word@[i as int] as u8 == bytes@[i as int]);
        assert('\0' <= word@[i as int] <= '\u{7f}');
        if c != w {
            assert(v@.subrange(a as int, b as int)[i as int] != word@[i as int]);
            return false;
        }
        i += 1;
    }
    assert(v@.subrange(a as int, b as int) =~= word@);
    true
}

/// Whether the characters from `a` up to `b` spell the mnemonic `m`.
pub fn spells_mnemonic(v: &Vec<char>, a: usize, b: usize, m: Mnemonic) -> (r: bool)
    requires
        a <= b <= v.len(),
    ensures
        r == (v@.subrange(a as int, b as int) == mnemonic_text(m)),
{
    range_is(v, a, b, m.name())
}

/// Looks the characters from `a` up to `b` up among the mnemonics.
pub fn find_mnemonic(v: &Vec<char>, a: usize, b: usize) -> (r: Option<Mnemonic>)
    requires
        a <= b <= v.len(),
    ensures
        r == mnemonic_of(v@.subrange(a as int, b as int)),
{
    if spells_mnemonic(v, a, b, Mnemonic::Li) {
        Some(Mnemonic::Li)
    } else if spells_mnemonic(v, a, b, Mnemonic::La) {
        Some(Mnemonic::La)
    } else if spells_mnemonic(v, a, b, Mnemonic::Syscall) {
        Some(Mnemonic::Syscall)
    } else if spells_mnemonic(v, a, b, Mnemonic::Move) {
        Some(Mnemonic::Move)
    } else if spells_mnemonic(v, a, b, Mnemonic::Jal) {
        Some(Mnemonic::Jal)
    } else if spells_mnemonic(v, a, b, Mnemonic::Sub) {
        Some(Mnemonic::Sub)
    } else if spells_mnemonic(v, a, b, Mnemonic::Add) {
        Some(Mnemonic::Add)
    } else if spells_mnemonic(v, a, b, Mnemonic::Jr) {
        Some(Mnemonic::Jr)
    } else if spells_mnemonic(v, a, b, Mnemonic::Addi) {
        Some(Mnemonic::Addi)
    } else if spells_mnemonic(v, a, b, Mnemonic::Andi) {
        Some(Mnemonic::Andi)
    } else if spells_mnemonic(v, a, b, Mnemonic::J) {
        Some(Mnemonic::J)
    } else if spells_mnemonic(v, a, b, Mnemonic::Sw) {
        Some(Mnemonic::Sw)
    } else if spells_mnemonic(v, a, b, Mnemonic::Lw) {
        Some(Mnemonic::Lw)
    } else if spells_mnemonic(v, a, b, Mnemonic::Slt) {
        Some(Mnemonic::Slt)
    } else if spells_mnemonic(v, a, b, Mnemonic::Sle) {
        Some(Mnemonic::Sle)
    } else if spells_mnemonic(v, a, b, Mnemonic::Sgt) {
        Some(Mnemonic::Sgt)
    } else if spells_mnemonic(v, a, b, Mnemonic::Sge) {
        Some(Mnemonic::Sge)
    } else if spells_mnemonic(v, a, b, Mnemonic::SetEq) {
        Some(Mnemonic::SetEq)
    } else if spells_mnemonic(v, a, b, Mnemonic::Sne) {
        Some(Mnemonic::Sne)
    } else if spells_mnemonic(v, a, b, Mnemonic::Beqz) {
        Some(Mnemonic::Beqz)
    } else if spells_mnemonic(v, a, b, Mnemonic::Bnez) {
        Some(Mnemonic::Bnez)
    } else if spells_mnemonic(v, a, b, Mnemonic::Bltz) {
        Some(Mnemonic::Bltz)
    } else if spells_mnemonic(v, a, b, Mnemonic::Bgtz) {
        Some(Mnemonic::Bgtz)
    } else if spells_mnemonic(v, a, b, Mnemonic::Blez) {
        Some(Mnemonic::Blez)
    } else if spells_mnemonic(v, a, b, Mnemonic::Bgez) {
        Some(Mnemonic::Bgez)
    } else if spells_mnemonic(v, a, b, Mnemonic::Blt) {
        Some(Mnemonic::Blt)
    } else if spells_mnemonic(v, a, b, Mnemonic::Bgt) {
        Some(Mnemonic::Bgt)
    } else if spells_mnemonic(v, a, b, Mnemonic::Ble) {
        Some(Mnemonic::Ble)
    } else if spells_mnemonic(v, a, b, Mnemonic::Bge) {
        Some(Mnemonic::Bge)
    } else if spells_mnemonic(v, a, b, Mnemonic::Beq) {
        Some(Mnemonic::Beq)
    } else if spells_mnemonic(v, a, b, Mnemonic::Bne) {
        Some(Mnemonic::Bne)
    } else {
        None
    }
}

/// Looks the word `name` up among the mnemonics.
pub fn mnemonic_named(name: &str) -> (r: Option<Mnemonic>)
    ensures
        r == mnemonic_of(name@),
{
    let text = SourceText::new(name);
    assert(text.chars@.subrange(0, text.chars@.len() as int) =~= name@);
    find_mnemonic(&text.chars, 0, text.chars.len())
}

} // verus!
