//! The characters and words that Redcode is written with.

use vstd::prelude::*;

use crate::load_file::Opcode;
use crate::parser::grammar::ascii;

verus! {

/// A class of characters that a token is a run of.
#[derive(Copy, Clone, Debug, PartialEq, Eq, Structural)]
pub enum Class {
    /// Blanks, tabs and carriage returns.
    Space,
    /// Decimal digits.
    Digit,
    /// Letters, digits and the underscore.
    Word,
}

/// A word with a meaning of its own, which cannot be a label. All of them
/// have three letters, in upper or lower case.
#[derive(Copy, Clone, Debug, PartialEq, Eq, Structural)]
pub enum Keyword {
    Operation(Opcode),
    Equ,
    For,
    Rof,
    Org,
    End,
}

/// Whether a character is a blank, a tab or a carriage return.
pub open spec fn is_space(c: u8) -> bool {
    c == ascii::SPACE || c == ascii::TAB || c == ascii::RETURN
}

/// Whether a character is a decimal digit.
pub open spec fn is_digit(c: u8) -> bool {
    ascii::ZERO <= c <= ascii::NINE
}

/// Whether a character can begin a word: a letter or the underscore.
pub open spec fn is_word_start(c: u8) -> bool {
    ascii::UPPER_A <= c <= ascii::UPPER_Z || ascii::A <= c <= ascii::Z || c == ascii::UNDERSCORE
}

/// Whether a character belongs to a class.
pub open spec fn in_class(class: Class, c: u8) -> bool {
    match class {
        Class::Space => is_space(c),
        Class::Digit => is_digit(c),
        Class::Word => is_word_start(c) || is_digit(c),
    }
}

/// Where the run of characters of a class that begins at `i` ends.
pub open spec fn run_end(s: Seq<u8>, i: int, class: Class) -> int
    decreases s.len() - i,
{
    if 0 <= i < s.len() && in_class(class, s[i]) {
        run_end(s, i + 1, class)
    } else {
        i
    }
}

/// The position behind the blanks and tabs at `i`.
pub open spec fn skip(s: Seq<u8>, i: int) -> int {
    run_end(s, i, Class::Space)
}

/// A run ends at or behind its start, within the text, and all that lies
/// between belongs to the class.
pub proof fn lemma_run_end(s: Seq<u8>, i: int, class: Class)
    requires
        0 <= i <= s.len(),
    ensures
        i <= run_end(s, i, class) <= s.len(),
        forall|k: int| i <= k < run_end(s, i, class) ==> in_class(class, #[trigger] s[k]),
        run_end(s, i, class) < s.len() ==> !in_class(class, s[run_end(s, i, class)]),
    decreases s.len() - i,
{
    if i < s.len() && in_class(class, s[i]) {
        lemma_run_end(s, i + 1, class);
    }
}

/// The lower-case form of a letter; other characters stay.
pub open spec fn lower(c: u8) -> u8 {
    if ascii::UPPER_A <= c <= ascii::UPPER_Z {
        (c + ascii::CASE) as u8
    } else {
        c
    }
}

/// The keyword that three lower-case letters spell, if they spell one.
pub open spec fn keyword(a: u8, b: u8, c: u8) -> Option<Keyword> {
    if a == ascii::D && b == ascii::A && c == ascii::T {
        Some(Keyword::Operation(Opcode::Dat))
    } else if a == ascii::M && b == ascii::O && c == ascii::V {
        Some(Keyword::Operation(Opcode::Mov))
    } else if a == ascii::A && b == ascii::D && c == ascii::D {
        Some(Keyword::Operation(Opcode::Add))
    } else if a == ascii::S && b == ascii::U && c == ascii::B {
        Some(Keyword::Operation(Opcode::Sub))
    } else if a == ascii::M && b == ascii::U && c == ascii::L {
        Some(Keyword::Operation(Opcode::Mul))
    } else if a == ascii::D && b == ascii::I && c == ascii::V {
        Some(Keyword::Operation(Opcode::Div))
    } else if a == ascii::M && b == ascii::O && c == ascii::D {
        Some(Keyword::Operation(Opcode::Mod))
    } else if a == ascii::J && b == ascii::M && c == ascii::P {
        Some(Keyword::Operation(Opcode::Jmp))
    } else if a == ascii::J && b == ascii::M && c == ascii::Z {
        Some(Keyword::Operation(Opcode::Jmz))
    } else if a == ascii::J && b == ascii::M && c == ascii::N {
        Some(Keyword::Operation(Opcode::Jmn))
    } else if a == ascii::D && b == ascii::J && c == ascii::N {
        Some(Keyword::Operation(Opcode::Djn))
    } else if a == ascii::C && b == ascii::M && c == ascii::P {
        Some(Keyword::Operation(Opcode::Cmp))
    } else if a == ascii::S && b == ascii::E && c == ascii::Q {
        Some(Keyword::Operation(Opcode::Skeq))
    } else if a == ascii::S && b == ascii::N && c == ascii::E {
        Some(Keyword::Operation(Opcode::Sne))
    } else if a == ascii::S && b == ascii::L && c == ascii::T {
        Some(Keyword::Operation(Opcode::Slt))
    } else if a == ascii::S && b == ascii::P && c == ascii::L {
        Some(Keyword::Operation(Opcode::Spl))
    } else if a == ascii::N && b == ascii::O && c == ascii::P {
        Some(Keyword::Operation(Opcode::Nop))
    } else if a == ascii::L && b == ascii::D && c == ascii::P {
        Some(Keyword::Operation(Opcode::Ldp))
    } else if a == ascii::S && b == ascii::T && c == ascii::P {
        Some(Keyword::Operation(Opcode::Stp))
    } else if a == ascii::E && b == ascii::Q && c == ascii::U {
        Some(Keyword::Equ)
    } else if a == ascii::F && b == ascii::O && c == ascii::R {
        Some(Keyword::For)
    } else if a == ascii::R && b == ascii::O && c == ascii::F {
        Some(Keyword::Rof)
    } else if a == ascii::O && b == ascii::R && c == ascii::G {
        Some(Keyword::Org)
    } else if a == ascii::E && b == ascii::N && c == ascii::D {
        Some(Keyword::End)
    } else {
        None
    }
}

/// The keyword that the word from `start` to `end` is, if it is one.
pub open spec fn keyword_at(s: Seq<u8>, start: int, end: int) -> Option<Keyword> {
    if end - start == 3 && 0 <= start && end <= s.len() {
        keyword(lower(s[start]), lower(s[start + 1]), lower(s[start + 2]))
    } else {
        None
    }
}

/// Whether a character belongs to a class.
pub fn class_has(class: Class, c: u8) -> (r: bool)
    ensures
        r == in_class(class, c),
{
    match class {
        Class::Space => c == ascii::SPACE || c == ascii::TAB || c == ascii::RETURN,
        Class::Digit => ascii::ZERO <= c && c <= ascii::NINE,
        Class::Word => begins_word(c) || (ascii::ZERO <= c && c <= ascii::NINE),
    }
}

/// Whether a character can begin a word.
pub fn begins_word(c: u8) -> (r: bool)
    ensures
        r == is_word_start(c),
{
    (ascii::UPPER_A <= c && c <= ascii::UPPER_Z) || (ascii::A <= c && c <= ascii::Z) || c
        == ascii::UNDERSCORE
}

/// Where the run of characters of a class that begins at `i` ends.
pub fn scan(s: &[u8], i: usize, class: Class) -> (end: usize)
    requires
        i <= s@.len(),
    ensures
        end == run_end(s@, i as int, class),
        i <= end <= s@.len(),
{
    let mut end: usize = i;
    while end < s.len() && class_has(class, s[end])
        invariant
            i <= end <= s@.len(),
            run_end(s@, i as int, class) == run_end(s@, end as int, class),
        decreases s@.len() - end,
    {
        end = end + 1;
    }
    end
}

/// The position behind the blanks and tabs at `i`.
pub fn skip_spaces(s: &[u8], i: usize) -> (end: usize)
    requires
        i <= s@.len(),
    ensures
        end == skip(s@, i as int),
        i <= end <= s@.len(),
{
    scan(s, i, Class::Space)
}

/// The lower-case form of a letter; other characters stay.
pub fn to_lower(c: u8) -> (r: u8)
    ensures
        r == lower(c),
{
    if ascii::UPPER_A <= c && c <= ascii::UPPER_Z {
        c + ascii::CASE
    } else {
        c
    }
}

/// The keyword that three lower-case letters spell, if they spell one.
pub fn find_keyword(a: u8, b: u8, c: u8) -> (r: Option<Keyword>)
    ensures
        r == keyword(a, b, c),
{
    if a == ascii::D && b == ascii::A && c == ascii::T {
        Some(Keyword::Operation(Opcode::Dat))
    } else if a == ascii::M && b == ascii::O && c == ascii::V {
        Some(Keyword::Operation(Opcode::Mov))
    } else if a == ascii::A && b == ascii::D && c == ascii::D {
        Some(Keyword::Operation(Opcode::Add))
    } else if a == ascii::S && b == ascii::U && c == ascii::B {
        Some(Keyword::Operation(Opcode::Sub))
    } else if a == ascii::M && b == ascii::U && c == ascii::L {
        Some(Keyword::Operation(Opcode::Mul))
    } else if a == ascii::D && b == ascii::I && c == ascii::V {
        Some(Keyword::Operation(Opcode::Div))
    } else if a == ascii::M && b == ascii::O && c == ascii::D {
        Some(Keyword::Operation(Opcode::Mod))
    } else if a == ascii::J && b == ascii::M && c == ascii::P {
        Some(Keyword::Operation(Opcode::Jmp))
    } else if a == ascii::J && b == ascii::M && c == ascii::Z {
        Some(Keyword::Operation(Opcode::Jmz))
    } else if a == ascii::J && b == ascii::M && c == ascii::N {
        Some(Keyword::Operation(Opcode::Jmn))
    } else if a == ascii::D && b == ascii::J && c == ascii::N {
        Some(Keyword::Operation(Opcode::Djn))
    } else if a == ascii::C && b == ascii::M && c == ascii::P {
        Some(Keyword::Operation(Opcode::Cmp))
    } else if a == ascii::S && b == ascii::E && c == ascii::Q {
        Some(Keyword::Operation(Opcode::Skeq))
    } else if a == ascii::S && b == ascii::N && c == ascii::E {
        Some(Keyword::Operation(Opcode::Sne))
    } else if a == ascii::S && b == ascii::L && c == ascii::T {
        Some(Keyword::Operation(Opcode::Slt))
    } else if a == ascii::S && b == ascii::P && c == ascii::L {
        Some(Keyword::Operation(Opcode::Spl))
    } else if a == ascii::N && b == ascii::O && c == ascii::P {
        Some(Keyword::Operation(Opcode::Nop))
    } else if a == ascii::L && b == ascii::D && c == ascii::P {
        Some(Keyword::Operation(Opcode::Ldp))
    } else if a == ascii::S && b == ascii::T && c == ascii::P {
        Some(Keyword::Operation(Opcode::Stp))
    } else if a == ascii::E && b == ascii::Q && c == ascii::U {
        Some(Keyword::Equ)
    } else if a == ascii::F && b == ascii::O && c == ascii::R {
        Some(Keyword::For)
    } else if a == ascii::R && b == ascii::O && c == ascii::F {
        Some(Keyword::Rof)
    } else if a == ascii::O && b == ascii::R && c == ascii::G {
        Some(Keyword::Org)
    } else if a == ascii::E && b == ascii::N && c == ascii::D {
        Some(Keyword::End)
    } else {
        None
    }
}


/// The keyword that the word from `start` to `end` is, if it is one.
pub fn keyword_of(s: &[u8], start: usize, end: usize) -> (r: Option<Keyword>)
    requires
        start <= end <= s@.len(),
    ensures
        r == keyword_at(s@, start as int, end as int),
{
    if end - start == 3 {
        find_keyword(to_lower(s[start]), to_lower(s[start + 1]), to_lower(s[start + 2]))
    } else {
        None
    }
}

} // verus!
