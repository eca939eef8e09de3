//! Working on text: copying it, replacing names in it, writing numbers.

use vstd::prelude::*;

use crate::parser::grammar::ascii;
use crate::parser::grammar::lexical::{
    begins_word, class_has, in_class, is_word_start, lemma_run_end, run_end, scan, Class,
};
use crate::parser::phase::evaluation::expression::is_name;

verus! {

/// A name and the text that stands for it.
#[derive(Debug)]
pub struct Definition {
    pub name: Vec<u8>,
    pub text: Vec<u8>,
}

/// A name and the text that stands for it, in contracts.
pub struct Named {
    pub name: Seq<u8>,
    pub text: Seq<u8>,
}

impl Definition {
    /// The definition as contracts speak of it.
    pub open spec fn named(self) -> Named {
        Named { name: self.name@, text: self.text@ }
    }
}

/// The definitions as contracts speak of them.
pub open spec fn all_named(definitions: Seq<Definition>) -> Seq<Named> {
    Seq::new(definitions.len(), |i: int| definitions[i].named())
}

/// One more definition, in contracts.
pub proof fn lemma_all_named_push(definitions: Seq<Definition>, definition: Definition)
    ensures
        all_named(definitions.push(definition)) == all_named(definitions).push(definition.named()),
{
    assert(all_named(definitions.push(definition)) =~= all_named(definitions).push(
        definition.named(),
    ));
}

/// The place among the first `count` definitions of the last one with the
/// given name, if there is one.
pub open spec fn defined(scope: Seq<Named>, name: Seq<u8>, count: nat) -> Option<int>
    decreases count,
{
    if count == 0 || count > scope.len() {
        None
    } else if scope[count - 1].name == name {
        Some(count - 1)
    } else {
        defined(scope, name, (count - 1) as nat)
    }
}

/// What stands at `i` in a text in which each defined name is to be
/// replaced: the text that takes its place, and where the text goes on.
/// A run of letters, digits and underscores that begins with a letter or an
/// underscore is a name.
pub open spec fn piece(s: Seq<u8>, i: int, scope: Seq<Named>) -> (Seq<u8>, int) {
    let e = run_end(s, i, Class::Word);
    if !(0 <= i < s.len()) {
        (Seq::empty(), i + 1)
    } else if !in_class(Class::Word, s[i]) {
        (seq![s[i]], i + 1)
    } else if !is_word_start(s[i]) {
        (s.subrange(i, e), e)
    } else {
        match defined(scope, s.subrange(i, e), scope.len()) {
            Some(place) => (scope[place].text, e),
            None => (s.subrange(i, e), e),
        }
    }
}

/// The text from `i` on with each defined name replaced by its text.
pub open spec fn replaced(s: Seq<u8>, i: int, scope: Seq<Named>) -> Seq<u8>
    decreases s.len() - i,
{
    if !(0 <= i < s.len()) {
        Seq::empty()
    } else if i < piece(s, i, scope).1 <= s.len() {
        piece(s, i, scope).0 + replaced(s, piece(s, i, scope).1, scope)
    } else {
        Seq::empty()
    }
}

/// Whether the name occurs in the text from `i` on.
pub open spec fn mentions(s: Seq<u8>, i: int, name: Seq<u8>) -> bool
    decreases s.len() - i,
{
    let e = run_end(s, i, Class::Word);
    if !(0 <= i < s.len()) {
        false
    } else if !in_class(Class::Word, s[i]) {
        mentions(s, i + 1, name)
    } else if i < e <= s.len() {
        s.subrange(i, e) == name || mentions(s, e, name)
    } else {
        false
    }
}

/// How many newlines a text has from `i` on.
pub open spec fn newlines_in(s: Seq<u8>, i: int) -> nat
    decreases s.len() - i,
{
    if !(0 <= i < s.len()) {
        0
    } else if s[i] == ascii::NEWLINE {
        1 + newlines_in(s, i + 1)
    } else {
        newlines_in(s, i + 1)
    }
}

/// The digits that write a number.
pub open spec fn digits_of(n: nat) -> Seq<u8>
    decreases n,
{
    if n < 10 {
        seq![(ascii::ZERO + n) as u8]
    } else {
        digits_of(n / 10).push((ascii::ZERO + n % 10) as u8)
    }
}

/// Copy the text from `start` to `end` to the end of `out`.
pub fn append(out: &mut Vec<u8>, s: &[u8], start: usize, end: usize)
    requires
        start <= end <= s@.len(),
    ensures
        final(out)@ == old(out)@ + s@.subrange(start as int, end as int),
{
    let mut i: usize = start;
    while i < end
        invariant
            start <= i <= end <= s@.len(),
            out@ == old(out)@ + s@.subrange(start as int, i as int),
        decreases end - i,
    {
        out.push(s[i]);
        i = i + 1;
        assert(out@ =~= old(out)@ + s@.subrange(start as int, i as int));
    }
    assert(out@ =~= old(out)@ + s@.subrange(start as int, end as int));
}

/// The place of the last definition with the name from `start` to `end`,
/// if there is one.
pub fn find_definition(scope: &[Definition], s: &[u8], start: usize, end: usize) -> (r: Option<
    usize,
>)
    requires
        start <= end <= s@.len(),
    ensures
        match r {
            Some(place) => defined(
                all_named(scope@),
                s@.subrange(start as int, end as int),
                scope@.len(),
            ) == Some(place as int) && place < scope@.len(),
            None => defined(
                all_named(scope@),
                s@.subrange(start as int, end as int),
                scope@.len(),
            ).is_none(),
        },
{
    let ghost name = s@.subrange(start as int, end as int);
    let mut i: usize = scope.len();
    while i > 0
        invariant
            0 <= i <= scope@.len(),
            start <= end <= s@.len(),
            name == s@.subrange(start as int, end as int),
            defined(all_named(scope@), name, scope@.len()) == defined(
                all_named(scope@),
                name,
                i as nat,
            ),
        decreases i,
    {
        i = i - 1;
        if is_name(scope[i].name.as_slice(), s, start, end) {
            return Some(i);
        }
    }
    None
}

/// Copy a text to the end of `out`, with each defined name replaced by its
/// text.
pub fn substitute(s: &[u8], scope: &[Definition], out: &mut Vec<u8>)
    ensures
        final(out)@ == old(out)@ + replaced(s@, 0, all_named(scope@)),
{
    let mut i: usize = 0;
    while i < s.len()
        invariant
            0 <= i <= s@.len(),
            out@ + replaced(s@, i as int, all_named(scope@)) == old(out)@ + replaced(
                s@,
                0,
                all_named(scope@),
            ),
        decreases s@.len() - i,
    {
        let ghost before = out@;
        let ghost rest = replaced(s@, piece(s@, i as int, all_named(scope@)).1, all_named(scope@));
        let c: u8 = s[i];
        if !class_has(Class::Word, c) {
            out.push(c);
            proof {
                assert(out@ + rest =~= before + (seq![c] + rest));
            }
            i = i + 1;
        } else {
            let e = scan(s, i, Class::Word);
            proof {
                lemma_run_end(s@, i + 1, Class::Word);
            }
            let found: Option<usize> = if begins_word(c) {
                find_definition(scope, s, i, e)
            } else {
                None
            };
            match found {
                Some(place) => {
                    let text = scope[place].text.as_slice();
                    append(out, text, 0, text.len());
                    proof {
                        assert(text@.subrange(0, text@.len() as int) =~= text@);
                        assert(all_named(scope@)[place as int].text == text@);
                        assert(out@ + rest =~= before + (text@ + rest));
                    }
                },
                None => {
                    append(out, s, i, e);
                    proof {
                        assert(out@ + rest =~= before + (s@.subrange(i as int, e as int) + rest));
                    }
                },
            }
            i = e;
        }
    }
    proof {
        assert(out@ + Seq::<u8>::empty() =~= out@);
    }
}

/// Whether the name occurs in the text.
pub fn has_name(s: &[u8], name: &[u8]) -> (r: bool)
    ensures
        r == mentions(s@, 0, name@),
{
    let mut i: usize = 0;
    while i < s.len()
        invariant
            0 <= i <= s@.len(),
            mentions(s@, 0, name@) == mentions(s@, i as int, name@),
        decreases s@.len() - i,
    {
        if !class_has(Class::Word, s[i]) {
            i = i + 1;
        } else {
            let e = scan(s, i, Class::Word);
            proof {
                lemma_run_end(s@, i + 1, Class::Word);
            }
            if is_name(name, s, i, e) {
                return true;
            }
            i = e;
        }
    }
    false
}

/// How many newlines a text has.
pub fn count_newlines(s: &[u8]) -> (r: usize)
    ensures
        r == newlines_in(s@, 0),
{
    let mut count: usize = 0;
    let mut i: usize = 0;
    while i < s.len()
        invariant
            0 <= i <= s@.len(),
            count + newlines_in(s@, i as int) == newlines_in(s@, 0),
            count <= i,
        decreases s@.len() - i,
    {
        if s[i] == ascii::NEWLINE {
            count = count + 1;
        }
        i = i + 1;
    }
    count
}

/// Write a number in digits at the end of `out`.
pub fn write_number(out: &mut Vec<u8>, n: u64)
    ensures
        final(out)@ == old(out)@ + digits_of(n as nat),
    decreases n,
{
    if n < 10 {
        out.push(ascii::ZERO + n as u8);
        proof {
            assert(out@ =~= old(out)@ + digits_of(n as nat));
        }
    } else {
        write_number(out, n / 10);
        out.push(ascii::ZERO + (n % 10) as u8);
        proof {
            assert(out@ =~= old(out)@ + digits_of(n as nat));
        }
    }
}

} // verus!
