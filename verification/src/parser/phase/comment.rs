//! What the comments of a source say of the warrior.
//!
//! A line that begins with a semicolon is a comment. Where the first word
//! of a comment is `redcode`, `name`, `author` or `strategy`, in upper or
//! lower case, the comment says something of the warrior: the rest of the
//! line, without the blanks around it.

use vstd::prelude::*;
use vstd::slice::slice_subrange;
use vstd::string::StringSliceAdditionalSpecFns;

use crate::load_file::{Described, Metadata};
use crate::parser::grammar::ascii;
use crate::parser::grammar::expression::{at, holds};
use crate::parser::grammar::lexical::{lower, run_end, scan, skip, skip_spaces, to_lower, Class};
use crate::parser::grammar::line::{trim, trimmed};
use crate::parser::phase::expansion::{copy_of, line_bounds, next_line};
use crate::parser::phase::text::append;

verus! {

/// Whether the text from `start` to `end` is the given word, in upper or
/// lower case. The word is in lower case.
pub open spec fn spells(s: Seq<u8>, start: int, end: int, word: Seq<u8>) -> bool {
    &&& 0 <= start <= end <= s.len()
    &&& end - start == word.len()
    &&& forall|k: int| 0 <= k < word.len() ==> lower(s[start + k]) == #[trigger] word[k]
}

/// One more line for a text that may be missing.
pub open spec fn continued(text: Option<Seq<u8>>, more: Seq<u8>) -> Option<Seq<u8>> {
    match text {
        Some(text) => Some(text + seq![ascii::NEWLINE] + more),
        None => Some(more),
    }
}

/// What is known of the warrior after a line was read.
pub open spec fn noted(known: Described, raw: Seq<u8>) -> Described {
    let semicolon = skip(raw, 0);
    let start = skip(raw, semicolon + 1);
    let end = run_end(raw, start, Class::Word);
    let from = skip(raw, end);
    let said = raw.subrange(from, trimmed(raw, from, raw.len() as int));
    if !at(raw, semicolon, ascii::SEMICOLON) {
        known
    } else if spells(raw, start, end, "redcode".spec_bytes()) {
        Described { redcode: true, ..known }
    } else if spells(raw, start, end, "name".spec_bytes()) {
        Described { name: Some(said), ..known }
    } else if spells(raw, start, end, "author".spec_bytes()) {
        Described { author: Some(said), ..known }
    } else if spells(raw, start, end, "strategy".spec_bytes()) {
        Described { strategy: continued(known.strategy, said), ..known }
    } else {
        known
    }
}

/// What is known of the warrior after the lines of a text were read from
/// `i` on.
pub open spec fn described(s: Seq<u8>, i: int, known: Described) -> Described
    decreases s.len() - i,
{
    let (e, next) = line_bounds(s, i);
    if !(0 <= i < s.len()) || !(i < next <= s.len()) {
        known
    } else {
        described(s, next, noted(known, s.subrange(i, e)))
    }
}

/// Whether the text from `start` to `end` is the given word, in upper or
/// lower case.
pub fn is_word(s: &[u8], start: usize, end: usize, word: &[u8]) -> (r: bool)
    requires
        start <= end <= s@.len(),
    ensures
        r == spells(s@, start as int, end as int, word@),
{
    if end - start != word.len() {
        return false;
    }
    let mut k: usize = 0;
    while k < word.len()
        invariant
            0 <= k <= word@.len(),
            start <= end <= s@.len(),
            end - start == word@.len(),
            forall|j: int| 0 <= j < k ==> lower(s@[start + j]) == #[trigger] word@[j],
        decreases word@.len() - k,
    {
        if to_lower(s[start + k]) != word[k] {
            return false;
        }
        k = k + 1;
    }
    true
}

/// Read a line for what it says of the warrior.
pub fn note(known: &mut Metadata, raw: &[u8])
    ensures
        final(known).shown() == noted(old(known).shown(), raw@),
{
    let semicolon = skip_spaces(raw, 0);
    if !holds(raw, semicolon, ascii::SEMICOLON) {
        return ;
    }
    let start = skip_spaces(raw, semicolon + 1);
    let end = scan(raw, start, Class::Word);
    let from = skip_spaces(raw, end);
    let to = trim(raw, from, raw.len());
    if is_word(raw, start, end, "redcode".as_bytes()) {
        known.redcode = true;
    } else if is_word(raw, start, end, "name".as_bytes()) {
        known.name = Some(copy_of(raw, from, to));
    } else if is_word(raw, start, end, "author".as_bytes()) {
        known.author = Some(copy_of(raw, from, to));
    } else if is_word(raw, start, end, "strategy".as_bytes()) {
        let mut text: Vec<u8> = match known.strategy.take() {
            Some(text) => {
                let mut text = text;
                text.push(ascii::NEWLINE);
                text
            },
            None => Vec::new(),
        };
        append(&mut text, raw, from, to);
        proof {
            let more = raw@.subrange(from as int, to as int);
            match old(known).strategy {
                Some(before) => {
                    assert(text@ =~= before@ + seq![ascii::NEWLINE] + more);
                },
                None => {
                    assert(text@ =~= more);
                },
            }
        }
        known.strategy = Some(text);
    }
}

/// Read the lines of a text for what they say of the warrior.
pub fn describe(s: &[u8]) -> (r: Metadata)
    ensures
        r.shown() == described(s@, 0, Described::nothing()),
{
    let mut known = Metadata::default();
    let mut at: usize = 0;
    while at < s.len()
        invariant
            0 <= at <= s@.len(),
            described(s@, at as int, known.shown()) == described(s@, 0, Described::nothing()),
        decreases s@.len() - at,
    {
        let (e, next) = next_line(s, at);
        note(&mut known, slice_subrange(s, at, e));
        at = next;
    }
    known
}

} // verus!
