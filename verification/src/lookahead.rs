use vstd::prelude::*;
use itertools::structs::PeekNth;
use itertools::{peek_nth, Itertools};
use std::str::Chars;
use std::vec::IntoIter;
use crate::scanner::Token;
use crate::text::{accepts, CharClass};

verus! {

/// The look-ahead iterator of `itertools`, which hands out its items one by
/// one and lets the next ones be looked at before they are taken.
#[verifier::external_type_specification]
#[verifier::external_body]
#[verifier::reject_recursive_types(I)]
pub struct ExPeekNth<I: Iterator>(PeekNth<I>);

/// The characters that a look-ahead iterator over a text has yet to hand out,
/// the next one first.
pub uninterp spec fn pending(chars: PeekNth<Chars<'_>>) -> Seq<char>;

/// How many items at the start of `text` belong to `class`, up to the first
/// that does not.
pub open spec fn run(text: Seq<char>, class: CharClass) -> nat
    decreases text.len(),
{
    if text.len() == 0 || !class.holds(text[0]) {
        0
    } else {
        1 + run(text.drop_first(), class)
    }
}

/// `itertools::peek_nth` on the characters of a text: the iterator has all of
/// them to hand out, in order.
#[verifier::external_body]
pub(crate) fn characters<'a>(source: &'a str) -> (chars: PeekNth<Chars<'a>>)
    ensures
        pending(chars) == source@,
{
    peek_nth(source.chars())
}

/// `PeekNth::peek`: the next character, which stays in the iterator; `None`
/// at the end.
#[verifier::external_body]
pub(crate) fn peek(chars: &mut PeekNth<Chars<'_>>) -> (c: Option<char>)
    ensures
        pending(*final(chars)) == pending(*old(chars)),
        c == if pending(*old(chars)).len() > 0 {
            Some(pending(*old(chars))[0])
        } else {
            None
        },
{
    chars.peek().copied()
}

/// `PeekNth::peek_nth`: the character `n` places after the next one, which
/// stays in the iterator, as all before it do; `None` where there are not
/// that many left.
#[verifier::external_body]
pub(crate) fn peek_at(chars: &mut PeekNth<Chars<'_>>, n: usize) -> (c: Option<char>)
    requires
        n < usize::MAX,
    ensures
        pending(*final(chars)) == pending(*old(chars)),
        c == if n < pending(*old(chars)).len() {
            Some(pending(*old(chars))[n as int])
        } else {
            None
        },
{
    chars.peek_nth(n).copied()
}

/// `PeekNth::next`: takes the next character out of the iterator; `None` at
/// the end.
#[verifier::external_body]
pub(crate) fn take(chars: &mut PeekNth<Chars<'_>>) -> (c: Option<char>)
    ensures
        c == if pending(*old(chars)).len() > 0 {
            Some(pending(*old(chars))[0])
        } else {
            None
        },
        pending(*final(chars)) == if pending(*old(chars)).len() > 0 {
            pending(*old(chars)).drop_first()
        } else {
            pending(*old(chars))
        },
{
    chars.next()
}

/// `PeekNth::next_if_eq`: takes the next character out of the iterator where
/// it is `expected`, and leaves the iterator as it is where it is not.
#[verifier::external_body]
pub(crate) fn take_if_eq(chars: &mut PeekNth<Chars<'_>>, expected: char) -> (c: Option<char>)
    ensures
        c == if pending(*old(chars)).len() > 0 && pending(*old(chars))[0] == expected {
            Some(expected)
        } else {
            None
        },
        pending(*final(chars)) == if pending(*old(chars)).len() > 0 && pending(*old(chars))[0]
            == expected {
            pending(*old(chars)).drop_first()
        } else {
            pending(*old(chars))
        },
{
    chars.next_if_eq(&expected)
}

/// `Itertools::take_while_ref`, collected: takes the characters of `class`
/// out of the iterator up to the first that is not of it, which stays in the
/// iterator, and gives them in order.
#[verifier::external_body]
pub(crate) fn take_while_ref(chars: &mut PeekNth<Chars<'_>>, class: CharClass) -> (taken: Vec<char>)
    ensures
        taken@ == pending(*old(chars)).take(run(pending(*old(chars)), class) as int),
        pending(*final(chars)) == pending(*old(chars)).skip(
            run(pending(*old(chars)), class) as int,
        ),
{
    chars.take_while_ref(|c| accepts(class, *c)).collect()
}

/// `Iterator::take_while` on the iterator itself, run to its end: takes the
/// characters of `class` out of the iterator, and the first that is not of
/// it as well.
#[verifier::external_body]
pub(crate) fn skip_through(chars: &mut PeekNth<Chars<'_>>, class: CharClass)
    ensures
        pending(*final(chars)) == if run(pending(*old(chars)), class) < pending(
            *old(chars),
        ).len() {
            pending(*old(chars)).skip(run(pending(*old(chars)), class) as int + 1)
        } else {
            Seq::empty()
        },
{
    let _: String = chars.by_ref().take_while(|c| accepts(class, *c)).collect();
}


/// The tokens that a look-ahead iterator over tokens has yet to hand out, the
/// next one first.
pub uninterp spec fn upcoming(tokens: PeekNth<IntoIter<Token>>) -> Seq<Token>;

/// `itertools::peek_nth` on a vector of tokens: the iterator has all of them
/// to hand out, in order.
#[verifier::external_body]
pub(crate) fn stream(tokens: Vec<Token>) -> (r: PeekNth<IntoIter<Token>>)
    ensures
        upcoming(r) == tokens@,
{
    peek_nth(tokens)
}

/// `PeekNth::peek`, cloned: a copy of the next token, which stays in the
/// iterator; `None` at the end.
#[verifier::external_body]
pub(crate) fn peek_token(tokens: &mut PeekNth<IntoIter<Token>>) -> (r: Option<Token>)
    ensures
        upcoming(*final(tokens)) == upcoming(*old(tokens)),
        r == if upcoming(*old(tokens)).len() > 0 {
            Some(upcoming(*old(tokens))[0])
        } else {
            None
        },
{
    tokens.peek().cloned()
}

/// `PeekNth::next`: takes the next token out of the iterator; `None` at the end.
#[verifier::external_body]
pub(crate) fn next_token(tokens: &mut PeekNth<IntoIter<Token>>) -> (r: Option<Token>)
    ensures
        r == if upcoming(*old(tokens)).len() > 0 {
            Some(upcoming(*old(tokens))[0])
        } else {
            None
        },
        upcoming(*final(tokens)) == if upcoming(*old(tokens)).len() > 0 {
            upcoming(*old(tokens)).drop_first()
        } else {
            upcoming(*old(tokens))
        },
{
    tokens.next()
}

} // verus!
