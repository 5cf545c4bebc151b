//! Short display labels for channel cards: truncated names, two-letter
//! avatars and source-picker captions.

use vstd::prelude::*;
use vstd::utf8::encode_utf8;
use crate::text::{ascii_upper, chars_of, is_ascii_letter, push_char, string_of, to_ascii_upper};

verus! {

/// Width, in bytes, up to which a source name is shown whole on a card.
pub const CHANNEL_NAME_WIDTH: usize = 28;

/// The ellipsis that ends a shortened label.
pub open spec fn ellipsis() -> char {
    '\u{2026}'
}

/// `s` as shown in at most `max_len` bytes: whole when its UTF-8 encoding
/// fits, else its first `max_len - 1` characters (as many as it has when
/// fewer) followed by an ellipsis.
pub open spec fn truncated(s: Seq<char>, max_len: nat) -> Seq<char> {
    if encode_utf8(s).len() <= max_len {
        s
    } else {
        let keep: int = if max_len == 0 { 0 } else { max_len - 1 };
        let keep: int = if keep <= s.len() { keep } else { s.len() as int };
        s.take(keep).push(ellipsis())
    }
}

/// Shortens `s` to `max_len` bytes as `truncated` says.
pub fn truncate_label(s: &str, max_len: usize) -> (label: String)
    ensures
        label@ == truncated(s@, max_len as nat),
{
    if s.as_bytes().len() <= max_len {
        return s.to_owned();
    }
    let chars = chars_of(s);
    let keep: usize = if max_len == 0 { 0 } else { max_len - 1 };
    let keep: usize = if keep <= chars.len() { keep } else { chars.len() };
    let mut out: Vec<char> = Vec::new();
    let mut i: usize = 0;
    while i < keep
        invariant
            keep <= chars.len(),
            chars@ == s@,
            i <= keep,
            out@ == s@.take(i as int),
        decreases keep - i,
    {
        out.push(chars[i]);
        assert(s@.take(i + 1) =~= s@.take(i as int).push(s@[i as int]));
        i = i + 1;
    }
    out.push('\u{2026}');
    string_of(&out)
}

/// The caption of a source picker: the source label shortened to the card's
/// name width.
pub fn source_choice_label(source_label: &str) -> (label: String)
    ensures
        label@ == truncated(source_label@, CHANNEL_NAME_WIDTH as nat),
{
    truncate_label(source_label, CHANNEL_NAME_WIDTH)
}

/// Characters of a node name shown on a channel strip before it is cut.
pub const STRIP_NAME_CHARS: usize = 14;

/// A node name as a channel strip shows it: its first 14 characters,
/// followed by `...` when it has more.
pub open spec fn strip_label(name: Seq<char>) -> Seq<char> {
    if name.len() > STRIP_NAME_CHARS {
        name.take(STRIP_NAME_CHARS as int) + "..."@
    } else {
        name
    }
}

/// The label of a channel strip for a node called `name`.
pub fn channel_label(name: &str) -> (label: String)
    ensures
        label@ == strip_label(name@),
{
    let chars = chars_of(name);
    if chars.len() <= STRIP_NAME_CHARS {
        return name.to_owned();
    }
    let mut short: Vec<char> = Vec::new();
    let mut i: usize = 0;
    while i < STRIP_NAME_CHARS
        invariant
            chars@ == name@,
            chars.len() > STRIP_NAME_CHARS,
            i <= STRIP_NAME_CHARS,
            short@ == name@.take(i as int),
        decreases STRIP_NAME_CHARS - i,
    {
        short.push(chars[i]);
        assert(name@.take(i + 1) =~= name@.take(i as int).push(name@[i as int]));
        i = i + 1;
    }
    let mut label = string_of(&short);
    label.append("...");
    label
}

/// The first `n` items of `s` (all of them when it has fewer).
pub open spec fn first_n<A>(s: Seq<A>, n: nat) -> Seq<A> {
    if s.len() <= n {
        s
    } else {
        s.take(n as int)
    }
}

/// The avatar text of `name`: its first two ASCII letters in upper case, or
/// a question mark when it has none.
pub open spec fn avatar(name: Seq<char>) -> Seq<char> {
    let letters = first_n(name.filter(|c: char| is_ascii_letter(c)), 2);
    if letters.len() == 0 {
        seq!['?']
    } else {
        letters.map_values(|c: char| ascii_upper(c))
    }
}

/// The two-letter avatar of a channel or bus name.
pub fn avatar_label(name: &str) -> (label: String)
    ensures
        label@ == avatar(name@),
{
    let chars = chars_of(name);
    let mut letters: Vec<char> = Vec::new();
    let mut i: usize = 0;
    while i < chars.len()
        invariant
            chars@ == name@,
            i <= chars.len(),
            letters@ == first_n(name@.take(i as int).filter(|c: char| is_ascii_letter(c)), 2).map_values(
                |c: char| ascii_upper(c),
            ),
        decreases chars.len() - i,
    {
        let c = chars[i];
        let is_letter = ('a' <= c && c <= 'z') || ('A' <= c && c <= 'Z');
        let ghost before = name@.take(i as int).filter(|c: char| is_ascii_letter(c));
        proof {
            reveal_with_fuel(Seq::<_>::filter, 1);
            assert(name@.take(i + 1).drop_last() =~= name@.take(i as int));
            assert(name@.take(i + 1).last() == c);
            let t = name@.take(i + 1);
            assert(t.filter(|c: char| is_ascii_letter(c)) == (if is_ascii_letter(t.last()) {
                t.drop_last().filter(|c: char| is_ascii_letter(c)).push(t.last())
            } else {
                t.drop_last().filter(|c: char| is_ascii_letter(c))
            }));
            if is_letter {
                assert(name@.take(i + 1).filter(|c: char| is_ascii_letter(c)) == before.push(c));
            } else {
                assert(name@.take(i + 1).filter(|c: char| is_ascii_letter(c)) == before);
            }
        }
        if is_letter && letters.len() < 2 {
            proof {
                assert(first_n(before, 2) == before);
                assert(first_n(before.push(c), 2) =~= before.push(c));
                assert(before.push(c).map_values(|c: char| ascii_upper(c)) =~= before.map_values(
                    |c: char| ascii_upper(c),
                ).push(ascii_upper(c)));
            }
            letters.push(to_ascii_upper(c));
        } else if is_letter {
            assert(first_n(before.push(c), 2) =~= first_n(before, 2));
        }
        i = i + 1;
    }
    assert(name@.take(i as int) =~= name@);
    if letters.len() == 0 {
        let mut out = String::new();
        push_char(&mut out, '?');
        out
    } else {
        string_of(&letters)
    }
}

} // verus!
