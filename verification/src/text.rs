//! Text: what the functions of std used here do, as far as vstd does not say
//! it, and on top of them joining, splitting into words, shortening and
//! padding.

use vstd::prelude::*;
use vstd::std_specs::iter::IteratorSpec;
use vstd::string::next_postcondition;
use vstd::string::StrSliceExecFns;
use vstd::string::StringExecFns;
use vstd::string::StringSliceAdditionalSpecFns;
use vstd::utf8::decode_utf8;
use vstd::utf8::encode_utf8;
use vstd::utf8::encode_utf8_decode_utf8;
use vstd::utf8::is_char_boundary;

verus! {

/// `String::push` appends one character.
pub assume_specification[ String::push ](text: &mut String, c: char)
    ensures
        final(text)@ == old(text)@.push(c),
;

/// `String::pop` removes the last character and returns it, or returns `None`
/// and leaves an empty string as it is.
pub assume_specification[ String::pop ](text: &mut String) -> (r: Option<char>)
    ensures
        old(text)@.len() == 0 ==> r.is_none() && final(text)@ == old(text)@,
        old(text)@.len() > 0 ==> r == Some(old(text)@.last()) && final(text)@ == old(
            text,
        )@.drop_last(),
;

/// Two string slices are equal when they hold the same characters.
pub assume_specification[ <str as PartialEq>::eq ](a: &str, b: &str) -> (r: bool)
    ensures
        r == (a@ == b@),
;

/// Whether `c` has the Unicode property White_Space: the controls from the
/// tab to the carriage return, the space, the next line, the no-break space,
/// the ogham space mark, the spaces from the en quad to the hair space, the
/// line and the paragraph separator, the narrow no-break space, the medium
/// mathematical space and the ideographic space.
pub open spec fn white_space(c: char) -> bool {
    let code = c as u32;
    ||| 0x0009 <= code <= 0x000D
    ||| code == 0x0020
    ||| code == 0x0085
    ||| code == 0x00A0
    ||| code == 0x1680
    ||| 0x2000 <= code <= 0x200A
    ||| code == 0x2028
    ||| code == 0x2029
    ||| code == 0x202F
    ||| code == 0x205F
    ||| code == 0x3000
}

/// `char::is_whitespace` tells whether the character has the property
/// White_Space.
pub assume_specification[ char::is_whitespace ](c: char) -> (r: bool)
    ensures
        r == white_space(c),
;

/// `text` without the white space at its end.
pub open spec fn trimmed_end(text: Seq<char>) -> Seq<char>
    decreases text.len(),
{
    if text.len() > 0 && white_space(text.last()) {
        trimmed_end(text.drop_last())
    } else {
        text
    }
}

/// `text` without the white space at its start.
pub open spec fn trimmed_start(text: Seq<char>) -> Seq<char>
    decreases text.len(),
{
    if text.len() > 0 && white_space(text.first()) {
        trimmed_start(text.drop_first())
    } else {
        text
    }
}

/// `text` without the white space at its start and at its end.
pub open spec fn trimmed(text: Seq<char>) -> Seq<char> {
    trimmed_end(trimmed_start(text))
}

/// `str::trim` removes leading and trailing white space.
pub assume_specification[ str::trim ](text: &str) -> (r: &str)
    ensures
        r@ == trimmed(text@),
;

/// Whether `c` is one of the digits `0` to `9`.
pub open spec fn is_digit(c: char) -> bool {
    '0' <= c <= '9'
}

/// The number that the decimal digits of `digits` write.
pub open spec fn digits_value(digits: Seq<char>) -> int
    decreases digits.len(),
{
    if digits.len() == 0 {
        0
    } else {
        digits_value(digits.drop_last()) * 10 + (digits.last() as int - '0' as int)
    }
}

/// The number that `text` writes: an optional `+`, then one or more decimal
/// digits and nothing else.
pub open spec fn unsigned_decimal(text: Seq<char>) -> Option<int> {
    let digits = if text.len() > 0 && text[0] == '+' {
        text.skip(1)
    } else {
        text
    };
    if digits.len() > 0 && forall|i: int| 0 <= i < digits.len() ==> is_digit(#[trigger] digits[i]) {
        Some(digits_value(digits))
    } else {
        None
    }
}

/// Calls `str::parse` for `u32`: a number is read where the text is an
/// optional `+` and then only decimal digits, and the number fits.
#[verifier::external_body]
pub(crate) fn parse_u32(text: &str) -> (r: Option<u32>)
    ensures
        r.is_some() == (unsigned_decimal(text@) matches Some(value) && value <= u32::MAX),
        r matches Some(number) ==> unsigned_decimal(text@) == Some(number as int),
{
    text.parse::<u32>().ok()
}

/// Whether two texts hold the same characters.
pub fn same_text(a: &str, b: &str) -> (r: bool)
    ensures
        r == (a@ == b@),
{
    PartialEq::eq(a, b)
}

/// The parts of `parts` in order, with `separator` between neighbours.
pub open spec fn joined(parts: Seq<Seq<char>>, separator: Seq<char>) -> Seq<char>
    decreases parts.len(),
{
    if parts.len() == 0 {
        Seq::empty()
    } else if parts.len() == 1 {
        parts[0]
    } else {
        joined(parts.drop_last(), separator) + separator + parts.last()
    }
}

/// The views of the strings of `parts`.
pub open spec fn texts(parts: Seq<String>) -> Seq<Seq<char>> {
    parts.map_values(|part: String| part@)
}

/// Joins `parts` with `separator` between neighbours.
pub fn join(parts: &Vec<String>, separator: &str) -> (text: String)
    ensures
        text@ == joined(texts(parts@), separator@),
{
    let mut text = String::new();
    let mut i: usize = 0;
    while i < parts.len()
        invariant
            i <= parts.len(),
            text@ == joined(texts(parts@.take(i as int)), separator@),
        decreases parts.len() - i,
    {
        proof {
            let before = texts(parts@.take(i as int));
            let after = texts(parts@.take(i + 1));
            assert(after.drop_last() =~= before);
            assert(after.last() == parts@[i as int]@);
            if i == 0 {
                assert(text@ + parts@[0]@ =~= parts@[0]@);
            }
        }
        if i > 0 {
            text.append(separator);
        }
        text.append(parts[i].as_str());
        i += 1;
    }
    proof {
        assert(parts@.take(i as int) =~= parts@);
    }
    text
}

/// The words finished and the word in progress after reading `text` from the
/// left: white space ends a word, any other character goes into the word in
/// progress.
pub open spec fn scan(text: Seq<char>) -> (Seq<Seq<char>>, Seq<char>)
    decreases text.len(),
{
    if text.len() == 0 {
        (Seq::empty(), Seq::empty())
    } else {
        let (done, word) = scan(text.drop_last());
        if !white_space(text.last()) {
            (done, word.push(text.last()))
        } else if word.len() > 0 {
            (done.push(word), Seq::empty())
        } else {
            (done, word)
        }
    }
}

/// The words of `text`: its longest runs of characters that are not white
/// space, in order.
pub open spec fn words(text: Seq<char>) -> Seq<Seq<char>> {
    let (done, word) = scan(text);
    if word.len() > 0 {
        done.push(word)
    } else {
        done
    }
}

/// Splits `text` into its words.
pub fn split_words(text: &str) -> (r: Vec<String>)
    ensures
        texts(r@) == words(text@),
{
    let mut done: Vec<String> = Vec::new();
    let mut word = String::new();
    let mut rest = text.chars();
    let ghost mut read: Seq<char> = Seq::empty();
    proof {
        broadcast use vstd::string::axiom_spec_iter;

        assert(texts(done@) =~= scan(read).0);
        assert(read + rest.remaining() =~= text@);
    }
    loop
        invariant
            rest.decrease() is Some,
            read + rest.remaining() == text@,
            texts(done@) == scan(read).0,
            word@ == scan(read).1,
        ensures
            read == text@,
            texts(done@) == scan(read).0,
            word@ == scan(read).1,
        decreases rest.decrease()->0,
    {
        let ghost before = rest;
        let next = rest.next();
        proof {
            next_postcondition(&before, &rest, next);
        }
        match next {
            Some(c) => {
                proof {
                    assert(read.push(c).drop_last() =~= read);
                    assert(read.push(c) + rest.remaining() =~= read + before.remaining());
                    read = read.push(c);
                }
                if !c.is_whitespace() {
                    word.push(c);
                } else if !word.as_str().is_empty() {
                    proof {
                        lemma_texts_push(done@, word);
                    }
                    done.push(word);
                    word = String::new();
                }
            },
            None => {
                proof {
                    assert(read + rest.remaining() =~= read);
                }
                break ;
            },
        }
    }
    if !word.as_str().is_empty() {
        proof {
            lemma_texts_push(done@, word);
        }
        done.push(word);
    }
    done
}

/// No word is empty and no word holds white space.
pub proof fn lemma_words_are_solid(text: Seq<char>)
    ensures
        forall|i: int, j: int|
            0 <= i < words(text).len() && 0 <= j < words(text)[i].len() ==> !white_space(
                #[trigger] words(text)[i][j],
            ),
        forall|i: int| 0 <= i < words(text).len() ==> (#[trigger] words(text)[i]).len() > 0,
{
    lemma_scan_is_solid(text);
}

/// What holds of the words finished holds of the word in progress too, but
/// that it may be empty.
proof fn lemma_scan_is_solid(text: Seq<char>)
    ensures
        forall|i: int, j: int|
            0 <= i < scan(text).0.len() && 0 <= j < scan(text).0[i].len() ==> !white_space(
                #[trigger] scan(text).0[i][j],
            ),
        forall|i: int| 0 <= i < scan(text).0.len() ==> (#[trigger] scan(text).0[i]).len() > 0,
        forall|j: int| 0 <= j < scan(text).1.len() ==> !white_space(#[trigger] scan(text).1[j]),
    decreases text.len(),
{
    if text.len() > 0 {
        lemma_scan_is_solid(text.drop_last());
        let (done, word) = scan(text.drop_last());
        let (now_done, now_word) = scan(text);
        assert forall|i: int| 0 <= i < now_done.len() implies (#[trigger] now_done[i]).len() > 0
            && forall|j: int| 0 <= j < now_done[i].len() ==> !white_space(
            #[trigger] now_done[i][j],
        ) by {
            if i < done.len() {
                assert(now_done[i] == done[i]);
            } else {
                assert(now_done[i] == word);
            }
        }
        assert forall|j: int| 0 <= j < now_word.len() implies !white_space(
            #[trigger] now_word[j],
        ) by {
            if j < word.len() {
                assert(now_word[j] == word[j]);
            }
        }
    }
}

/// The test for a character that is not white space.
pub open spec fn is_solid() -> spec_fn(char) -> bool {
    |c: char| !white_space(c)
}

/// The words hold every character of the text that is not white space, in the
/// order of the text, and nothing else.
pub proof fn lemma_words_keep_text(text: Seq<char>)
    ensures
        words(text).flatten() == text.filter(is_solid()),
{
    lemma_scan_keeps_text(text);
    let (done, word) = scan(text);
    if word.len() > 0 {
        done.lemma_flatten_push(word);
    } else {
        assert(done.flatten() + word =~= done.flatten());
    }
}

/// The words finished and then the word in progress hold what was read and
/// is not white space.
proof fn lemma_scan_keeps_text(text: Seq<char>)
    ensures
        scan(text).0.flatten() + scan(text).1 == text.filter(is_solid()),
    decreases text.len(),
{
    reveal(Seq::filter);
    if text.len() > 0 {
        lemma_scan_keeps_text(text.drop_last());
        let (done, word) = scan(text.drop_last());
        if !white_space(text.last()) {
            assert(done.flatten() + word.push(text.last()) =~= (done.flatten() + word).push(
                text.last(),
            ));
        } else if word.len() > 0 {
            done.lemma_flatten_push(word);
            assert(done.push(word).flatten() + Seq::<char>::empty() =~= done.flatten() + word);
        }
    } else {
        assert(scan(text).0.flatten() + scan(text).1 =~= text.filter(is_solid()));
    }
}

/// Appending a string appends its text.
pub proof fn lemma_texts_push(parts: Seq<String>, part: String)
    ensures
        texts(parts.push(part)) == texts(parts).push(part@),
{
    assert(texts(parts.push(part)) =~= texts(parts).push(part@));
}

/// Whether `text` can be shortened to its first `keep` bytes: it is no longer
/// than `limit` bytes, or its byte `keep` starts a character.
pub open spec fn can_shorten(text: Seq<char>, limit: int, keep: int) -> bool {
    encode_utf8(text).len() > limit ==> is_char_boundary(encode_utf8(text), keep)
}

/// `text` itself where its UTF-8 form has at most `limit` bytes, else the
/// first `keep` bytes of that form and three dots.
pub open spec fn shortened(text: Seq<char>, limit: int, keep: int) -> Seq<char> {
    if encode_utf8(text).len() > limit {
        decode_utf8(encode_utf8(text).subrange(0, keep)) + "..."@
    } else {
        text
    }
}

/// Shortens a text that is longer than `limit` bytes to its first `keep` bytes
/// and three dots.
pub fn shorten(text: &str, limit: usize, keep: usize) -> (r: String)
    requires
        keep <= limit,
        can_shorten(text@, limit as int, keep as int),
    ensures
        r@ == shortened(text@, limit as int, keep as int),
{
    if text.as_bytes().len() > limit {
        let (head, _) = text.split_at(keep);
        proof {
            encode_utf8_decode_utf8(head@);
            assert(head.spec_bytes() == encode_utf8(head@));
            assert(head@ == decode_utf8(encode_utf8(text@).subrange(0, keep as int)));
        }
        let mut r = head.to_owned();
        r.append("...");
        r
    } else {
        text.to_owned()
    }
}

/// `count` times the character `c`.
pub open spec fn repeated(c: char, count: nat) -> Seq<char> {
    Seq::new(count, |i: int| c)
}

/// `text` with spaces behind it up to `width` characters; a longer text stays
/// as it is.
pub open spec fn padded(text: Seq<char>, width: nat) -> Seq<char> {
    if text.len() >= width {
        text
    } else {
        text + repeated(' ', (width - text.len()) as nat)
    }
}

/// Appends `c` to `text` `count` times.
pub fn push_repeated(text: &mut String, c: char, count: usize)
    ensures
        final(text)@ == old(text)@ + repeated(c, count as nat),
{
    let mut i: usize = 0;
    proof {
        assert(text@ =~= old(text)@ + repeated(c, 0));
    }
    while i < count
        invariant
            i <= count,
            text@ == old(text)@ + repeated(c, i as nat),
        decreases count - i,
    {
        text.push(c);
        i += 1;
        proof {
            assert(text@ =~= old(text)@ + repeated(c, i as nat));
        }
    }
}

/// Appends `part` to `text`, with spaces behind it up to `width` characters.
pub fn push_padded(text: &mut String, part: &str, width: usize)
    ensures
        final(text)@ == old(text)@ + padded(part@, width as nat),
{
    let length = part.unicode_len();
    text.append(part);
    if length < width {
        push_repeated(text, ' ', width - length);
        proof {
            assert(text@ =~= old(text)@ + padded(part@, width as nat));
        }
    }
}

} // verus!
