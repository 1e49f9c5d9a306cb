//! Searching bytes: reading a query, finding its matches, and reporting them in batches.

use vstd::prelude::*;

use crate::geometry;
use crate::model::SearchMatch;
use crate::numbers;
use crate::numbers::read_number;
use crate::text;
use crate::text::{chars_of, is_whitespace, same_text, split_text, string_of, strip_prefix, trimmed};

verus! {

broadcast use crate::text::group_views;

/// The number of matches that are reported together.
pub const BATCH_SIZE: usize = 256;

/// The number of bytes between two reports of progress.
pub const PROGRESS_INTERVAL: usize = 1_048_576;

/// The number of places that are looked at before a search can be cancelled again.
pub const CANCEL_INTERVAL: usize = 16_384;

// ---------------------------------------------------------------------------
// Regular expressions and lossy text
// ---------------------------------------------------------------------------

/// What `regex::bytes::Regex::new` has against a pattern: the text of its error, or nothing for
/// a pattern that it accepts. It bounds the size in memory of what it compiles, so that the
/// number of bits in a word has a part in this.
pub uninterp spec fn regex_error(pattern: Seq<char>, word_bits: int) -> Option<Seq<char>>;

/// The spans that `regex::bytes::Regex::find_iter` yields for a pattern and a haystack, each by
/// its start and the offset after its end.
pub uninterp spec fn regex_spans(pattern: Seq<char>, bytes: Seq<u8>) -> Seq<(usize, usize)>;

/// Calls `regex::bytes::Regex::new` and keeps the text of its error. The outcome is named
/// [`regex_error`].
#[verifier::external_body]
fn regex_verdict(pattern: &str) -> (verdict: Result<(), String>)
    ensures
        match verdict {
            Ok(_) => regex_error(pattern@, usize::BITS as int) is None,
            Err(error) => regex_error(pattern@, usize::BITS as int) == Some(error@),
        },
{
    match regex::bytes::Regex::new(pattern) {
        Ok(_) => Ok(()),
        Err(error) => Err(error.to_string()),
    }
}

/// Calls `regex::bytes::Regex::find_iter` on the compiled pattern and collects the spans it
/// yields. They are named [`regex_spans`]. Each lies in the haystack, and each starts at or
/// after the end of the one before it, since the matches are successive and do not overlap.
#[verifier::external_body]
fn regex_find(pattern: &str, bytes: &[u8]) -> (spans: Vec<(usize, usize)>)
    requires
        regex_error(pattern@, usize::BITS as int) is None,
    ensures
        spans@ == regex_spans(pattern@, bytes@),
        forall|i: int|
            0 <= i < spans@.len() ==> (#[trigger] spans@[i]).0 <= spans@[i].1 <= bytes@.len(),
        forall|i: int, j: int|
            #![trigger spans@[i], spans@[j]]
            0 <= i < j < spans@.len() ==> spans@[i].1 <= spans@[j].0,
{
    match regex::bytes::Regex::new(pattern) {
        Ok(regex) => regex.find_iter(bytes).map(|found| (found.start(), found.end())).collect(),
        Err(_) => Vec::new(),
    }
}

/// The text that `String::from_utf8_lossy` makes of bytes.
pub uninterp spec fn utf8_lossy(bytes: Seq<u8>) -> Seq<char>;

/// Calls `String::from_utf8_lossy`. The text is named [`utf8_lossy`]; for bytes that are valid
/// UTF-8 it is the text that they encode.
#[verifier::external_body]
fn lossy_text(bytes: &[u8]) -> (text: String)
    ensures
        text@ == utf8_lossy(bytes@),
        vstd::utf8::valid_utf8(bytes@) ==> vstd::utf8::encode_utf8(text@) == bytes@,
{
    String::from_utf8_lossy(bytes).into_owned()
}

/// The text of bytes: the one they encode where they are valid UTF-8, and otherwise one with
/// replacement characters.
pub open spec fn readable(bytes: Seq<u8>) -> Seq<char> {
    if vstd::utf8::valid_utf8(bytes) {
        vstd::utf8::decode_utf8(bytes)
    } else {
        utf8_lossy(bytes)
    }
}

/// The text of bytes.
pub(crate) fn readable_text(bytes: &[u8]) -> (text: String)
    ensures
        text@ == readable(bytes@),
{
    let text = lossy_text(bytes);
    proof {
        if vstd::utf8::valid_utf8(bytes@) {
            vstd::utf8::encode_utf8_decode_utf8(text@);
        }
    }
    text
}

// ---------------------------------------------------------------------------
// Queries
// ---------------------------------------------------------------------------

/// What a query asks for: bytes, some of which may be anything, or a regular expression.
#[derive(Clone, Debug, PartialEq, Eq)]
pub enum SearchPattern {
    Masked(Vec<Option<u8>>),
    Regex(String),
}

/// The contents of a [`SearchPattern`].
pub enum PatternView {
    Masked(Seq<Option<u8>>),
    Regex(Seq<char>),
}

impl View for SearchPattern {
    type V = PatternView;

    open spec fn view(&self) -> PatternView {
        match self {
            SearchPattern::Masked(bytes) => PatternView::Masked(bytes@),
            SearchPattern::Regex(pattern) => PatternView::Regex(pattern@),
        }
    }
}

impl PatternView {
    /// A regular expression is one that compiles.
    pub open spec fn wf(self) -> bool {
        match self {
            PatternView::Masked(_) => true,
            PatternView::Regex(pattern) => regex_error(pattern, usize::BITS as int) is None,
        }
    }
}

/// The shortest big-endian form of a number.
pub open spec fn big_endian(value: nat) -> Seq<u8>
    decreases value,
{
    if value < 256 {
        seq![value as u8]
    } else {
        big_endian(value / 256).push((value % 256) as u8)
    }
}

/// The number that big-endian bytes stand for.
pub open spec fn big_endian_value(bytes: Seq<u8>) -> nat
    decreases bytes.len(),
{
    if bytes.len() == 0 {
        0
    } else {
        big_endian_value(bytes.drop_last()) * 256 + bytes.last() as nat
    }
}

/// The shortest big-endian form reads back as the number, and starts with a zero byte only where
/// it is that byte alone.
pub proof fn big_endian_reads_back(value: nat)
    ensures
        big_endian_value(big_endian(value)) == value,
        big_endian(value).len() > 0,
        big_endian(value)[0] == 0 ==> value == 0 && big_endian(value).len() == 1,
    decreases value,
{
    reveal_with_fuel(big_endian_value, 2);
    if value >= 256 {
        big_endian_reads_back(value / 256);
        let rest = big_endian(value / 256);
        let whole = big_endian(value);
        assert(whole.drop_last() =~= rest);
        assert(whole[0] == rest[0]);
    } else {
        assert(big_endian(value).drop_last() =~= Seq::<u8>::empty());
    }
}

/// The shortest big-endian form of a number.
pub fn minimal_be_bytes(value: u128) -> (bytes: Vec<u8>)
    ensures
        bytes@ == big_endian(value as nat),
    decreases value,
{
    if value < 256 {
        let mut bytes: Vec<u8> = Vec::new();
        bytes.push(value as u8);
        assert(bytes@ =~= big_endian(value as nat));
        bytes
    } else {
        let mut bytes = minimal_be_bytes(value / 256);
        bytes.push((value % 256) as u8);
        bytes
    }
}

/// Whether a character stands between the bytes of a hexadecimal query.
pub open spec fn is_separator(c: char) -> bool {
    text::is_space(c) || c == ',' || c == '_' || c == '-'
}

fn separates(c: char) -> (out: bool)
    ensures
        out == is_separator(c),
{
    is_whitespace(c) || c == ',' || c == '_' || c == '-'
}

/// `text` without the occurrences of two characters in a row, found from the start.
pub open spec fn without_pair(text: Seq<char>, first: char, second: char) -> Seq<char>
    decreases text.len(),
{
    if text.len() == 0 {
        text
    } else if text.len() >= 2 && text[0] == first && text[1] == second {
        without_pair(text.skip(2), first, second)
    } else {
        seq![text[0]] + without_pair(text.skip(1), first, second)
    }
}

fn drop_pair(text: &str, first: char, second: char) -> (out: String)
    ensures
        out@ == without_pair(text@, first, second),
{
    let characters = chars_of(text);
    let mut out = String::new();
    let mut i: usize = 0;
    assert(text@.skip(0) =~= text@);
    assert(out@ + without_pair(text@, first, second) =~= without_pair(text@, first, second));
    while i < characters.len()
        invariant
            i <= characters.len(),
            characters@ == text@,
            out@ + without_pair(text@.skip(i as int), first, second) == without_pair(
                text@,
                first,
                second,
            ),
        decreases characters.len() - i,
    {
        let ghost rest = text@.skip(i as int);
        let ghost before = out@;
        if characters.len() - i >= 2 && characters[i] == first && characters[i + 1] == second {
            assert(rest.skip(2) =~= text@.skip(i + 2));
            i = i + 2;
        } else {
            assert(rest.skip(1) =~= text@.skip(i + 1));
            out.push(characters[i]);
            i = i + 1;
            assert(out@ + without_pair(text@.skip(i as int), first, second) =~= before
                + without_pair(rest, first, second));
        }
    }
    assert(out@ + without_pair(text@.skip(i as int), first, second) =~= out@);
    out
}

/// Whether a text holds a separator.
pub open spec fn has_separator(text: Seq<char>) -> bool {
    exists|i: int| 0 <= i < text.len() && is_separator(#[trigger] text[i])
}

/// `text` with a space in place of every separator.
pub open spec fn spaced(text: Seq<char>) -> Seq<char> {
    Seq::new(
        text.len(),
        |i: int|
            if is_separator(text[i]) {
                ' '
            } else {
                text[i]
            },
    )
}

/// The texts that are not empty.
pub open spec fn nonempty(parts: Seq<Seq<char>>) -> Seq<Seq<char>>
    decreases parts.len(),
{
    if parts.len() == 0 {
        parts
    } else if parts.last().len() == 0 {
        nonempty(parts.drop_last())
    } else {
        nonempty(parts.drop_last()).push(parts.last())
    }
}

/// The pieces of a hexadecimal query that holds a separator: what stands between separators.
/// Without a separator a piece is two bytes of the text in UTF-8.
pub open spec fn hex_tokens(text: Seq<char>) -> Seq<Seq<char>> {
    if has_separator(text) {
        nonempty(text::split(spaced(text), ' '))
    } else {
        let bytes = vstd::utf8::encode_utf8(text);
        Seq::new(bytes.len() / 2, |i: int| readable(bytes.subrange(2 * i, 2 * i + 2)))
    }
}

/// The byte that a piece of a hexadecimal query asks for, or none where any byte will do.
pub open spec fn token_byte(token: Seq<char>) -> Result<Option<u8>, Seq<char>> {
    if token == "??"@ || token == "**"@ {
        Ok(None)
    } else if vstd::utf8::encode_utf8(token).len() == 2 {
        match numbers::number(token, 16, 255) {
            Some(value) => Ok(Some(value as u8)),
            None => Err("invalid hex byte: "@ + token),
        }
    } else {
        Err("hex byte must have two digits: "@ + token)
    }
}

/// The bytes that the pieces of a hexadecimal query ask for, or the first error.
pub open spec fn token_bytes(tokens: Seq<Seq<char>>) -> Result<Seq<Option<u8>>, Seq<char>>
    decreases tokens.len(),
{
    if tokens.len() == 0 {
        Ok(Seq::empty())
    } else {
        match token_bytes(tokens.drop_last()) {
            Ok(bytes) => match token_byte(tokens.last()) {
                Ok(byte) => Ok(bytes.push(byte)),
                Err(error) => Err(error),
            },
            Err(error) => Err(error),
        }
    }
}

/// The bytes that a hexadecimal query asks for.
pub open spec fn hex_query(input: Seq<char>) -> Result<Seq<Option<u8>>, Seq<char>> {
    let normalized = without_pair(without_pair(input, '0', 'x'), '0', 'X');
    if !has_separator(normalized) && vstd::utf8::encode_utf8(normalized).len() % 2 != 0 {
        Err("compact hex must contain an even number of digits"@)
    } else if hex_tokens(normalized).len() == 0 {
        Err("hex search is empty"@)
    } else {
        token_bytes(hex_tokens(normalized))
    }
}

fn find_separator(characters: &Vec<char>) -> (found: bool)
    ensures
        found == has_separator(characters@),
{
    let mut i: usize = 0;
    while i < characters.len()
        invariant
            i <= characters.len(),
            forall|k: int| 0 <= k < i ==> !is_separator(#[trigger] characters@[k]),
        decreases characters.len() - i,
    {
        if separates(characters[i]) {
            assert(is_separator(characters@[i as int]));
            return true;
        }
        i = i + 1;
    }
    false
}

fn words(characters: &Vec<char>) -> (out: Vec<String>)
    ensures
        text::views(out@) == nonempty(text::split(spaced(characters@), ' ')),
{
    let mut plain: Vec<char> = Vec::new();
    let mut i: usize = 0;
    while i < characters.len()
        invariant
            i <= characters.len(),
            plain@ == spaced(characters@).take(i as int),
        decreases characters.len() - i,
    {
        if separates(characters[i]) {
            plain.push(' ');
        } else {
            plain.push(characters[i]);
        }
        i = i + 1;
        assert(plain@ =~= spaced(characters@).take(i as int));
    }
    assert(plain@ =~= spaced(characters@));
    let length: usize = plain.len();
    let joined = string_of(&plain, 0, length);
    assert(joined@ =~= spaced(characters@));
    let pieces = split_text(&joined, ' ');
    let ghost parts = text::views(pieces@);
    let mut out: Vec<String> = Vec::new();
    let mut k: usize = 0;
    assert(text::views(out@) =~= nonempty(parts.take(0)));
    while k < pieces.len()
        invariant
            k <= pieces.len() == parts.len(),
            parts == text::views(pieces@),
            text::views(out@) == nonempty(parts.take(k as int)),
        decreases pieces.len() - k,
    {
        assert(parts.take(k + 1).drop_last() =~= parts.take(k as int));
        assert(parts[k as int] == pieces@[k as int]@);
        if !pieces[k].as_str().is_empty() {
            out.push(pieces[k].clone());
        }
        k = k + 1;
    }
    assert(parts.take(k as int) =~= parts);
    out
}

fn pairs(normalized: &str) -> (out: Vec<String>)
    requires
        vstd::utf8::encode_utf8(normalized@).len() % 2 == 0,
    ensures
        ({
            let bytes = vstd::utf8::encode_utf8(normalized@);
            text::views(out@) == Seq::new(
                bytes.len() / 2,
                |i: int| readable(bytes.subrange(2 * i, 2 * i + 2)),
            )
        }),
{
    let bytes = normalized.as_bytes();
    let ghost expected = Seq::new(
        bytes@.len() / 2,
        |i: int| readable(bytes@.subrange(2 * i, 2 * i + 2)),
    );
    let mut out: Vec<String> = Vec::new();
    let mut at: usize = 0;
    while at < bytes.len()
        invariant
            at <= bytes@.len(),
            at % 2 == 0,
            bytes@.len() % 2 == 0,
            expected == Seq::new(
                bytes@.len() / 2,
                |i: int| readable(bytes@.subrange(2 * i, 2 * i + 2)),
            ),
            out@.len() == at / 2,
            forall|i: int| 0 <= i < out@.len() ==> (#[trigger] out@[i])@ == expected[i],
        decreases bytes@.len() - at,
    {
        let chunk = vstd::slice::slice_subrange(bytes, at, at + 2);
        assert(2 * (at as int / 2) == at);
        out.push(readable_text(chunk));
        at = at + 2;
    }
    assert(text::views(out@) =~= expected);
    out
}

/// Reads the bytes that a hexadecimal query asks for.
pub fn parse_hex(input: &str) -> (bytes: Result<Vec<Option<u8>>, String>)
    ensures
        match bytes {
            Ok(mask) => hex_query(input@) == Ok::<Seq<Option<u8>>, Seq<char>>(mask@),
            Err(error) => hex_query(input@) == Err::<Seq<Option<u8>>, Seq<char>>(error@),
        },
{
    let without_lower = drop_pair(input, '0', 'x');
    let normalized = drop_pair(&without_lower, '0', 'X');
    let characters = chars_of(&normalized);
    let tokens: Vec<String>;
    if find_separator(&characters) {
        tokens = words(&characters);
    } else {
        if normalized.as_str().as_bytes().len() % 2 != 0 {
            return Err("compact hex must contain an even number of digits".to_owned());
        }
        tokens = pairs(&normalized);
    }
    let ghost parts = text::views(tokens@);
    assert(parts == hex_tokens(normalized@));
    if tokens.len() == 0 {
        return Err("hex search is empty".to_owned());
    }
    let mut mask: Vec<Option<u8>> = Vec::new();
    let mut i: usize = 0;
    assert(mask@ =~= Seq::<Option<u8>>::empty());
    while i < tokens.len()
        invariant
            i <= tokens.len() == parts.len(),
            parts == text::views(tokens@),
            parts == hex_tokens(normalized@),
            token_bytes(parts.take(i as int)) == Ok::<Seq<Option<u8>>, Seq<char>>(mask@),
            hex_query(input@) == token_bytes(parts),
        decreases tokens.len() - i,
    {
        let token = &tokens[i];
        assert(parts[i as int] == token@);
        assert(parts.take(i + 1).drop_last() =~= parts.take(i as int));
        if same_text(token, "??") || same_text(token, "**") {
            mask.push(None);
        } else if token.as_str().as_bytes().len() == 2 {
            match read_number(token, 16, 255) {
                Some(value) => {
                    mask.push(Some(value as u8));
                },
                None => {
                    let mut error = "invalid hex byte: ".to_owned();
                    error.append(token);
                    proof {
                        lemma_first_error(parts, i + 1);
                    }
                    return Err(error);
                },
            }
        } else {
            let mut error = "hex byte must have two digits: ".to_owned();
            error.append(token);
            proof {
                lemma_first_error(parts, i + 1);
            }
            return Err(error);
        }
        i = i + 1;
    }
    assert(parts.take(i as int) =~= parts);
    Ok(mask)
}

/// An error among the first pieces is the error of all of them.
proof fn lemma_first_error(tokens: Seq<Seq<char>>, cut: int)
    requires
        0 <= cut <= tokens.len(),
        token_bytes(tokens.take(cut)) is Err,
    ensures
        token_bytes(tokens) == token_bytes(tokens.take(cut)),
    decreases tokens.len(),
{
    if cut == tokens.len() {
        assert(tokens.take(cut) =~= tokens);
    } else {
        assert(tokens.drop_last().take(cut) =~= tokens.take(cut));
        lemma_first_error(tokens.drop_last(), cut);
    }
}

/// The characters of a binary query that count: all but spaces and underscores.
pub open spec fn bits_of(text: Seq<char>) -> Seq<char>
    decreases text.len(),
{
    if text.len() == 0 {
        text
    } else if text::is_space(text.last()) || text.last() == '_' {
        bits_of(text.drop_last())
    } else {
        bits_of(text.drop_last()).push(text.last())
    }
}

/// Whether every character is a binary digit.
pub open spec fn all_bits(bits: Seq<char>) -> bool {
    forall|i: int| 0 <= i < bits.len() ==> #[trigger] bits[i] == '0' || bits[i] == '1'
}

/// The bytes that groups of eight binary digits stand for.
pub open spec fn bit_bytes(bits: Seq<char>) -> Seq<Option<u8>> {
    Seq::new(
        bits.len() / 8,
        |i: int| Some(numbers::digits_value(bits.subrange(8 * i, 8 * i + 8), 2) as u8),
    )
}

/// The bytes that a binary query asks for.
pub open spec fn binary_query(input: Seq<char>) -> Result<Seq<Option<u8>>, Seq<char>> {
    let bits = bits_of(input);
    if bits.len() == 0 || !all_bits(bits) {
        Err("binary searches may only contain 0 and 1"@)
    } else if bits.len() % 8 != 0 {
        Err("binary searches must contain a multiple of 8 bits"@)
    } else {
        Ok(bit_bytes(bits))
    }
}

fn parse_binary(input: &str) -> (bytes: Result<Vec<Option<u8>>, String>)
    ensures
        match bytes {
            Ok(mask) => binary_query(input@) == Ok::<Seq<Option<u8>>, Seq<char>>(mask@),
            Err(error) => binary_query(input@) == Err::<Seq<Option<u8>>, Seq<char>>(error@),
        },
{
    let characters = chars_of(input);
    let mut bits: Vec<char> = Vec::new();
    let mut valid = true;
    let mut i: usize = 0;
    assert(bits@ =~= bits_of(input@.take(0)));
    while i < characters.len()
        invariant
            i <= characters.len(),
            characters@ == input@,
            bits@ == bits_of(input@.take(i as int)),
            valid == all_bits(bits@),
        decreases characters.len() - i,
    {
        assert(input@.take(i + 1).drop_last() =~= input@.take(i as int));
        let c = characters[i];
        if !(is_whitespace(c) || c == '_') {
            let ghost before = bits@;
            bits.push(c);
            if c != '0' && c != '1' {
                valid = false;
                assert(bits@[bits@.len() - 1] == c);
            } else if !valid {
                assert(exists|k: int| 0 <= k < before.len() && before[k] != '0' && before[k] != '1');
                let ghost k = choose|k: int|
                    0 <= k < before.len() && before[k] != '0' && before[k] != '1';
                assert(bits@[k] == before[k]);
            }
        }
        i = i + 1;
    }
    assert(input@.take(i as int) =~= input@);
    if bits.len() == 0 || !valid {
        return Err("binary searches may only contain 0 and 1".to_owned());
    }
    if bits.len() % 8 != 0 {
        return Err("binary searches must contain a multiple of 8 bits".to_owned());
    }
    let mut mask: Vec<Option<u8>> = Vec::new();
    let mut at: usize = 0;
    while at < bits.len()
        invariant
            at <= bits@.len(),
            at % 8 == 0,
            bits@.len() % 8 == 0,
            all_bits(bits@),
            mask@ == bit_bytes(bits@).take(at as int / 8),
        decreases bits@.len() - at,
    {
        let mut value: u16 = 0;
        let mut k: usize = 0;
        let ghost group = bits@.subrange(at as int, at + 8);
        assert(group.take(0) =~= Seq::<char>::empty());
        let mut bound: u16 = 1;
        while k < 8
            invariant
                k <= 8,
                at + 8 <= bits.len(),
                all_bits(bits@),
                group == bits@.subrange(at as int, at + 8),
                value == numbers::digits_value(group.take(k as int), 2),
                value < bound,
                k == 0 ==> bound == 1,
                k == 1 ==> bound == 2,
                k == 2 ==> bound == 4,
                k == 3 ==> bound == 8,
                k == 4 ==> bound == 16,
                k == 5 ==> bound == 32,
                k == 6 ==> bound == 64,
                k == 7 ==> bound == 128,
                k == 8 ==> bound == 256,
            decreases 8 - k,
        {
            assert(group.take(k + 1).drop_last() =~= group.take(k as int));
            assert(group[k as int] == bits@[at + k]);
            let digit: u16 = if bits[at + k] == '1' {
                1
            } else {
                0
            };
            assert(numbers::digit_value(group[k as int]) == digit);
            value = value * 2 + digit;
            bound = bound * 2;
            k = k + 1;
        }
        assert(group.take(8) =~= group);
        mask.push(Some(value as u8));
        assert(8 * (at as int / 8) == at);
        at = at + 8;
        assert(mask@ =~= bit_bytes(bits@).take(at as int / 8));
    }
    assert(mask@ =~= bit_bytes(bits@));
    Ok(mask)
}

/// What a query asks for, or why it asks for nothing. A prefix names its form: `re:` a regular
/// expression, `dec:` a decimal number, `bin:` binary digits, `hex:` or none hexadecimal digits.
pub open spec fn query_of(query: Seq<char>) -> Result<PatternView, Seq<char>> {
    let trimmed = text::trim(query);
    if trimmed.len() == 0 {
        Err("search query is empty"@)
    } else if text::starts_with(trimmed, "re:"@) {
        match regex_error(trimmed.skip(3), usize::BITS as int) {
            None => Ok(PatternView::Regex(trimmed.skip(3))),
            Some(error) => Err("invalid regex: "@ + error),
        }
    } else if text::starts_with(trimmed, "dec:"@) {
        match numbers::number(text::trim(trimmed.skip(4)), 10, u128::MAX as int) {
            Some(value) => Ok(PatternView::Masked(masked(big_endian(value as nat)))),
            None => Err("invalid unsigned decimal value"@),
        }
    } else if text::starts_with(trimmed, "bin:"@) {
        as_pattern(binary_query(trimmed.skip(4)))
    } else if text::starts_with(trimmed, "hex:"@) {
        as_pattern(hex_query(trimmed.skip(4)))
    } else {
        as_pattern(hex_query(trimmed))
    }
}

/// A pattern that asks for these bytes.
pub open spec fn masked(bytes: Seq<u8>) -> Seq<Option<u8>> {
    Seq::new(bytes.len(), |i: int| Some(bytes[i]))
}

/// The pattern that a query by bytes asks for.
pub open spec fn as_pattern(
    bytes: Result<Seq<Option<u8>>, Seq<char>>,
) -> Result<PatternView, Seq<char>> {
    match bytes {
        Ok(mask) => Ok(PatternView::Masked(mask)),
        Err(error) => Err(error),
    }
}

/// The view of a result of reading a query.
pub open spec fn query_view(
    pattern: Result<SearchPattern, String>,
) -> Result<PatternView, Seq<char>> {
    match pattern {
        Ok(pattern) => Ok(pattern@),
        Err(error) => Err(error@),
    }
}

/// What a query for a regular expression asks for, by what the compiler has against it.
pub fn regex_query(pattern: String, verdict: Result<(), String>) -> (out: Result<
    SearchPattern,
    String,
>)
    ensures
        query_view(out) == match verdict {
            Ok(_) => Ok::<PatternView, Seq<char>>(PatternView::Regex(pattern@)),
            Err(error) => Err("invalid regex: "@ + error@),
        },
{
    match verdict {
        Ok(_) => Ok(SearchPattern::Regex(pattern)),
        Err(error) => {
            let mut message = "invalid regex: ".to_owned();
            message.append(&error);
            Err(message)
        },
    }
}

/// Reads a query.
pub fn parse_query(query: &str) -> (pattern: Result<SearchPattern, String>)
    ensures
        query_view(pattern) == query_of(query@),
        pattern matches Ok(p) ==> p@.wf(),
{
    proof {
        reveal_strlit("re:");
        reveal_strlit("dec:");
        reveal_strlit("bin:");
        reveal_strlit("hex:");
    }
    let trimmed_query = trimmed(query);
    let ghost line = text::trim(query@);
    if trimmed_query.as_str().is_empty() {
        return Err("search query is empty".to_owned());
    }
    if let Some(pattern) = strip_prefix(&trimmed_query, "re:") {
        assert(pattern@ =~= line.skip(3));
        let verdict = regex_verdict(&pattern);
        return regex_query(pattern, verdict);
    }
    if let Some(decimal) = strip_prefix(&trimmed_query, "dec:") {
        assert(decimal@ =~= line.skip(4));
        return match read_number(&trimmed(&decimal), 10, u128::MAX) {
            Some(value) => {
                let bytes = minimal_be_bytes(value);
                let mut mask: Vec<Option<u8>> = Vec::new();
                let mut i: usize = 0;
                while i < bytes.len()
                    invariant
                        i <= bytes.len(),
                        mask@ == masked(bytes@).take(i as int),
                    decreases bytes.len() - i,
                {
                    mask.push(Some(bytes[i]));
                    i = i + 1;
                    assert(mask@ =~= masked(bytes@).take(i as int));
                }
                assert(mask@ =~= masked(bytes@));
                Ok(SearchPattern::Masked(mask))
            },
            None => Err("invalid unsigned decimal value".to_owned()),
        };
    }
    if let Some(binary) = strip_prefix(&trimmed_query, "bin:") {
        assert(binary@ =~= line.skip(4));
        return match parse_binary(&binary) {
            Ok(mask) => Ok(SearchPattern::Masked(mask)),
            Err(error) => Err(error),
        };
    }
    let parsed = match strip_prefix(&trimmed_query, "hex:") {
        Some(rest) => {
            assert(rest@ =~= line.skip(4));
            parse_hex(&rest)
        },
        None => parse_hex(&trimmed_query),
    };
    match parsed {
        Ok(mask) => Ok(SearchPattern::Masked(mask)),
        Err(error) => Err(error),
    }
}

// ---------------------------------------------------------------------------
// Matches
// ---------------------------------------------------------------------------

/// Whether a pattern fits the bytes from `start` on.
pub open spec fn fits(bytes: Seq<u8>, pattern: Seq<Option<u8>>, start: int) -> bool {
    &&& 0 <= start
    &&& start + pattern.len() <= bytes.len()
    &&& forall|i: int|
        0 <= i < pattern.len() ==> (#[trigger] pattern[i] is None || pattern[i] == Some(
            bytes[start + i],
        ))
}

/// The number of places at which a pattern is looked for.
pub open spec fn places(bytes: Seq<u8>, pattern: Seq<Option<u8>>) -> int {
    if pattern.len() == 0 || pattern.len() > bytes.len() {
        0
    } else {
        bytes.len() - pattern.len() + 1
    }
}

/// The match of a pattern at `start`.
pub open spec fn match_at(pattern: Seq<Option<u8>>, start: int) -> SearchMatch {
    SearchMatch { start: start as usize, end: (start + pattern.len() - 1) as usize }
}

/// The matches of a pattern that start before `end`, in order.
pub open spec fn masked_matches(
    bytes: Seq<u8>,
    pattern: Seq<Option<u8>>,
    end: int,
) -> Seq<SearchMatch>
    decreases end,
{
    if end <= 0 {
        Seq::empty()
    } else {
        let rest = masked_matches(bytes, pattern, end - 1);
        if fits(bytes, pattern, end - 1) {
            rest.push(match_at(pattern, end - 1))
        } else {
            rest
        }
    }
}

/// The matches of a regular expression that are not empty, in order, as far as the span before
/// `end`.
pub open spec fn span_matches(spans: Seq<(usize, usize)>, end: int) -> Seq<SearchMatch>
    decreases end,
{
    if end <= 0 {
        Seq::empty()
    } else {
        let rest = span_matches(spans, end - 1);
        let span = spans[end - 1];
        if span.0 < span.1 {
            rest.push(SearchMatch { start: span.0, end: (span.1 - 1) as usize })
        } else {
            rest
        }
    }
}

/// The matches of a pattern, in order.
pub open spec fn matches_of(bytes: Seq<u8>, pattern: PatternView) -> Seq<SearchMatch> {
    match pattern {
        PatternView::Masked(mask) => masked_matches(bytes, mask, places(bytes, mask)),
        PatternView::Regex(regex) => {
            let spans = regex_spans(regex, bytes);
            span_matches(spans, spans.len() as int)
        },
    }
}

/// Whether matches lie in a file of `length` bytes, and start and end in order.
pub open spec fn ordered_matches(hits: Seq<SearchMatch>, length: int) -> bool {
    &&& forall|i: int|
        0 <= i < hits.len() ==> (#[trigger] hits[i]).start <= hits[i].end < length
    &&& forall|i: int, j: int|
        #![trigger hits[i], hits[j]]
        0 <= i < j < hits.len() ==> hits[i].start < hits[j].start && hits[i].end <= hits[j].end
}

/// Whether the pattern fits at `start`.
fn fits_at(bytes: &[u8], pattern: &[Option<u8>], start: usize) -> (fit: bool)
    requires
        start + pattern.len() <= bytes.len(),
    ensures
        fit == fits(bytes@, pattern@, start as int),
{
    let mut i: usize = 0;
    while i < pattern.len()
        invariant
            i <= pattern.len(),
            start + pattern.len() <= bytes.len(),
            forall|k: int|
                0 <= k < i ==> (#[trigger] pattern@[k] is None || pattern@[k] == Some(
                    bytes@[start + k],
                )),
        decreases pattern.len() - i,
    {
        match pattern[i] {
            Some(byte) => {
                if byte != bytes[start + i] {
                    assert(!(pattern@[i as int] is None));
                    return false;
                }
            },
            None => {},
        }
        i = i + 1;
    }
    true
}

/// The matches of a pattern, in order.
pub fn search_masked(bytes: &[u8], pattern: &[Option<u8>]) -> (hits: Vec<SearchMatch>)
    ensures
        hits@ == matches_of(bytes@, PatternView::Masked(pattern@)),
{
    let mut hits: Vec<SearchMatch> = Vec::new();
    if pattern.len() == 0 || pattern.len() > bytes.len() {
        assert(hits@ =~= masked_matches(bytes@, pattern@, 0));
        return hits;
    }
    let last: usize = bytes.len() - pattern.len();
    let mut start: usize = 0;
    while start <= last
        invariant_except_break
            start <= last,
            hits@ == masked_matches(bytes@, pattern@, start as int),
        invariant
            last == bytes.len() - pattern.len(),
            pattern.len() > 0,
        ensures
            hits@ == masked_matches(bytes@, pattern@, last + 1),
        decreases last + 1 - start,
    {
        if fits_at(bytes, pattern, start) {
            hits.push(SearchMatch { start, end: start + (pattern.len() - 1) });
        }
        if start == last {
            break;
        }
        start = start + 1;
    }
    hits
}

/// The matches of a regular expression by the spans that were found for it: those that are not
/// empty.
pub fn regex_matches(spans: &Vec<(usize, usize)>) -> (hits: Vec<SearchMatch>)
    ensures
        hits@ == span_matches(spans@, spans@.len() as int),
{
    let mut hits: Vec<SearchMatch> = Vec::new();
    let mut i: usize = 0;
    while i < spans.len()
        invariant
            i <= spans.len(),
            hits@ == span_matches(spans@, i as int),
        decreases spans.len() - i,
    {
        let (start, end) = spans[i];
        if start < end {
            hits.push(SearchMatch { start, end: end - 1 });
        }
        i = i + 1;
    }
    hits
}

/// Searches bytes for what a query asks for.
pub fn search(bytes: &[u8], query: &str) -> (hits: Result<Vec<SearchMatch>, String>)
    ensures
        match hits {
            Ok(found) => query_of(query@) matches Ok(pattern) && found@ == matches_of(
                bytes@,
                pattern,
            ),
            Err(error) => query_of(query@) == Err::<PatternView, Seq<char>>(error@),
        },
{
    match parse_query(query) {
        Ok(SearchPattern::Masked(mask)) => Ok(search_masked(bytes, &mask)),
        Ok(SearchPattern::Regex(pattern)) => Ok(regex_matches(&regex_find(&pattern, bytes))),
        Err(error) => Err(error),
    }
}

/// A search by bytes reports the places where the pattern fits, each once and in order.
pub proof fn masked_search_is_exact(bytes: Seq<u8>, pattern: Seq<Option<u8>>, hit: SearchMatch)
    requires
        pattern.len() > 0,
        bytes.len() <= usize::MAX,
    ensures
        matches_of(bytes, PatternView::Masked(pattern)).contains(hit) <==> fits(
            bytes,
            pattern,
            hit.start as int,
        ) && hit.end == hit.start + pattern.len() - 1,
        ordered_matches(matches_of(bytes, PatternView::Masked(pattern)), bytes.len() as int),
{
    lemma_masked_matches(bytes, pattern, places(bytes, pattern), hit);
}

proof fn lemma_masked_matches(
    bytes: Seq<u8>,
    pattern: Seq<Option<u8>>,
    end: int,
    hit: SearchMatch,
)
    requires
        pattern.len() > 0,
        bytes.len() <= usize::MAX,
        0 <= end <= places(bytes, pattern),
    ensures
        masked_matches(bytes, pattern, end).contains(hit) <==> hit.start < end && fits(
            bytes,
            pattern,
            hit.start as int,
        ) && hit.end == hit.start + pattern.len() - 1,
        ordered_matches(masked_matches(bytes, pattern, end), bytes.len() as int),
        forall|i: int|
            0 <= i < masked_matches(bytes, pattern, end).len() ==> (#[trigger] masked_matches(
                bytes,
                pattern,
                end,
            )[i]).start < end,
        forall|i: int|
            0 <= i < masked_matches(bytes, pattern, end).len() ==> (#[trigger] masked_matches(
                bytes,
                pattern,
                end,
            )[i]).end == masked_matches(bytes, pattern, end)[i].start + pattern.len() - 1,
    decreases end,
{
    let all = masked_matches(bytes, pattern, end);
    if end > 0 {
        lemma_masked_matches(bytes, pattern, end - 1, hit);
        let rest = masked_matches(bytes, pattern, end - 1);
        if fits(bytes, pattern, end - 1) {
            let new = match_at(pattern, end - 1);
            assert(all[rest.len() as int] == new);
            if rest.contains(hit) {
                let k = choose|k: int| 0 <= k < rest.len() && rest[k] == hit;
                assert(all[k] == hit);
            }
            if all.contains(hit) {
                let k = choose|k: int| 0 <= k < all.len() && all[k] == hit;
                if k < rest.len() {
                    assert(rest[k] == hit);
                }
            }
            assert forall|i: int| 0 <= i < all.len() implies (#[trigger] all[i]).start <= all[i].end
                < bytes.len() && all[i].start < end && all[i].end == all[i].start + pattern.len()
                - 1 by {
                if i < rest.len() {
                    assert(all[i] == rest[i]);
                }
            }
            assert forall|i: int, j: int|
                #![trigger all[i], all[j]]
                0 <= i < j < all.len() implies all[i].start < all[j].start && all[i].end <= all[j].end by {
                assert(all[i] == rest[i]);
                if j < rest.len() {
                    assert(all[j] == rest[j]);
                }
            }
        }
    }
}

/// Matches of a regular expression lie in the file and in order.
proof fn lemma_span_matches(spans: Seq<(usize, usize)>, length: int, end: int)
    requires
        0 <= end <= spans.len(),
        forall|i: int| 0 <= i < spans.len() ==> (#[trigger] spans[i]).0 <= spans[i].1 <= length,
        forall|i: int, j: int|
            #![trigger spans[i], spans[j]]
            0 <= i < j < spans.len() ==> spans[i].1 <= spans[j].0,
    ensures
        ordered_matches(span_matches(spans, end), length),
        forall|i: int, k: int|
            0 <= i < span_matches(spans, end).len() && end <= k < spans.len() ==> (
            #[trigger] span_matches(spans, end)[i]).end < (#[trigger] spans[k]).0,
    decreases end,
{
    if end > 0 {
        lemma_span_matches(spans, length, end - 1);
        let rest = span_matches(spans, end - 1);
        let all = span_matches(spans, end);
        let span = spans[end - 1];
        assert(span.0 <= span.1 <= length);
        assert forall|i: int| 0 <= i < all.len() implies (#[trigger] all[i]).start <= all[i].end
            < length by {
            if i < rest.len() {
                assert(all[i] == rest[i]);
            }
        }
        assert forall|i: int, j: int|
            #![trigger all[i], all[j]]
            0 <= i < j < all.len() implies all[i].start < all[j].start && all[i].end <= all[j].end by {
            assert(all[i] == rest[i]);
            if j < rest.len() {
                assert(all[j] == rest[j]);
            } else {
                assert(rest[i].end < span.0);
                assert(rest[i].start <= rest[i].end);
            }
        }
        assert forall|i: int, k: int|
            0 <= i < all.len() && end <= k < spans.len() implies (#[trigger] all[i]).end < (
        #[trigger] spans[k]).0 by {
            if i < rest.len() {
                assert(all[i] == rest[i]);
                assert(rest[i].end < spans[k].0);
            } else {
                assert(span.1 <= spans[k].0);
            }
        }
    }
}

// ---------------------------------------------------------------------------
// Reports
// ---------------------------------------------------------------------------

/// What a running search reports.
#[derive(Debug)]
pub enum SearchMessage {
    Batch(Vec<SearchMatch>),
    Progress(usize),
    Done,
    Error(String),
}

/// The contents of a [`SearchMessage`].
pub enum MessageView {
    Batch(Seq<SearchMatch>),
    Progress(int),
    Done,
    Error(Seq<char>),
}

impl View for SearchMessage {
    type V = MessageView;

    open spec fn view(&self) -> MessageView {
        match self {
            SearchMessage::Batch(batch) => MessageView::Batch(batch@),
            SearchMessage::Progress(scanned) => MessageView::Progress(*scanned as int),
            SearchMessage::Done => MessageView::Done,
            SearchMessage::Error(error) => MessageView::Error(error@),
        }
    }
}

/// The reports that hand over a batch: none for an empty one.
pub open spec fn handed_over(batch: Seq<SearchMatch>) -> Seq<MessageView> {
    if batch.len() == 0 {
        Seq::empty()
    } else {
        seq![MessageView::Batch(batch)]
    }
}

/// The reports at the end of a search.
pub open spec fn closing(batch: Seq<SearchMatch>, scanned: int) -> Seq<MessageView> {
    handed_over(batch).push(MessageView::Progress(scanned)).push(MessageView::Done)
}

/// The reports once a match has joined the batch: the batch as soon as it is full.
pub open spec fn filled(batch: Seq<SearchMatch>) -> Seq<MessageView> {
    if batch.len() == BATCH_SIZE {
        seq![MessageView::Batch(batch)]
    } else {
        Seq::empty()
    }
}

/// What stays in the batch once a full one has been reported.
pub open spec fn unfilled(batch: Seq<SearchMatch>) -> Seq<SearchMatch> {
    if batch.len() == BATCH_SIZE {
        Seq::empty()
    } else {
        batch
    }
}

/// Whether progress is reported after the place at `start`.
pub open spec fn reports_progress(start: int) -> bool {
    start > 0 && start % PROGRESS_INTERVAL as int == 0
}

/// The batch once the place at `start` has been looked at, before progress is reported.
pub open spec fn batch_with(
    bytes: Seq<u8>,
    pattern: Seq<Option<u8>>,
    start: int,
    batch: Seq<SearchMatch>,
) -> Seq<SearchMatch> {
    if fits(bytes, pattern, start) {
        batch.push(match_at(pattern, start))
    } else {
        batch
    }
}

/// The reports for the place at `start`.
pub open spec fn place_reports(
    bytes: Seq<u8>,
    pattern: Seq<Option<u8>>,
    start: int,
    batch: Seq<SearchMatch>,
) -> Seq<MessageView> {
    let grown = batch_with(bytes, pattern, start, batch);
    let first = if fits(bytes, pattern, start) {
        filled(grown)
    } else {
        Seq::empty()
    };
    if reports_progress(start) {
        first + handed_over(place_kept(bytes, pattern, start, batch)).push(
            MessageView::Progress(start),
        )
    } else {
        first
    }
}

/// What the batch holds at `start` once a full one has been reported.
pub open spec fn place_kept(
    bytes: Seq<u8>,
    pattern: Seq<Option<u8>>,
    start: int,
    batch: Seq<SearchMatch>,
) -> Seq<SearchMatch> {
    let grown = batch_with(bytes, pattern, start, batch);
    if fits(bytes, pattern, start) {
        unfilled(grown)
    } else {
        grown
    }
}

/// The batch after the place at `start`.
pub open spec fn place_batch(
    bytes: Seq<u8>,
    pattern: Seq<Option<u8>>,
    start: int,
    batch: Seq<SearchMatch>,
) -> Seq<SearchMatch> {
    if reports_progress(start) {
        Seq::empty()
    } else {
        place_kept(bytes, pattern, start, batch)
    }
}

/// The reports of a search by bytes from the place at `start` on, with some matches not yet
/// reported.
pub open spec fn masked_stream(
    bytes: Seq<u8>,
    pattern: Seq<Option<u8>>,
    start: int,
    batch: Seq<SearchMatch>,
) -> Seq<MessageView>
    decreases places(bytes, pattern) - start,
{
    if places(bytes, pattern) == 0 {
        seq![MessageView::Done]
    } else if start >= places(bytes, pattern) {
        closing(batch, bytes.len() as int)
    } else {
        place_reports(bytes, pattern, start, batch) + masked_stream(
            bytes,
            pattern,
            start + 1,
            place_batch(bytes, pattern, start, batch),
        )
    }
}

/// Whether progress is reported after a match of a regular expression that ends before `end`.
pub open spec fn reports_span(end: int, last_progress: int) -> bool {
    geometry::minus(end, last_progress) >= PROGRESS_INTERVAL
}

/// The reports for one match of a regular expression.
pub open spec fn found_reports(
    found: SearchMatch,
    last_progress: int,
    batch: Seq<SearchMatch>,
) -> Seq<MessageView> {
    let grown = batch.push(found);
    if reports_span(found.end + 1, last_progress) {
        filled(grown) + handed_over(unfilled(grown)).push(MessageView::Progress(found.end + 1))
    } else {
        filled(grown)
    }
}

/// The batch after one match of a regular expression.
pub open spec fn found_batch(
    found: SearchMatch,
    last_progress: int,
    batch: Seq<SearchMatch>,
) -> Seq<SearchMatch> {
    if reports_span(found.end + 1, last_progress) {
        Seq::empty()
    } else {
        unfilled(batch.push(found))
    }
}

/// The offset up to which progress is reported after one match of a regular expression.
pub open spec fn found_progress(found: SearchMatch, last_progress: int) -> int {
    if reports_span(found.end + 1, last_progress) {
        found.end + 1
    } else {
        last_progress
    }
}

/// The reports of a search by regular expression from match `next` on.
pub open spec fn regex_stream(
    hits: Seq<SearchMatch>,
    next: int,
    last_progress: int,
    batch: Seq<SearchMatch>,
    length: int,
) -> Seq<MessageView>
    decreases hits.len() - next,
{
    if next >= hits.len() {
        closing(batch, length)
    } else {
        found_reports(hits[next], last_progress, batch) + regex_stream(
            hits,
            next + 1,
            found_progress(hits[next], last_progress),
            found_batch(hits[next], last_progress, batch),
            length,
        )
    }
}

/// All reports of a search.
pub open spec fn stream_of(bytes: Seq<u8>, pattern: PatternView) -> Seq<MessageView> {
    match pattern {
        PatternView::Masked(mask) => masked_stream(bytes, mask, 0, Seq::empty()),
        PatternView::Regex(_) => regex_stream(
            matches_of(bytes, pattern),
            0,
            0,
            Seq::empty(),
            bytes.len() as int,
        ),
    }
}

/// A search in progress.
#[derive(Debug)]
pub struct SearchScan {
    pub pattern: SearchPattern,
    pub found: Vec<SearchMatch>,
    pub next: usize,
    pub last_progress: usize,
    pub batch: Vec<SearchMatch>,
    pub finished: bool,
}

impl SearchScan {
    /// The place of the search in the bytes, and that of its matches.
    pub open spec fn wf(&self, bytes: Seq<u8>) -> bool {
        match self.pattern@ {
            PatternView::Masked(mask) => self.next <= places(bytes, mask),
            PatternView::Regex(_) => {
                &&& self.next <= self.found@.len()
                &&& ordered_matches(self.found@, bytes.len() as int)
            },
        }
    }

    /// The reports that are still to come.
    pub open spec fn to_come(&self, bytes: Seq<u8>) -> Seq<MessageView> {
        if self.finished {
            Seq::empty()
        } else {
            match self.pattern@ {
                PatternView::Masked(mask) => masked_stream(
                    bytes,
                    mask,
                    self.next as int,
                    self.batch@,
                ),
                PatternView::Regex(_) => regex_stream(
                    self.found@,
                    self.next as int,
                    self.last_progress as int,
                    self.batch@,
                    bytes.len() as int,
                ),
            }
        }
    }

    /// The next place or match to look at once the search has gone on.
    pub open spec fn following(&self, bytes: Seq<u8>) -> int {
        match self.pattern@ {
            PatternView::Masked(mask) => geometry::min(
                self.next + CANCEL_INTERVAL,
                places(bytes, mask),
            ),
            PatternView::Regex(_) => geometry::min(self.next + 1, self.found@.len() as int),
        }
    }

    /// Goes on with the search as far as the next point at which it can be cancelled, and
    /// returns the reports of that part.
    pub fn advance(&mut self, bytes: &Vec<u8>) -> (reports: Vec<SearchMessage>)
        requires
            old(self).wf(bytes@),
        ensures
            final(self).wf(bytes@),
            final(self).pattern@ == old(self).pattern@,
            final(self).found@ == old(self).found@,
            text::views(reports@) + final(self).to_come(bytes@) == old(self).to_come(bytes@),
            old(self).finished ==> final(self).finished,
            !old(self).finished ==> final(self).next == old(self).following(bytes@),
            !old(self).finished ==> final(self).finished == (final(self).next
                == match old(self).pattern@ {
                PatternView::Masked(mask) => places(bytes@, mask),
                PatternView::Regex(_) => old(self).found@.len() as int,
            }),
    {
        let mut reports: Vec<SearchMessage> = Vec::new();
        let length: usize = bytes.len();
        let ghost start = *self;
        let ghost goal = self.to_come(bytes@);
        if self.finished {
            assert(text::views(reports@) + self.to_come(bytes@) =~= goal);
            return reports;
        }
        let count: usize = match &self.pattern {
            SearchPattern::Masked(mask) => {
                if mask.len() == 0 || mask.len() > bytes.len() {
                    self.finished = true;
                    reports.push(SearchMessage::Done);
                    assert(text::views(reports@) + self.to_come(bytes@) =~= goal);
                    return reports;
                }
                let last: usize = bytes.len() - mask.len();
                let mut steps: usize = 0;
                assert(text::views(reports@) + goal =~= goal);
                while steps < CANCEL_INTERVAL && self.next <= last
                    invariant
                        steps <= CANCEL_INTERVAL,
                        last == bytes.len() - mask.len(),
                        mask.len() > 0,
                        start.pattern@ == PatternView::Masked(mask@),
                        self.pattern == start.pattern,
                        self.found == start.found,
                        !self.finished,
                        self.next <= last + 1,
                        self.next == start.next + steps,
                        text::views(reports@) + masked_stream(
                            bytes@,
                            mask@,
                            self.next as int,
                            self.batch@,
                        ) == goal,
                    decreases CANCEL_INTERVAL - steps,
                {
                    let place: usize = self.next;
                    let ghost before = text::views(reports@);
                    let ghost batch = self.batch@;
                    if fits_at(bytes, mask, place) {
                        self.batch.push(
                            SearchMatch { start: place, end: place + (mask.len() - 1) },
                        );
                        if self.batch.len() == BATCH_SIZE {
                            hand_over(&mut self.batch, &mut reports);
                        }
                    }
                    let ghost kept = place_kept(bytes@, mask@, place as int, batch);
                    let ghost first = if fits(bytes@, mask@, place as int) {
                        filled(batch_with(bytes@, mask@, place as int, batch))
                    } else {
                        Seq::empty()
                    };
                    assert(self.batch@ =~= kept);
                    assert(text::views(reports@) =~= before + first);
                    if place > 0 && place % PROGRESS_INTERVAL == 0 {
                        hand_over(&mut self.batch, &mut reports);
                        let ghost handed = text::views(reports@);
                        assert(handed == before + first + handed_over(kept));
                        let message = SearchMessage::Progress(place);
                        assert(message@ == MessageView::Progress(place as int));
                        reports.push(message);
                        assert(text::views(reports@) == handed.push(message@));
                        assert(reports_progress(place as int));
                        assert(text::views(reports@) =~= before + (first + handed_over(kept).push(
                            MessageView::Progress(place as int),
                        )));
                    } else {
                        assert(!reports_progress(place as int));
                    }
                    proof {
                        let tail = masked_stream(bytes@, mask@, place + 1, self.batch@);
                        assert(text::views(reports@) =~= before + place_reports(
                            bytes@,
                            mask@,
                            place as int,
                            batch,
                        ));
                        assert(self.batch@ == place_batch(bytes@, mask@, place as int, batch));
                        assert(text::views(reports@) + tail =~= before + masked_stream(
                            bytes@,
                            mask@,
                            place as int,
                            batch,
                        ));
                    }
                    self.next = place + 1;
                    steps = steps + 1;
                }
                last + 1
            },
            SearchPattern::Regex(_) => {
                assert(text::views(reports@) + goal =~= goal);
                if self.next < self.found.len() {
                    let found = self.found[self.next];
                    let end: usize = found.end + 1;
                    let ghost batch = self.batch@;
                    let ghost before = text::views(reports@);
                    self.batch.push(found);
                    if self.batch.len() == BATCH_SIZE {
                        hand_over(&mut self.batch, &mut reports);
                    }
                    if end.saturating_sub(self.last_progress) >= PROGRESS_INTERVAL {
                        self.last_progress = end;
                        hand_over(&mut self.batch, &mut reports);
                        reports.push(SearchMessage::Progress(end));
                    }
                    self.next = self.next + 1;
                    proof {
                        let tail = regex_stream(
                            self.found@,
                            self.next as int,
                            self.last_progress as int,
                            self.batch@,
                            bytes@.len() as int,
                        );
                        assert(text::views(reports@) =~= before + found_reports(
                            found,
                            start.last_progress as int,
                            batch,
                        ));
                        assert(text::views(reports@) + tail =~= goal);
                    }
                }
                self.found.len()
            },
        };
        if self.next == count {
            let ghost before = text::views(reports@);
            let ghost tail = closing(self.batch@, bytes@.len() as int);
            assert(before + tail == goal);
            hand_over(&mut self.batch, &mut reports);
            reports.push(SearchMessage::Progress(length));
            reports.push(SearchMessage::Done);
            self.finished = true;
            assert(text::views(reports@) + self.to_come(bytes@) =~= before + tail);
        }
        reports
    }
}

/// Reports a batch if it holds anything, and empties it.
fn hand_over(batch: &mut Vec<SearchMatch>, reports: &mut Vec<SearchMessage>)
    ensures
        final(batch)@ == Seq::<SearchMatch>::empty(),
        text::views(final(reports)@) == text::views(old(reports)@) + handed_over(old(batch)@),
{
    if batch.len() == 0 {
        assert(batch@ =~= Seq::<SearchMatch>::empty());
        assert(text::views(reports@) =~= text::views(reports@) + handed_over(batch@));
        return;
    }
    let ghost held = batch@;
    let ghost before = text::views(reports@);
    let mut full: Vec<SearchMatch> = Vec::new();
    std::mem::swap(&mut full, batch);
    reports.push(SearchMessage::Batch(full));
    assert(text::views(reports@) =~= before + handed_over(held));
}

/// Starts a search for what a query asks for.
pub fn spawn(bytes: &Vec<u8>, query: &str) -> (scan: Result<SearchScan, String>)
    ensures
        match scan {
            Ok(scan) => query_of(query@) matches Ok(pattern) && {
                &&& scan.wf(bytes@)
                &&& scan.pattern@ == pattern
                &&& scan.to_come(bytes@) == stream_of(bytes@, pattern)
                &&& scan.next == 0
                &&& !scan.finished
            },
            Err(error) => query_of(query@) == Err::<PatternView, Seq<char>>(error@),
        },
{
    match parse_query(query) {
        Ok(pattern) => Ok(begin(bytes, pattern)),
        Err(error) => Err(error),
    }
}

/// Starts a search for a pattern.
pub fn begin(bytes: &Vec<u8>, pattern: SearchPattern) -> (scan: SearchScan)
    requires
        pattern@.wf(),
    ensures
        scan.wf(bytes@),
        scan.pattern@ == pattern@,
        scan.to_come(bytes@) == stream_of(bytes@, pattern@),
        scan.next == 0,
        !scan.finished,
{
    let found = match &pattern {
        SearchPattern::Masked(_) => Vec::new(),
        SearchPattern::Regex(regex) => {
            let spans = regex_find(regex, bytes);
            proof {
                lemma_span_matches(spans@, bytes@.len() as int, spans@.len() as int);
            }
            regex_matches(&spans)
        },
    };
    SearchScan { pattern, found, next: 0, last_progress: 0, batch: Vec::new(), finished: false }
}

/// The matches that reports hand over.
pub open spec fn reported(reports: Seq<MessageView>) -> Seq<SearchMatch>
    decreases reports.len(),
{
    if reports.len() == 0 {
        Seq::empty()
    } else {
        let rest = reported(reports.drop_last());
        match reports.last() {
            MessageView::Batch(batch) => rest + batch,
            _ => rest,
        }
    }
}

proof fn lemma_reported_concat(left: Seq<MessageView>, right: Seq<MessageView>)
    ensures
        reported(left + right) == reported(left) + reported(right),
    decreases right.len(),
{
    if right.len() == 0 {
        assert(left + right =~= left);
        assert(reported(left) + reported(right) =~= reported(left));
    } else {
        lemma_reported_concat(left, right.drop_last());
        assert((left + right).drop_last() =~= left + right.drop_last());
        assert((left + right).last() == right.last());
        assert(reported(left + right) =~= reported(left) + reported(right));
    }
}

/// The first reports hand over the first matches.
pub proof fn lemma_reported_prefix(reports: Seq<MessageView>, count: int)
    requires
        0 <= count <= reports.len(),
    ensures
        reported(reports.take(count)).len() <= reported(reports).len(),
        forall|before: Seq<SearchMatch>| #[trigger]
            (before + reported(reports)).take(
                (before + reported(reports.take(count))).len() as int,
            ) == before + reported(reports.take(count)),
{
    let first = reports.take(count);
    let rest = reports.skip(count);
    assert(first + rest =~= reports);
    lemma_reported_concat(first, rest);
    assert forall|before: Seq<SearchMatch>| #[trigger]
        (before + reported(reports)).take((before + reported(first)).len() as int) == before
            + reported(first) by {
        assert((before + reported(reports)).take((before + reported(first)).len() as int) =~= before
            + reported(first));
    }
}

proof fn lemma_reported_small(batch: Seq<SearchMatch>, at: int)
    ensures
        reported(handed_over(batch)) == batch,
        reported(filled(batch)) + unfilled(batch) == batch,
        reported(handed_over(batch).push(MessageView::Progress(at))) == batch,
        reported(closing(batch, at)) == batch,
{
    reveal_with_fuel(reported, 4);
    let one = seq![MessageView::Batch(batch)];
    assert(one.drop_last() =~= Seq::<MessageView>::empty());
    assert(Seq::<SearchMatch>::empty() + batch =~= batch);
    assert(reported(one) == batch);
    if batch.len() == 0 {
        assert(reported(handed_over(batch)) =~= batch);
    }
    assert(reported(filled(batch)) + unfilled(batch) =~= batch);
    let two = handed_over(batch).push(MessageView::Progress(at));
    assert(two.drop_last() =~= handed_over(batch));
    assert(reported(two) == batch);
    let three = closing(batch, at);
    assert(three.drop_last() =~= two);
    assert(reported(three) == batch);
}

proof fn lemma_masked_stream(
    bytes: Seq<u8>,
    pattern: Seq<Option<u8>>,
    start: int,
    batch: Seq<SearchMatch>,
)
    requires
        0 <= start <= places(bytes, pattern),
        places(bytes, pattern) > 0,
    ensures
        masked_matches(bytes, pattern, places(bytes, pattern)) + Seq::<SearchMatch>::empty()
            =~= masked_matches(bytes, pattern, places(bytes, pattern)),
        ({
            let all = masked_matches(bytes, pattern, places(bytes, pattern));
            let before = masked_matches(bytes, pattern, start);
            exists|after: Seq<SearchMatch>|
                #![trigger before + after]
                before + after == all && reported(masked_stream(bytes, pattern, start, batch))
                    == batch + after
        }),
    decreases places(bytes, pattern) - start,
{
    let all = masked_matches(bytes, pattern, places(bytes, pattern));
    let before = masked_matches(bytes, pattern, start);
    if start == places(bytes, pattern) {
        lemma_reported_small(batch, bytes.len() as int);
        let after = Seq::<SearchMatch>::empty();
        assert(before + after =~= all);
        assert(batch + after =~= batch);
    } else {
        let next_batch = place_batch(bytes, pattern, start, batch);
        let reports = place_reports(bytes, pattern, start, batch);
        let tail = masked_stream(bytes, pattern, start + 1, next_batch);
        lemma_masked_stream(bytes, pattern, start + 1, next_batch);
        let next_before = masked_matches(bytes, pattern, start + 1);
        let rest = choose|after: Seq<SearchMatch>|
            #![trigger next_before + after]
            next_before + after == all && reported(tail) == next_batch + after;
        lemma_reported_concat(reports, tail);
        let grown = batch_with(bytes, pattern, start, batch);
        let kept = place_kept(bytes, pattern, start, batch);
        lemma_reported_small(grown, start);
        lemma_reported_small(kept, start);
        let first = if fits(bytes, pattern, start) {
            filled(grown)
        } else {
            Seq::empty()
        };
        assert(reported(Seq::<MessageView>::empty()) =~= Seq::<SearchMatch>::empty());
        assert(reported(first) + kept =~= grown);
        if reports_progress(start) {
            lemma_reported_concat(
                first,
                handed_over(kept).push(MessageView::Progress(start)),
            );
        }
        assert(reported(reports) + next_batch =~= grown);
        let new = if fits(bytes, pattern, start) {
            seq![match_at(pattern, start)]
        } else {
            Seq::empty()
        };
        let after = new + rest;
        assert(grown =~= batch + new);
        assert(next_before =~= before + new);
        assert(before + after =~= all);
        assert(reported(reports) + (next_batch + rest) =~= (reported(reports) + next_batch) + rest);
        assert(reported(reports) + (next_batch + rest) =~= batch + after);
    }
}

proof fn lemma_regex_stream(
    hits: Seq<SearchMatch>,
    next: int,
    last_progress: int,
    batch: Seq<SearchMatch>,
    length: int,
)
    requires
        0 <= next <= hits.len(),
    ensures
        reported(regex_stream(hits, next, last_progress, batch, length)) == batch
            + hits.skip(next),
    decreases hits.len() - next,
{
    if next == hits.len() {
        lemma_reported_small(batch, length);
        assert(batch + hits.skip(next) =~= batch);
    } else {
        let found = hits[next];
        let reports = found_reports(found, last_progress, batch);
        let kept = found_batch(found, last_progress, batch);
        let progress = found_progress(found, last_progress);
        lemma_regex_stream(hits, next + 1, progress, kept, length);
        lemma_reported_concat(
            reports,
            regex_stream(hits, next + 1, progress, kept, length),
        );
        let grown = batch.push(found);
        lemma_reported_small(grown, found.end + 1);
        lemma_reported_small(unfilled(grown), found.end + 1);
        if reports_span(found.end + 1, last_progress) {
            lemma_reported_concat(
                filled(grown),
                handed_over(unfilled(grown)).push(MessageView::Progress(found.end + 1)),
            );
        }
        assert(reported(reports) + kept =~= grown);
        assert(reported(reports) + (kept + hits.skip(next + 1)) =~= (reported(reports) + kept)
            + hits.skip(next + 1));
        assert(grown + hits.skip(next + 1) =~= batch + hits.skip(next));
    }
}

/// The batches that a search reports hold its matches, each once and in order.
pub proof fn batches_hold_the_matches(bytes: Seq<u8>, pattern: PatternView)
    ensures
        reported(stream_of(bytes, pattern)) == matches_of(bytes, pattern),
{
    let none = Seq::<SearchMatch>::empty();
    match pattern {
        PatternView::Masked(mask) => {
            if places(bytes, mask) == 0 {
                reveal_with_fuel(reported, 2);
                let done = seq![MessageView::Done];
                assert(done.drop_last() =~= Seq::<MessageView>::empty());
                assert(reported(stream_of(bytes, pattern)) =~= matches_of(bytes, pattern));
            } else {
                lemma_masked_stream(bytes, mask, 0, none);
                let before = masked_matches(bytes, mask, 0);
                let after = choose|after: Seq<SearchMatch>|
                    #![trigger before + after]
                    before + after == matches_of(bytes, pattern) && reported(
                        stream_of(bytes, pattern),
                    ) == none + after;
                assert(before =~= none);
            }
        },
        PatternView::Regex(_) => {
            let hits = matches_of(bytes, pattern);
            lemma_regex_stream(hits, 0, 0, none, bytes.len() as int);
            assert(none + hits.skip(0) =~= hits);
        },
    }
}

// ---------------------------------------------------------------------------
// Hexadecimal queries read back what was written
// ---------------------------------------------------------------------------

/// The two digits of a byte, with letters of either case.
pub open spec fn two_digits(byte: u8, upper: bool) -> Seq<char> {
    seq![numbers::digit(byte as int / 16, upper), numbers::digit(byte as int % 16, upper)]
}

/// Bytes as two digits each, one after the other.
pub open spec fn compact_hex(bytes: Seq<u8>, upper: bool) -> Seq<char>
    decreases bytes.len(),
{
    if bytes.len() == 0 {
        Seq::empty()
    } else {
        compact_hex(bytes.drop_last(), upper) + two_digits(bytes.last(), upper)
    }
}

/// Bytes as two digits each, with a character between every two of them.
pub open spec fn separated_hex(bytes: Seq<u8>, upper: bool, between: Seq<char>) -> Seq<char>
    decreases bytes.len(),
{
    if bytes.len() == 0 {
        Seq::empty()
    } else if bytes.len() == 1 {
        two_digits(bytes[0], upper)
    } else {
        separated_hex(bytes.drop_last(), upper, between.drop_last()).push(between.last())
            + two_digits(bytes.last(), upper)
    }
}

/// The bytes that a query asks for exactly.
pub open spec fn exactly(bytes: Seq<u8>) -> Seq<Option<u8>> {
    Seq::new(bytes.len(), |i: int| Some(bytes[i]))
}

/// Whether a text is made of ASCII characters, none of which can stand before a number as part of
/// its prefix.
spec fn prefix_free(text: Seq<char>) -> bool {
    &&& vstd::utf8::is_ascii_chars(text)
    &&& forall|i: int| 0 <= i < text.len() ==> #[trigger] text[i] != 'x' && text[i] != 'X'
}

proof fn lemma_two_digits(byte: u8, upper: bool)
    ensures
        prefix_free(two_digits(byte, upper)),
        forall|i: int| 0 <= i < 2 ==> !is_separator(#[trigger] two_digits(byte, upper)[i]),
        token_byte(two_digits(byte, upper)) == Ok::<Option<u8>, Seq<char>>(Some(byte)),
{
    let token = two_digits(byte, upper);
    let high = byte as int / 16;
    let low = byte as int % 16;
    numbers::lemma_digit_read_back(high, upper);
    numbers::lemma_digit_read_back(low, upper);
    vstd::utf8::is_ascii_chars_encode_utf8(token);
    reveal_strlit("??");
    reveal_strlit("**");
    assert(token[0] != "??"@[0]);
    assert(token[0] != "**"@[0]);
    assert(token[0] != '+');
    assert(numbers::without_plus(token) == token);
    assert(token.drop_last() =~= seq![token[0]]);
    assert(token.drop_last().drop_last() =~= Seq::<char>::empty());
    reveal_with_fuel(numbers::digits_value, 3);
    assert(numbers::digits_value(token, 16) == high * 16 + low);
}

proof fn lemma_no_pair(text: Seq<char>, first: char, second: char)
    requires
        forall|i: int| 0 <= i < text.len() ==> #[trigger] text[i] != second,
    ensures
        without_pair(text, first, second) == text,
    decreases text.len(),
{
    if text.len() > 0 {
        assert forall|i: int| 0 <= i < text.skip(1).len() implies #[trigger] text.skip(1)[i]
            != second by {
            assert(text.skip(1)[i] == text[i + 1]);
        }
        lemma_no_pair(text.skip(1), first, second);
        assert(seq![text[0]] + text.skip(1) =~= text);
    }
}

/// Pieces of two digits ask for their bytes.
proof fn lemma_token_bytes(tokens: Seq<Seq<char>>, bytes: Seq<u8>, upper: bool)
    requires
        tokens.len() == bytes.len(),
        forall|i: int| 0 <= i < bytes.len() ==> #[trigger] tokens[i] == two_digits(bytes[i], upper),
    ensures
        token_bytes(tokens) == Ok::<Seq<Option<u8>>, Seq<char>>(exactly(bytes)),
    decreases bytes.len(),
{
    if bytes.len() == 0 {
        assert(exactly(bytes) =~= Seq::<Option<u8>>::empty());
    } else {
        let rest = bytes.drop_last();
        assert forall|i: int| 0 <= i < rest.len() implies #[trigger] tokens.drop_last()[i]
            == two_digits(rest[i], upper) by {
            assert(tokens.drop_last()[i] == tokens[i]);
        }
        lemma_token_bytes(tokens.drop_last(), rest, upper);
        assert(tokens.last() == two_digits(bytes.last(), upper));
        lemma_two_digits(bytes.last(), upper);
        assert(exactly(rest).push(Some(bytes.last())) =~= exactly(bytes));
    }
}

proof fn lemma_compact(bytes: Seq<u8>, upper: bool)
    ensures
        compact_hex(bytes, upper).len() == 2 * bytes.len(),
        prefix_free(compact_hex(bytes, upper)),
        !has_separator(compact_hex(bytes, upper)),
        forall|i: int|
            0 <= i < bytes.len() ==> compact_hex(bytes, upper).subrange(2 * i, 2 * i + 2)
                == two_digits(#[trigger] bytes[i], upper),
    decreases bytes.len(),
{
    if bytes.len() > 0 {
        let rest = bytes.drop_last();
        let head = compact_hex(rest, upper);
        let pair = two_digits(bytes.last(), upper);
        let whole = compact_hex(bytes, upper);
        lemma_compact(rest, upper);
        lemma_two_digits(bytes.last(), upper);
        assert forall|i: int| 0 <= i < whole.len() implies '\0' <= #[trigger] whole[i]
            <= '\u{7f}' && whole[i] != 'x' && whole[i] != 'X' && !is_separator(whole[i]) by {
            if i < head.len() {
                assert(whole[i] == head[i]);
            } else {
                assert(whole[i] == pair[i - head.len()]);
            }
        }
        assert forall|i: int| 0 <= i < bytes.len() implies whole.subrange(2 * i, 2 * i + 2)
            == two_digits(#[trigger] bytes[i], upper) by {
            if i < rest.len() {
                assert(bytes[i] == rest[i]);
                assert(whole.subrange(2 * i, 2 * i + 2) =~= head.subrange(2 * i, 2 * i + 2));
            } else {
                assert(whole.subrange(2 * i, 2 * i + 2) =~= pair);
            }
        }
    }
}

/// A part of a text in ASCII reads the same from its bytes.
proof fn lemma_ascii_part(text: Seq<char>, from: int, to: int)
    requires
        vstd::utf8::is_ascii_chars(text),
        0 <= from <= to <= text.len(),
    ensures
        vstd::utf8::encode_utf8(text).len() == text.len(),
        readable(vstd::utf8::encode_utf8(text).subrange(from, to)) == text.subrange(from, to),
{
    let part = text.subrange(from, to);
    assert forall|i: int| 0 <= i < part.len() implies '\0' <= #[trigger] part[i] <= '\u{7f}' by {
        assert(part[i] == text[from + i]);
    }
    vstd::utf8::is_ascii_chars_encode_utf8(text);
    vstd::utf8::is_ascii_chars_encode_utf8(part);
    let whole = vstd::utf8::encode_utf8(text);
    assert forall|i: int| 0 <= i < part.len() implies vstd::utf8::encode_utf8(part)[i]
        == whole.subrange(from, to)[i] by {
        assert(part[i] == text[from + i]);
        assert(part[i] as u8 == vstd::utf8::encode_utf8(part)[i]);
        assert(text[from + i] as u8 == whole[from + i]);
    }
    assert(vstd::utf8::encode_utf8(part) =~= whole.subrange(from, to));
    vstd::utf8::encode_utf8_valid_utf8(part);
    vstd::utf8::encode_utf8_decode_utf8(part);
}

/// A hexadecimal query asks for exactly the bytes whose digits it was written with, in either
/// case. In upper case these are the digits that bytes are copied as.
pub proof fn queries_read_back(bytes: Seq<u8>, upper: bool)
    requires
        bytes.len() > 0,
    ensures
        hex_query(compact_hex(bytes, upper)) == Ok::<Seq<Option<u8>>, Seq<char>>(exactly(bytes)),
        compact_hex(bytes, true) == crate::codec::hex_of(bytes),
{
    let text = compact_hex(bytes, upper);
    lemma_compact(bytes, upper);
    lemma_no_pair(text, '0', 'x');
    lemma_no_pair(text, '0', 'X');
    lemma_ascii_part(text, 0, 0);
    let tokens = hex_tokens(text);
    assert(tokens.len() == bytes.len());
    assert forall|i: int| 0 <= i < bytes.len() implies #[trigger] tokens[i] == two_digits(
        bytes[i],
        upper,
    ) by {
        lemma_ascii_part(text, 2 * i, 2 * i + 2);
        assert(bytes[i] == bytes[i]);
    }
    lemma_token_bytes(tokens, bytes, upper);
    lemma_written_as_copied(bytes);
}

proof fn lemma_written_as_copied(bytes: Seq<u8>)
    ensures
        compact_hex(bytes, true) == crate::codec::hex_of(bytes),
    decreases bytes.len(),
{
    if bytes.len() > 0 {
        lemma_written_as_copied(bytes.drop_last());
        assert(two_digits(bytes.last(), true) =~= numbers::byte_hex(bytes.last()));
    }
}

proof fn lemma_spaced_parts(head: Seq<char>, c: char, pair: Seq<char>)
    requires
        is_separator(c),
        pair.len() == 2,
        !is_separator(pair[0]),
        !is_separator(pair[1]),
    ensures
        text::split(spaced(head.push(c) + pair), ' ') == text::split(spaced(head), ' ').push(pair),
{
    let whole = spaced(head.push(c) + pair);
    let before = spaced(head);
    text::lemma_split_nonempty(before, ' ');
    let parts = text::split(before, ' ');
    assert(pair[0] != ' ' && pair[1] != ' ');
    let one = whole.drop_last();
    let two = one.drop_last();
    assert(two.drop_last() =~= before);
    assert(two.last() == ' ');
    assert(one.last() == pair[0]);
    assert(whole.last() == pair[1]);
    assert(text::split(two, ' ') == parts.push(Seq::empty()));
    assert(text::split(one, ' ') =~= parts.push(seq![pair[0]])) by {
        assert(Seq::<char>::empty().push(pair[0]) =~= seq![pair[0]]);
    }
    assert(seq![pair[0]].push(pair[1]) =~= pair);
    assert(text::split(whole, ' ') =~= parts.push(pair));
}

proof fn lemma_separated(bytes: Seq<u8>, upper: bool, between: Seq<char>)
    requires
        bytes.len() > 0,
        between.len() == bytes.len() - 1,
        forall|i: int| 0 <= i < between.len() ==> is_separator(#[trigger] between[i]),
    ensures
        bytes.len() > 1 ==> has_separator(separated_hex(bytes, upper, between)),
        forall|i: int|
            0 <= i < separated_hex(bytes, upper, between).len() ==> #[trigger] separated_hex(
                bytes,
                upper,
                between,
            )[i] != 'x' && separated_hex(bytes, upper, between)[i] != 'X',
        text::split(spaced(separated_hex(bytes, upper, between)), ' ') == Seq::new(
            bytes.len(),
            |i: int| two_digits(bytes[i], upper),
        ),
    decreases bytes.len(),
{
    let whole = separated_hex(bytes, upper, between);
    let pair = two_digits(bytes.last(), upper);
    lemma_two_digits(bytes.last(), upper);
    assert(!is_separator(pair[0]) && !is_separator(pair[1]));
    let expected = Seq::new(bytes.len(), |i: int| two_digits(bytes[i], upper));
    if bytes.len() == 1 {
        assert(spaced(pair) =~= pair);
        assert(pair[0] != ' ' && pair[1] != ' ');
        let one = pair.drop_last();
        assert(one.drop_last() =~= Seq::<char>::empty());
        assert(text::split(one.drop_last(), ' ') == seq![Seq::<char>::empty()]);
        assert(text::split(one, ' ') =~= seq![seq![pair[0]]]) by {
            assert(Seq::<char>::empty().push(pair[0]) =~= seq![pair[0]]);
        }
        assert(seq![pair[0]].push(pair[1]) =~= pair);
        assert(text::split(pair, ' ') =~= seq![pair]);
        assert(seq![pair] =~= expected);
    } else {
        let rest = bytes.drop_last();
        let fewer = between.drop_last();
        assert forall|i: int| 0 <= i < fewer.len() implies is_separator(#[trigger] fewer[i]) by {
            assert(fewer[i] == between[i]);
        }
        lemma_separated(rest, upper, fewer);
        let head = separated_hex(rest, upper, fewer);
        let c = between.last();
        assert(is_separator(between[between.len() - 1]));
        assert(whole[head.len() as int] == c);
        assert(c != 'x' && c != 'X');
        assert forall|i: int| 0 <= i < whole.len() implies #[trigger] whole[i] != 'x' && whole[i]
            != 'X' by {
            if i < head.len() {
                assert(whole[i] == head[i]);
            } else if i > head.len() {
                assert(whole[i] == pair[i - head.len() - 1]);
            }
        }
        lemma_spaced_parts(head, c, pair);
        assert(Seq::new(rest.len(), |i: int| two_digits(rest[i], upper)).push(pair) =~= expected);
    }
}

proof fn lemma_all_nonempty(parts: Seq<Seq<char>>)
    requires
        forall|i: int| 0 <= i < parts.len() ==> (#[trigger] parts[i]).len() > 0,
    ensures
        nonempty(parts) == parts,
    decreases parts.len(),
{
    if parts.len() > 0 {
        let rest = parts.drop_last();
        assert forall|i: int| 0 <= i < rest.len() implies (#[trigger] rest[i]).len() > 0 by {
            assert(rest[i] == parts[i]);
        }
        lemma_all_nonempty(rest);
        assert(parts[parts.len() - 1].len() > 0);
        assert(rest.push(parts.last()) =~= parts);
    }
}

/// A hexadecimal query with a separator between every two bytes asks for exactly these bytes, in
/// either case and whatever the separators are.
pub proof fn separated_queries_read_back(bytes: Seq<u8>, upper: bool, between: Seq<char>)
    requires
        bytes.len() > 0,
        between.len() == bytes.len() - 1,
        forall|i: int| 0 <= i < between.len() ==> is_separator(#[trigger] between[i]),
    ensures
        hex_query(separated_hex(bytes, upper, between)) == Ok::<Seq<Option<u8>>, Seq<char>>(
            exactly(bytes),
        ),
{
    if bytes.len() == 1 {
        queries_read_back(bytes, upper);
        assert(compact_hex(bytes.drop_last(), upper) =~= Seq::<char>::empty());
        assert(compact_hex(bytes, upper) =~= separated_hex(bytes, upper, between));
    } else {
        let text = separated_hex(bytes, upper, between);
        lemma_separated(bytes, upper, between);
        lemma_no_pair(text, '0', 'x');
        lemma_no_pair(text, '0', 'X');
        let parts = Seq::new(bytes.len(), |i: int| two_digits(bytes[i], upper));
        lemma_all_nonempty(parts);
        lemma_token_bytes(parts, bytes, upper);
    }
}

/// A text behind another one that neither starts nor ends with a space.
proof fn lemma_trim_behind(prefix: Seq<char>, rest: Seq<char>)
    requires
        prefix.len() > 0,
        !text::is_space(prefix[0]),
        !text::is_space(prefix.last()),
    ensures
        text::trim(prefix + rest) == prefix + text::trim_end(rest),
    decreases rest.len(),
{
    let whole = prefix + rest;
    assert(whole[0] == prefix[0]);
    assert(text::trim_start(whole) == whole);
    if rest.len() == 0 {
        assert(whole =~= prefix);
        assert(prefix + text::trim_end(rest) =~= prefix);
    } else {
        assert(whole.last() == rest.last());
        if text::is_space(rest.last()) {
            lemma_trim_behind(prefix, rest.drop_last());
            assert(whole.drop_last() =~= prefix + rest.drop_last());
            assert(text::trim_start(whole.drop_last()) == whole.drop_last());
        }
    }
}

/// What a query asks for that names its form.
proof fn lemma_named_form(rest: Seq<char>)
    ensures
        query_of("bin:"@ + rest) == as_pattern(binary_query(text::trim_end(rest))),
        query_of("hex:"@ + rest) == as_pattern(hex_query(text::trim_end(rest))),
        query_of("dec:"@ + rest) == match numbers::number(
            text::trim(text::trim_end(rest)),
            10,
            u128::MAX as int,
        ) {
            Some(value) => Ok(PatternView::Masked(masked(big_endian(value as nat)))),
            None => Err("invalid unsigned decimal value"@),
        },
        query_of("re:"@ + rest) == match regex_error(text::trim_end(rest), usize::BITS as int) {
            None => Ok(PatternView::Regex(text::trim_end(rest))),
            Some(error) => Err("invalid regex: "@ + error),
        },
{
    reveal_strlit("re:");
    reveal_strlit("dec:");
    reveal_strlit("bin:");
    reveal_strlit("hex:");
    let end = text::trim_end(rest);
    lemma_trim_behind("bin:"@, rest);
    lemma_trim_behind("hex:"@, rest);
    lemma_trim_behind("dec:"@, rest);
    lemma_trim_behind("re:"@, rest);
    let bin = "bin:"@ + end;
    let hex = "hex:"@ + end;
    let dec = "dec:"@ + end;
    let re = "re:"@ + end;
    assert(bin.take(4) =~= "bin:"@ && bin.skip(4) =~= end && bin.take(3)[0] == 'b' && bin.take(4)[0]
        == 'b');
    assert(hex.take(4) =~= "hex:"@ && hex.skip(4) =~= end && hex.take(3)[0] == 'h' && hex.take(4)[0]
        == 'h');
    assert(dec.take(4) =~= "dec:"@ && dec.skip(4) =~= end && dec.take(3)[0] == 'd');
    assert(re.take(3) =~= "re:"@ && re.skip(3) =~= end);
}

/// A query that names no form: it holds no colon, and starts and ends with no space.
proof fn lemma_no_form(query: Seq<char>)
    requires
        query.len() > 0,
        !text::is_space(query[0]),
        !text::is_space(query.last()),
        !query.contains(':'),
    ensures
        query_of(query) == as_pattern(hex_query(query)),
        query_of("hex:"@ + query) == as_pattern(hex_query(query)),
{
    reveal_strlit("re:");
    reveal_strlit("dec:");
    reveal_strlit("bin:");
    reveal_strlit("hex:");
    lemma_named_form(query);
    assert(text::trim_end(query) == query);
    assert(text::trim_start(query) == query);
    if query.len() >= 3 {
        assert(query[2] != ':');
        assert(query.take(3)[2] == query[2]);
    }
    if query.len() >= 4 {
        assert(query[3] != ':');
        assert(query.take(4)[3] == query[3]);
    }
}

/// The digit of a byte with some weight.
pub open spec fn bit_digit(byte: u8, weight: int) -> char {
    if (byte as int / weight) % 2 == 1 {
        '1'
    } else {
        '0'
    }
}

/// The eight binary digits of a byte, the most significant first.
pub open spec fn eight_digits(byte: u8) -> Seq<char> {
    seq![
        bit_digit(byte, 128),
        bit_digit(byte, 64),
        bit_digit(byte, 32),
        bit_digit(byte, 16),
        bit_digit(byte, 8),
        bit_digit(byte, 4),
        bit_digit(byte, 2),
        bit_digit(byte, 1),
    ]
}

/// Bytes as eight binary digits each, one after the other.
pub open spec fn compact_bits(bytes: Seq<u8>) -> Seq<char>
    decreases bytes.len(),
{
    if bytes.len() == 0 {
        Seq::empty()
    } else {
        compact_bits(bytes.drop_last()) + eight_digits(bytes.last())
    }
}

proof fn lemma_eight_digits(byte: u8)
    ensures
        all_bits(eight_digits(byte)),
        numbers::digits_value(eight_digits(byte), 2) == byte,
{
    let d = eight_digits(byte);
    let b = byte as int;
    assert(d.take(0) =~= Seq::<char>::empty());
    assert(d.take(1).drop_last() =~= d.take(0));
    assert(d.take(2).drop_last() =~= d.take(1));
    assert(d.take(3).drop_last() =~= d.take(2));
    assert(d.take(4).drop_last() =~= d.take(3));
    assert(d.take(5).drop_last() =~= d.take(4));
    assert(d.take(6).drop_last() =~= d.take(5));
    assert(d.take(7).drop_last() =~= d.take(6));
    assert(d.take(8).drop_last() =~= d.take(7));
    assert(d.take(8) =~= d);
    assert(numbers::digit_value('0') == 0 && numbers::digit_value('1') == 1);
    assert(numbers::digits_value(d.take(0), 2) == 0);
    assert(numbers::digits_value(d.take(1), 2) == b / 128);
    assert(numbers::digits_value(d.take(2), 2) == b / 64);
    assert(numbers::digits_value(d.take(3), 2) == b / 32);
    assert(numbers::digits_value(d.take(4), 2) == b / 16);
    assert(numbers::digits_value(d.take(5), 2) == b / 8);
    assert(numbers::digits_value(d.take(6), 2) == b / 4);
    assert(numbers::digits_value(d.take(7), 2) == b / 2);
    assert(numbers::digits_value(d.take(8), 2) == b);
}

proof fn lemma_compact_bits(bytes: Seq<u8>)
    ensures
        compact_bits(bytes).len() == 8 * bytes.len(),
        all_bits(compact_bits(bytes)),
        bit_bytes(compact_bits(bytes)) == exactly(bytes),
    decreases bytes.len(),
{
    let whole = compact_bits(bytes);
    if bytes.len() > 0 {
        let rest = bytes.drop_last();
        let head = compact_bits(rest);
        let group = eight_digits(bytes.last());
        lemma_compact_bits(rest);
        lemma_eight_digits(bytes.last());
        assert forall|i: int| 0 <= i < whole.len() implies #[trigger] whole[i] == '0' || whole[i]
            == '1' by {
            if i < head.len() {
                assert(whole[i] == head[i]);
            } else {
                assert(whole[i] == group[i - head.len()]);
            }
        }
        assert forall|i: int| 0 <= i < bytes.len() implies bit_bytes(whole)[i] == exactly(
            bytes,
        )[i] by {
            if i < rest.len() {
                assert(whole.subrange(8 * i, 8 * i + 8) =~= head.subrange(8 * i, 8 * i + 8));
                assert(bit_bytes(head)[i] == exactly(rest)[i]);
            } else {
                assert(whole.subrange(8 * i, 8 * i + 8) =~= group);
            }
        }
    }
    assert(bit_bytes(whole) =~= exactly(bytes));
}

proof fn lemma_bits_are_filtered(line: Seq<char>)
    ensures
        bits_of(line) == line.filter(|c: char| !text::is_space(c) && c != '_'),
        bits_of(text::trim_end(line)) == bits_of(line),
    decreases line.len(),
{
    reveal(Seq::filter);
    if line.len() > 0 {
        lemma_bits_are_filtered(line.drop_last());
    }
}

/// A query in binary asks for exactly the bytes whose binary digits it holds, eight for a byte and
/// the most significant first, whatever spaces and underscores stand between them.
pub proof fn binary_queries_read_back(bytes: Seq<u8>, digits: Seq<char>)
    requires
        bytes.len() > 0,
        digits.filter(|c: char| !text::is_space(c) && c != '_') == compact_bits(bytes),
    ensures
        query_of("bin:"@ + digits) == Ok::<PatternView, Seq<char>>(
            PatternView::Masked(exactly(bytes)),
        ),
{
    lemma_named_form(digits);
    lemma_bits_are_filtered(digits);
    lemma_compact_bits(bytes);
}

/// A query in binary that holds anything but binary digits, spaces, and underscores asks for
/// nothing, and neither does one whose digits do not make up whole bytes, or that has none.
pub proof fn other_binary_queries_are_refused(digits: Seq<char>)
    requires
        ({
            let bits = digits.filter(|c: char| !text::is_space(c) && c != '_');
            ||| bits.len() % 8 != 0
            ||| bits.len() == 0
            ||| exists|i: int| 0 <= i < bits.len() && #[trigger] bits[i] != '0' && bits[i] != '1'
        }),
    ensures
        query_of("bin:"@ + digits) is Err,
{
    lemma_named_form(digits);
    lemma_bits_are_filtered(digits);
}

/// A query in decimal asks for the bytes of the number, the most significant first, and for as few
/// as there are; a number of more than 128 bits asks for nothing.
pub proof fn decimal_queries_read_back(value: nat)
    ensures
        value <= u128::MAX ==> {
            &&& query_of("dec:"@ + numbers::decimal(value)) == Ok::<PatternView, Seq<char>>(
                PatternView::Masked(exactly(big_endian(value))),
            )
            &&& big_endian_value(big_endian(value)) == value
            &&& big_endian(value)[0] == 0 ==> value == 0 && big_endian(value).len() == 1
        },
        value > u128::MAX ==> query_of("dec:"@ + numbers::decimal(value)) is Err,
{
    let digits = numbers::decimal(value);
    lemma_named_form(digits);
    numbers::lemma_numeral_read_back(value, 10, true);
    crate::codec::lemma_digits_are_plain(digits, 10);
    crate::codec::lemma_trim_keeps_dense(digits);
    assert(!text::is_space(digits[digits.len() - 1]));
    assert(text::trim_end(digits) == digits);
    big_endian_reads_back(value);
    assert(masked(big_endian(value)) =~= exactly(big_endian(value)));
}

/// A query for a regular expression asks for that expression, as it was typed but for spaces at
/// its end, if it can be compiled.
pub proof fn regex_queries_are_taken_as_typed(pattern: Seq<char>)
    requires
        pattern.len() > 0 ==> !text::is_space(pattern.last()),
    ensures
        query_of("re:"@ + pattern) matches Ok(asked) ==> asked == PatternView::Regex(pattern),
        query_of("re:"@ + pattern) is Ok <==> regex_error(pattern, usize::BITS as int) is None,
{
    lemma_named_form(pattern);
}

/// A byte of a hexadecimal query: two digits, or two signs where any byte will do.
pub open spec fn piece(byte: Option<u8>, upper: bool, wild: Seq<char>) -> Seq<char> {
    match byte {
        Some(byte) => two_digits(byte, upper),
        None => wild,
    }
}

/// A hexadecimal query, with some mark before every byte, and a character between every two of
/// them.
pub open spec fn written(
    pattern: Seq<Option<u8>>,
    upper: bool,
    wild: Seq<char>,
    mark: Seq<char>,
    between: Seq<char>,
) -> Seq<char>
    decreases pattern.len(),
{
    if pattern.len() == 0 {
        Seq::empty()
    } else if pattern.len() == 1 {
        mark + piece(pattern[0], upper, wild)
    } else {
        written(pattern.drop_last(), upper, wild, mark, between.drop_last()).push(between.last()) + (
        mark + piece(pattern.last(), upper, wild))
    }
}

/// A hexadecimal query, with some mark before every byte, and nothing between them.
pub open spec fn run_together(
    pattern: Seq<Option<u8>>,
    upper: bool,
    wild: Seq<char>,
    mark: Seq<char>,
) -> Seq<char>
    decreases pattern.len(),
{
    if pattern.len() == 0 {
        Seq::empty()
    } else {
        run_together(pattern.drop_last(), upper, wild, mark) + (mark + piece(
            pattern.last(),
            upper,
            wild,
        ))
    }
}

/// Whether two characters stand for any byte.
pub open spec fn stands_for_any(wild: Seq<char>) -> bool {
    wild == "??"@ || wild == "**"@
}

/// Whether some characters may stand before a byte: nothing, or the prefix of a number.
pub open spec fn may_lead(mark: Seq<char>) -> bool {
    mark.len() == 0 || mark == "0x"@ || mark == "0X"@
}

spec fn plain_character(c: char) -> bool {
    '\0' <= c <= '\u{7f}' && c != 'x' && c != 'X' && c != ':' && !is_separator(c)
}

proof fn lemma_piece(byte: Option<u8>, upper: bool, wild: Seq<char>)
    requires
        stands_for_any(wild),
    ensures
        piece(byte, upper, wild).len() == 2,
        plain_character(piece(byte, upper, wild)[0]),
        plain_character(piece(byte, upper, wild)[1]),
        token_byte(piece(byte, upper, wild)) == Ok::<Option<u8>, Seq<char>>(byte),
{
    reveal_strlit("??");
    reveal_strlit("**");
    if let Some(b) = byte {
        lemma_two_digits(b, upper);
        let token = two_digits(b, upper);
        assert(token[0] != 'x' && token[1] != 'x');
        assert(!is_separator(token[0]) && !is_separator(token[1]));
        assert('\0' <= token[0] <= '\u{7f}' && '\0' <= token[1] <= '\u{7f}');
    }
}

proof fn lemma_pairs_apart(left: Seq<char>, right: Seq<char>, first: char, second: char)
    requires
        right.len() > 0 ==> right[0] != second,
    ensures
        without_pair(left + right, first, second) == without_pair(left, first, second)
            + without_pair(right, first, second),
    decreases left.len(),
{
    let whole = left + right;
    if left.len() == 0 {
        assert(whole =~= right);
        assert(without_pair(left, first, second) + without_pair(right, first, second)
            =~= without_pair(right, first, second));
    } else if left.len() >= 2 && left[0] == first && left[1] == second {
        lemma_pairs_apart(left.skip(2), right, first, second);
        assert(whole.skip(2) =~= left.skip(2) + right);
    } else {
        lemma_pairs_apart(left.skip(1), right, first, second);
        assert(whole.skip(1) =~= left.skip(1) + right);
        assert(whole.len() >= 2 ==> !(whole[0] == first && whole[1] == second)) by {
            if left.len() == 1 && right.len() > 0 {
                assert(whole[1] == right[0]);
            }
        }
        assert(without_pair(whole, first, second) =~= without_pair(left, first, second)
            + without_pair(right, first, second));
    }
}

proof fn lemma_marked_piece(byte: Option<u8>, upper: bool, wild: Seq<char>, second: char)
    requires
        stands_for_any(wild),
        second == 'x' || second == 'X',
    ensures
        without_pair(seq!['0', second] + piece(byte, upper, wild), '0', second) == piece(
            byte,
            upper,
            wild,
        ),
{
    let token = piece(byte, upper, wild);
    let marked = seq!['0', second] + token;
    lemma_piece(byte, upper, wild);
    lemma_no_pair(token, '0', second);
    assert(marked.skip(2) =~= token);
}

/// The marks before the bytes do not count.
proof fn lemma_marks_fall_away(
    pattern: Seq<Option<u8>>,
    upper: bool,
    wild: Seq<char>,
    second: char,
    between: Seq<char>,
)
    requires
        stands_for_any(wild),
        second == 'x' || second == 'X',
        between.len() + 1 >= pattern.len(),
        forall|i: int| 0 <= i < between.len() ==> is_separator(#[trigger] between[i]),
    ensures
        ({
            let none = Seq::<char>::empty();
            let mark = seq!['0', second];
            &&& without_pair(written(pattern, upper, wild, mark, between), '0', second) == written(
                pattern,
                upper,
                wild,
                none,
                between,
            )
            &&& without_pair(run_together(pattern, upper, wild, mark), '0', second) == run_together(
                pattern,
                upper,
                wild,
                none,
            )
        }),
    decreases pattern.len(),
{
    let none = Seq::<char>::empty();
    let mark = seq!['0', second];
    if pattern.len() > 0 {
        let rest = pattern.drop_last();
        let token = piece(pattern.last(), upper, wild);
        lemma_marked_piece(pattern.last(), upper, wild, second);
        assert(none + token =~= token);
        if between.len() > 0 {
            let fewer = between.drop_last();
            assert forall|i: int| 0 <= i < fewer.len() implies is_separator(#[trigger] fewer[i]) by {
                assert(fewer[i] == between[i]);
            }
            lemma_marks_fall_away(rest, upper, wild, second, fewer);
            let head = written(rest, upper, wild, mark, fewer);
            let c = between.last();
            assert(is_separator(between[between.len() - 1]));
            assert(c != 'x' && c != 'X');
            assert(head.push(c) =~= head + seq![c]);
            lemma_pairs_apart(head, seq![c], '0', second);
            lemma_no_pair(seq![c], '0', second);
            lemma_pairs_apart(head.push(c), mark + token, '0', second);
            if pattern.len() > 1 {
                assert(without_pair(head.push(c), '0', second) =~= written(
                    rest,
                    upper,
                    wild,
                    none,
                    fewer,
                ).push(c));
            }
        } else {
            lemma_marks_fall_away(rest, upper, wild, second, between);
        }
        lemma_pairs_apart(run_together(rest, upper, wild, mark), mark + token, '0', second);
    }
}

proof fn lemma_written(pattern: Seq<Option<u8>>, upper: bool, wild: Seq<char>, between: Seq<char>)
    requires
        stands_for_any(wild),
        pattern.len() > 0,
        between.len() == pattern.len() - 1,
        forall|i: int| 0 <= i < between.len() ==> is_separator(#[trigger] between[i]),
    ensures
        ({
            let whole = written(pattern, upper, wild, Seq::empty(), between);
            &&& whole.len() > 0
            &&& pattern.len() > 1 ==> has_separator(whole)
            &&& !is_separator(whole[0])
            &&& !is_separator(whole.last())
            &&& forall|i: int|
                0 <= i < whole.len() ==> #[trigger] whole[i] != 'x' && whole[i] != 'X' && whole[i]
                    != ':'
            &&& text::split(spaced(whole), ' ') == Seq::new(
                pattern.len(),
                |i: int| piece(pattern[i], upper, wild),
            )
        }),
    decreases pattern.len(),
{
    let none = Seq::<char>::empty();
    let whole = written(pattern, upper, wild, none, between);
    let pair = piece(pattern.last(), upper, wild);
    lemma_piece(pattern.last(), upper, wild);
    assert(none + pair =~= pair);
    let expected = Seq::new(pattern.len(), |i: int| piece(pattern[i], upper, wild));
    if pattern.len() == 1 {
        assert(whole == pair);
        assert(spaced(pair) =~= pair);
        assert(pair[0] != ' ' && pair[1] != ' ');
        let one = pair.drop_last();
        assert(one.drop_last() =~= none);
        assert(text::split(one.drop_last(), ' ') == seq![none]);
        assert(text::split(one, ' ') =~= seq![seq![pair[0]]]) by {
            assert(none.push(pair[0]) =~= seq![pair[0]]);
        }
        assert(seq![pair[0]].push(pair[1]) =~= pair);
        assert(text::split(pair, ' ') =~= seq![pair]);
        assert(seq![pair] =~= expected);
    } else {
        let rest = pattern.drop_last();
        let fewer = between.drop_last();
        assert forall|i: int| 0 <= i < fewer.len() implies is_separator(#[trigger] fewer[i]) by {
            assert(fewer[i] == between[i]);
        }
        lemma_written(rest, upper, wild, fewer);
        let head = written(rest, upper, wild, none, fewer);
        let c = between.last();
        assert(is_separator(between[between.len() - 1]));
        assert(whole[head.len() as int] == c);
        assert(whole[0] == head[0]);
        assert(whole.last() == pair[1]);
        assert forall|i: int| 0 <= i < whole.len() implies #[trigger] whole[i] != 'x' && whole[i]
            != 'X' && whole[i] != ':' by {
            if i < head.len() {
                assert(whole[i] == head[i]);
            } else if i > head.len() {
                assert(whole[i] == pair[i - head.len() - 1]);
            }
        }
        lemma_spaced_parts(head, c, pair);
        assert(Seq::new(rest.len(), |i: int| piece(rest[i], upper, wild)).push(pair) =~= expected);
    }
}

proof fn lemma_run_together(pattern: Seq<Option<u8>>, upper: bool, wild: Seq<char>)
    requires
        stands_for_any(wild),
    ensures
        ({
            let whole = run_together(pattern, upper, wild, Seq::empty());
            &&& whole.len() == 2 * pattern.len()
            &&& forall|i: int| 0 <= i < whole.len() ==> plain_character(#[trigger] whole[i])
            &&& forall|i: int|
                0 <= i < pattern.len() ==> whole.subrange(2 * i, 2 * i + 2) == piece(
                    #[trigger] pattern[i],
                    upper,
                    wild,
                )
        }),
    decreases pattern.len(),
{
    if pattern.len() > 0 {
        let none = Seq::<char>::empty();
        let rest = pattern.drop_last();
        let head = run_together(rest, upper, wild, none);
        let pair = piece(pattern.last(), upper, wild);
        let whole = run_together(pattern, upper, wild, none);
        lemma_run_together(rest, upper, wild);
        lemma_piece(pattern.last(), upper, wild);
        assert(none + pair =~= pair);
        assert forall|i: int| 0 <= i < whole.len() implies plain_character(#[trigger] whole[i]) by {
            if i < head.len() {
                assert(whole[i] == head[i]);
            } else {
                assert(whole[i] == pair[i - head.len()]);
            }
        }
        assert forall|i: int| 0 <= i < pattern.len() implies whole.subrange(2 * i, 2 * i + 2)
            == piece(#[trigger] pattern[i], upper, wild) by {
            if i < rest.len() {
                assert(pattern[i] == rest[i]);
                assert(whole.subrange(2 * i, 2 * i + 2) =~= head.subrange(2 * i, 2 * i + 2));
            } else {
                assert(whole.subrange(2 * i, 2 * i + 2) =~= pair);
            }
        }
    }
}

proof fn lemma_piece_bytes(
    tokens: Seq<Seq<char>>,
    pattern: Seq<Option<u8>>,
    upper: bool,
    wild: Seq<char>,
)
    requires
        stands_for_any(wild),
        tokens.len() == pattern.len(),
        forall|i: int|
            0 <= i < pattern.len() ==> #[trigger] tokens[i] == piece(pattern[i], upper, wild),
    ensures
        token_bytes(tokens) == Ok::<Seq<Option<u8>>, Seq<char>>(pattern),
    decreases pattern.len(),
{
    if pattern.len() == 0 {
        assert(pattern =~= Seq::<Option<u8>>::empty());
    } else {
        let rest = pattern.drop_last();
        assert forall|i: int| 0 <= i < rest.len() implies #[trigger] tokens.drop_last()[i] == piece(
            rest[i],
            upper,
            wild,
        ) by {
            assert(tokens.drop_last()[i] == tokens[i]);
        }
        lemma_piece_bytes(tokens.drop_last(), rest, upper, wild);
        assert(tokens[tokens.len() - 1] == piece(pattern.last(), upper, wild));
        lemma_piece(pattern.last(), upper, wild);
        assert(rest.push(pattern.last()) =~= pattern);
    }
}

/// What a query without marks asks for.
#[verifier::rlimit(60)]
proof fn lemma_unmarked(
    pattern: Seq<Option<u8>>,
    upper: bool,
    wild: Seq<char>,
    between: Seq<char>,
)
    requires
        pattern.len() > 0,
        stands_for_any(wild),
        between.len() == pattern.len() - 1,
        forall|i: int| 0 <= i < between.len() ==> is_separator(#[trigger] between[i]),
    ensures
        ({
            let apart = written(pattern, upper, wild, Seq::empty(), between);
            let close = run_together(pattern, upper, wild, Seq::empty());
            &&& without_pair(apart, '0', 'x') == apart
            &&& without_pair(apart, '0', 'X') == apart
            &&& without_pair(close, '0', 'x') == close
            &&& without_pair(close, '0', 'X') == close
            &&& hex_query(close) == Ok::<Seq<Option<u8>>, Seq<char>>(pattern)
            &&& hex_query(apart) == Ok::<Seq<Option<u8>>, Seq<char>>(pattern)
        }),
{
    let apart = written(pattern, upper, wild, Seq::empty(), between);
    let close = run_together(pattern, upper, wild, Seq::empty());
    lemma_written(pattern, upper, wild, between);
    lemma_run_together(pattern, upper, wild);
    assert forall|i: int| 0 <= i < close.len() implies #[trigger] close[i] != 'x' && close[i] != 'X'
        && !is_separator(close[i]) && '\0' <= close[i] <= '\u{7f}' by {
        assert(plain_character(close[i]));
    }
    lemma_no_pair(apart, '0', 'x');
    lemma_no_pair(apart, '0', 'X');
    lemma_no_pair(close, '0', 'x');
    lemma_no_pair(close, '0', 'X');
    assert(vstd::utf8::is_ascii_chars(close));
    lemma_ascii_part(close, 0, 0);
    let tokens = hex_tokens(close);
    assert(tokens.len() == pattern.len());
    assert forall|i: int| 0 <= i < pattern.len() implies #[trigger] tokens[i] == piece(
        pattern[i],
        upper,
        wild,
    ) by {
        lemma_ascii_part(close, 2 * i, 2 * i + 2);
        assert(pattern[i] == pattern[i]);
    }
    lemma_piece_bytes(tokens, pattern, upper, wild);
    if pattern.len() == 1 {
        let none = Seq::<char>::empty();
        assert(run_together(pattern.drop_last(), upper, wild, none) =~= none);
        assert(close =~= apart);
    } else {
        let parts = Seq::new(pattern.len(), |i: int| piece(pattern[i], upper, wild));
        assert forall|i: int| 0 <= i < parts.len() implies (#[trigger] parts[i]).len() > 0 by {
            lemma_piece(pattern[i], upper, wild);
        }
        lemma_all_nonempty(parts);
        lemma_piece_bytes(parts, pattern, upper, wild);
    }
}

/// A hexadecimal query asks for exactly the bytes that it was written with, and for any byte
/// where two question marks or two stars stand: in either case, with the name of the form before
/// it or not, with `0x` or `0X` before every byte or not, and with or without separators.
#[verifier::rlimit(60)]
pub proof fn hexadecimal_queries_read_back(
    pattern: Seq<Option<u8>>,
    upper: bool,
    wild: Seq<char>,
    mark: Seq<char>,
    between: Seq<char>,
)
    requires
        pattern.len() > 0,
        stands_for_any(wild),
        may_lead(mark),
        between.len() == pattern.len() - 1,
        forall|i: int| 0 <= i < between.len() ==> is_separator(#[trigger] between[i]),
    ensures
        ({
            let asked = Ok::<PatternView, Seq<char>>(PatternView::Masked(pattern));
            let apart = written(pattern, upper, wild, mark, between);
            let close = run_together(pattern, upper, wild, mark);
            &&& query_of(apart) == asked
            &&& query_of(close) == asked
            &&& query_of("hex:"@ + apart) == asked
            &&& query_of("hex:"@ + close) == asked
        }),
{
    reveal_strlit("0x");
    reveal_strlit("0X");
    let none = Seq::<char>::empty();
    let apart = written(pattern, upper, wild, mark, between);
    let close = run_together(pattern, upper, wild, mark);
    lemma_unmarked(pattern, upper, wild, between);
    lemma_ends(pattern, upper, wild, mark, between);
    if mark.len() == 0 {
        assert(mark =~= none);
    } else {
        let second = mark[1];
        assert(mark =~= seq!['0', second]);
        lemma_marks_fall_away(pattern, upper, wild, second, between);
        if second == 'X' {
            lemma_no_pair(apart, '0', 'x');
            lemma_no_pair(close, '0', 'x');
        }
    }
    lemma_no_form(apart);
    lemma_no_form(close);
}

/// How a query starts and ends, and what it does not hold.
proof fn lemma_ends(
    pattern: Seq<Option<u8>>,
    upper: bool,
    wild: Seq<char>,
    mark: Seq<char>,
    between: Seq<char>,
)
    requires
        pattern.len() > 0,
        stands_for_any(wild),
        may_lead(mark),
        between.len() == pattern.len() - 1,
        forall|i: int| 0 <= i < between.len() ==> is_separator(#[trigger] between[i]),
    ensures
        ({
            let apart = written(pattern, upper, wild, mark, between);
            let close = run_together(pattern, upper, wild, mark);
            &&& apart.len() > 0 && close.len() > 0
            &&& !text::is_space(apart[0]) && !text::is_space(apart.last())
            &&& !text::is_space(close[0]) && !text::is_space(close.last())
            &&& !apart.contains(':') && !close.contains(':')
            &&& mark == "0X"@ ==> forall|i: int| 0 <= i < apart.len() ==> #[trigger] apart[i] != 'x'
            &&& mark == "0X"@ ==> forall|i: int| 0 <= i < close.len() ==> #[trigger] close[i] != 'x'
        }),
    decreases pattern.len(),
{
    reveal_strlit("0x");
    reveal_strlit("0X");
    let apart = written(pattern, upper, wild, mark, between);
    let close = run_together(pattern, upper, wild, mark);
    let token = piece(pattern.last(), upper, wild);
    let part = mark + token;
    lemma_piece(pattern.last(), upper, wild);
    assert(part.last() == token[1]);
    assert(!text::is_space(part[0])) by {
        if mark.len() == 0 {
            assert(part[0] == token[0]);
        } else {
            assert(part[0] == '0');
        }
    }
    assert forall|i: int| 0 <= i < part.len() implies #[trigger] part[i] != ':' && (mark == "0X"@
        ==> part[i] != 'x') by {
        if i < mark.len() {
            assert(part[i] == mark[i]);
        } else {
            assert(part[i] == token[i - mark.len()]);
        }
    }
    let rest = pattern.drop_last();
    if pattern.len() == 1 {
        assert(run_together(rest, upper, wild, mark) =~= Seq::<char>::empty());
        assert(close =~= part);
    } else {
        let fewer = between.drop_last();
        assert forall|i: int| 0 <= i < fewer.len() implies is_separator(#[trigger] fewer[i]) by {
            assert(fewer[i] == between[i]);
        }
        lemma_ends(rest, upper, wild, mark, fewer);
        let c = between.last();
        assert(is_separator(between[between.len() - 1]));
        assert(c != ':' && c != 'x');
        let head = written(rest, upper, wild, mark, fewer);
        let closer = run_together(rest, upper, wild, mark);
        assert(apart[0] == head[0] && apart.last() == part.last());
        assert(close[0] == closer[0] && close.last() == part.last());
        assert forall|i: int| 0 <= i < apart.len() implies #[trigger] apart[i] != ':' && (mark
            == "0X"@ ==> apart[i] != 'x') by {
            if i < head.len() {
                assert(apart[i] == head[i]);
                assert(head.contains(head[i]));
            } else if i > head.len() {
                assert(apart[i] == part[i - head.len() - 1]);
            } else {
                assert(apart[i] == c);
            }
        }
        assert forall|i: int| 0 <= i < close.len() implies #[trigger] close[i] != ':' && (mark
            == "0X"@ ==> close[i] != 'x') by {
            if i < closer.len() {
                assert(close[i] == closer[i]);
                assert(closer.contains(closer[i]));
            } else {
                assert(close[i] == part[i - closer.len()]);
            }
        }
    }
}

} // verus!
