//! Textual forms of offsets and bytes: reading an offset, writing and reading bytes as
//! hexadecimal digits, and names derived from contents.

use vstd::prelude::*;

use crate::numbers;
use crate::numbers::{byte_text, hex_digit_value, hex_padded_text, read_number};
use crate::text;
use crate::text::{chars_of, string_of, strip_prefix, trimmed};

verus! {

/// `text` without the characters that equal `dropped`.
pub open spec fn without(text: Seq<char>, dropped: char) -> Seq<char>
    decreases text.len(),
{
    if text.len() == 0 {
        text
    } else if text.last() == dropped {
        without(text.drop_last(), dropped)
    } else {
        without(text.drop_last(), dropped).push(text.last())
    }
}

/// `text` without the characters that equal `dropped`.
pub fn without_char(text: &str, dropped: char) -> (out: String)
    ensures
        out@ == without(text@, dropped),
{
    let characters = chars_of(text);
    let mut out = String::new();
    let mut i: usize = 0;
    assert(out@ =~= without(text@.take(0), dropped));
    while i < characters.len()
        invariant
            i <= characters.len(),
            characters@ == text@,
            out@ == without(text@.take(i as int), dropped),
        decreases characters.len() - i,
    {
        assert(text@.take(i + 1).drop_last() =~= text@.take(i as int));
        if characters[i] != dropped {
            out.push(characters[i]);
        }
        i = i + 1;
    }
    assert(text@.take(i as int) =~= text@);
    out
}

/// The offset that a text names: a decimal number, or a hexadecimal one after `0x` or `0X`.
/// Spaces around it and underscores anywhere do not matter.
pub open spec fn offset_of(input: Seq<char>) -> Result<int, Seq<char>> {
    let digits = without(text::trim(input), '_');
    if digits.len() == 0 {
        Err("offset is empty"@)
    } else if text::starts_with(digits, "0x"@) || text::starts_with(digits, "0X"@) {
        match numbers::number(digits.skip(2), 16, usize::MAX as int) {
            Some(offset) => Ok(offset),
            None => Err("invalid hexadecimal offset"@),
        }
    } else {
        match numbers::number(digits, 10, usize::MAX as int) {
            Some(offset) => Ok(offset),
            None => Err("use decimal or a 0x-prefixed hexadecimal offset"@),
        }
    }
}

/// Reads the offset that a text names.
pub fn parse_offset(input: &str) -> (offset: Result<usize, String>)
    ensures
        match offset {
            Ok(value) => offset_of(input@) == Ok::<int, Seq<char>>(value as int),
            Err(error) => offset_of(input@) == Err::<int, Seq<char>>(error@),
        },
{
    let digits = without_char(&trimmed(input), '_');
    proof {
        reveal_strlit("0x");
        reveal_strlit("0X");
    }
    if digits.as_str().is_empty() {
        return Err("offset is empty".to_owned());
    }
    let mut rest = strip_prefix(&digits, "0x");
    if rest.is_none() {
        rest = strip_prefix(&digits, "0X");
    }
    match rest {
        Some(hex) => {
            assert(hex@ =~= digits@.skip(2));
            match read_number(&hex, 16, usize::MAX as u128) {
                Some(value) => Ok(value as usize),
                None => Err("invalid hexadecimal offset".to_owned()),
            }
        },
        None => match read_number(&digits, 10, usize::MAX as u128) {
            Some(value) => Ok(value as usize),
            None => Err("use decimal or a 0x-prefixed hexadecimal offset".to_owned()),
        },
    }
}

proof fn lemma_without_absent(text: Seq<char>, dropped: char)
    requires
        !text.contains(dropped),
    ensures
        without(text, dropped) == text,
    decreases text.len(),
{
    if text.len() > 0 {
        assert(text.contains(text.last()));
        assert forall|i: int| 0 <= i < text.drop_last().len() implies text.drop_last()[i]
            != dropped by {
            assert(text.contains(text[i]));
        }
        lemma_without_absent(text.drop_last(), dropped);
        assert(text =~= text.drop_last().push(text.last()));
    }
}

pub proof fn lemma_trim_keeps_dense(line: Seq<char>)
    requires
        forall|i: int| 0 <= i < line.len() ==> !text::is_space(#[trigger] line[i]),
    ensures
        text::trim(line) == line,
{
    if line.len() > 0 {
        assert(!text::is_space(line[0]));
        assert(!text::is_space(line[line.len() - 1]));
    }
}

/// Writing an offset in decimal, or in hexadecimal after `0x`, and reading it gives the offset.
pub proof fn offsets_read_back(offset: nat)
    requires
        offset <= usize::MAX,
    ensures
        offset_of(numbers::decimal(offset)) == Ok::<int, Seq<char>>(offset as int),
        offset_of("0x"@ + numbers::hex(offset)) == Ok::<int, Seq<char>>(offset as int),
{
    reveal_strlit("0x");
    reveal_strlit("0X");
    let plain = numbers::decimal(offset);
    numbers::lemma_numeral_read_back(offset, 10, true);
    numbers::lemma_numeral_read_back(offset, 16, true);
    lemma_digits_are_plain(plain, 10);
    lemma_trim_keeps_dense(plain);
    lemma_without_absent(plain, '_');
    if text::starts_with(plain, "0x"@) {
        assert(plain[1] == plain.take(2)[1]);
        assert(numbers::digit_value(plain[1]) < 10);
    }
    if text::starts_with(plain, "0X"@) {
        assert(plain[1] == plain.take(2)[1]);
        assert(numbers::digit_value(plain[1]) < 10);
    }
    let digits = numbers::hex(offset);
    let prefixed = "0x"@ + digits;
    lemma_digits_are_plain(digits, 16);
    assert forall|i: int| 0 <= i < prefixed.len() implies !text::is_space(#[trigger] prefixed[i])
        && prefixed[i] != '_' by {
        if i >= 2 {
            assert(prefixed[i] == digits[i - 2]);
        }
    }
    lemma_trim_keeps_dense(prefixed);
    lemma_without_absent(prefixed, '_');
    assert(prefixed.take(2) =~= "0x"@);
    assert(prefixed.skip(2) =~= digits);
}

pub proof fn lemma_digits_are_plain(digits: Seq<char>, base: int)
    requires
        numbers::all_digits(digits, base),
        base <= 16,
    ensures
        forall|i: int|
            0 <= i < digits.len() ==> !text::is_space(#[trigger] digits[i]) && digits[i] != '_',
        !digits.contains('_'),
{
    assert forall|i: int| 0 <= i < digits.len() implies !text::is_space(#[trigger] digits[i])
        && digits[i] != '_' by {
        assert(numbers::digit_value(digits[i]) < base);
    }
}

/// The bytes as two digits each.
pub open spec fn hex_of(bytes: Seq<u8>) -> Seq<char>
    decreases bytes.len(),
{
    if bytes.len() == 0 {
        Seq::empty()
    } else {
        hex_of(bytes.drop_last()) + numbers::byte_hex(bytes.last())
    }
}

/// The bytes as two digits each, without separators.
pub fn hex_string(bytes: &[u8]) -> (out: String)
    ensures
        out@ == hex_of(bytes@),
{
    let mut out = String::new();
    let mut i: usize = 0;
    assert(out@ =~= hex_of(bytes@.take(0)));
    while i < bytes.len()
        invariant
            i <= bytes.len(),
            out@ == hex_of(bytes@.take(i as int)),
        decreases bytes.len() - i,
    {
        assert(bytes@.take(i + 1).drop_last() =~= bytes@.take(i as int));
        out.append(&byte_text(bytes[i]));
        i = i + 1;
    }
    assert(bytes@.take(i as int) =~= bytes@);
    out
}

/// The values of the hexadecimal digits of a text, in order; all else is passed over.
pub open spec fn hex_digits(text: Seq<char>) -> Seq<u8>
    decreases text.len(),
{
    if text.len() == 0 {
        Seq::empty()
    } else {
        let rest = hex_digits(text.drop_last());
        if numbers::is_hex_digit(text.last()) {
            rest.push(numbers::digit_value(text.last()) as u8)
        } else {
            rest
        }
    }
}

/// The bytes that pairs of hexadecimal digits stand for. A last digit without a partner stands
/// for none.
pub open spec fn paired(digits: Seq<u8>) -> Seq<u8> {
    Seq::new(digits.len() / 2, |i: int| (digits[2 * i] * 16 + digits[2 * i + 1]) as u8)
}

/// Reads the bytes that the hexadecimal digits of a text stand for, and whether a digit is left.
pub fn read_hex(text: &str) -> (read: (Vec<u8>, bool))
    ensures
        read.0@ == paired(hex_digits(text@)),
        read.1 == (hex_digits(text@).len() % 2 == 1),
{
    let characters = chars_of(text);
    let mut bytes: Vec<u8> = Vec::new();
    let mut pending: Option<u8> = None;
    let mut i: usize = 0;
    assert(bytes@ =~= paired(hex_digits(text@.take(0))));
    while i < characters.len()
        invariant
            i <= characters.len(),
            characters@ == text@,
            bytes@ == paired(hex_digits(text@.take(i as int))),
            (hex_digits(text@.take(i as int)).len() % 2 == 1) == (pending is Some),
            pending matches Some(high) ==> high < 16 && hex_digits(text@.take(i as int)).last()
                == high,
        decreases characters.len() - i,
    {
        let ghost seen = hex_digits(text@.take(i as int));
        assert(text@.take(i + 1).drop_last() =~= text@.take(i as int));
        let value: u8 = hex_digit_value(characters[i]);
        if value < 16 {
            let ghost more = seen.push(value);
            match pending {
                Some(high) => {
                    bytes.push(high * 16 + value);
                    pending = None;
                    assert(bytes@ =~= paired(more));
                },
                None => {
                    pending = Some(value);
                    assert(bytes@ =~= paired(more));
                },
            }
        }
        i = i + 1;
    }
    assert(text@.take(i as int) =~= text@);
    (bytes, pending.is_some())
}

/// Bytes that are written as digits and read again are the same bytes, with no digit left.
pub proof fn hex_reads_back(bytes: Seq<u8>)
    ensures
        paired(hex_digits(hex_of(bytes))) == bytes,
        hex_digits(hex_of(bytes)).len() == 2 * bytes.len(),
    decreases bytes.len(),
{
    if bytes.len() == 0 {
        assert(paired(hex_digits(hex_of(bytes))) =~= bytes);
    } else {
        let rest = bytes.drop_last();
        hex_reads_back(rest);
        let pair = numbers::byte_hex(bytes.last());
        numbers::lemma_byte_hex_read_back(bytes.last());
        let whole = hex_of(bytes);
        assert(whole.drop_last().drop_last() =~= hex_of(rest));
        assert(whole.drop_last().last() == pair[0]);
        assert(whole.last() == pair[1]);
        let digits = hex_digits(whole);
        assert(hex_digits(whole.drop_last()) == hex_digits(hex_of(rest)).push(
            numbers::digit_value(pair[0]) as u8,
        ));
        assert(digits =~= hex_digits(hex_of(rest)).push(numbers::digit_value(pair[0]) as u8).push(
            numbers::digit_value(pair[1]) as u8,
        ));
        assert forall|i: int| 0 <= i < bytes.len() implies paired(digits)[i] == bytes[i] by {
            if i < rest.len() {
                assert(paired(hex_digits(hex_of(rest)))[i] == rest[i]);
            }
        }
        assert(paired(digits) =~= bytes);
    }
}

/// One step of a 64-bit FNV-1a hash.
pub open spec fn fnv_step(hash: u64, value: u64) -> u64 {
    vstd::wrapping::u64_specs::wrapping_mul(hash ^ value, 0x0000_0100_0000_01b3)
}

/// The 64-bit FNV-1a hash of the bytes, each increased by `offset`, from the state `seed`.
pub open spec fn fnv(bytes: Seq<u8>, seed: u64, offset: u64) -> u64
    decreases bytes.len(),
{
    if bytes.len() == 0 {
        seed
    } else {
        fnv_step(fnv(bytes.drop_last(), seed, offset), (bytes.last() + offset) as u64)
    }
}

/// The name that stands for the contents of a file: its length and two hashes of its bytes.
pub open spec fn identity_of(bytes: Seq<u8>) -> Seq<char> {
    numbers::hex_padded(bytes.len(), 16) + numbers::hex_padded(
        fnv(bytes, 0xcbf2_9ce4_8422_2325, 0) as nat,
        16,
    ) + numbers::hex_padded(fnv(bytes, 0x55c5_e55d_fb68_5f30, 0x9d) as nat, 16)
}

/// The name that stands for the contents of a file.
pub fn content_identity(bytes: &[u8]) -> (name: String)
    ensures
        name@ == identity_of(bytes@),
{
    let mut first: u64 = 0xcbf2_9ce4_8422_2325;
    let mut second: u64 = 0x55c5_e55d_fb68_5f30;
    let mut i: usize = 0;
    while i < bytes.len()
        invariant
            i <= bytes.len(),
            first == fnv(bytes@.take(i as int), 0xcbf2_9ce4_8422_2325, 0),
            second == fnv(bytes@.take(i as int), 0x55c5_e55d_fb68_5f30, 0x9d),
        decreases bytes.len() - i,
    {
        assert(bytes@.take(i + 1).drop_last() =~= bytes@.take(i as int));
        let byte: u64 = bytes[i] as u64;
        first = (first ^ byte).wrapping_mul(0x0000_0100_0000_01b3);
        second = (second ^ (byte + 0x9d)).wrapping_mul(0x0000_0100_0000_01b3);
        i = i + 1;
    }
    assert(bytes@.take(i as int) =~= bytes@);
    let mut name = hex_padded_text(bytes.len() as u64, 16);
    name.append(&hex_padded_text(first, 16));
    name.append(&hex_padded_text(second, 16));
    name
}

/// Multiplying by the prime of the hash loses nothing: it has an inverse among 64-bit numbers.
proof fn lemma_prime_multiplication(x: u64, y: u64)
    requires
        vstd::wrapping::u64_specs::wrapping_mul(x, 0x0000_0100_0000_01b3)
            == vstd::wrapping::u64_specs::wrapping_mul(y, 0x0000_0100_0000_01b3),
    ensures
        x == y,
{
    let p: int = 0x0000_0100_0000_01b3;
    let m: int = 0x1_0000_0000_0000_0000;
    let q: int = 14886173955864302971;
    let k: int = 887285111055;
    assert(p * q == 1 + k * m);
    let d = x - y;
    let xp = x as int * p;
    let yp = y as int * p;
    assert(xp % m == yp % m);
    vstd::arithmetic::div_mod::lemma_fundamental_div_mod(xp, m);
    vstd::arithmetic::div_mod::lemma_fundamental_div_mod(yp, m);
    let c = xp / m - yp / m;
    assert(d * p == c * m) by (nonlinear_arith)
        requires
            d == x - y,
            xp == x as int * p,
            yp == y as int * p,
            xp == m * (xp / m) + xp % m,
            yp == m * (yp / m) + yp % m,
            xp % m == yp % m,
            c == xp / m - yp / m,
    ;
    let e = c * q - d * k;
    assert(d == m * e) by (nonlinear_arith)
        requires
            d * p == c * m,
            p * q == 1 + k * m,
            e == c * q - d * k,
    {
        assert((d * p) * q == (c * m) * q);
        assert((d * p) * q == d * (p * q));
        assert(d * (1 + k * m) == d + (d * k) * m);
        assert((c * m) * q == (c * q) * m);
    }
    assert(e == 0) by (nonlinear_arith)
        requires
            d == m * e,
            m == 0x1_0000_0000_0000_0000,
            -m < d < m,
    ;
}

/// A step of the hash tells different states apart, and different values.
proof fn lemma_fnv_step(a: u64, b: u64, v: u64, w: u64)
    ensures
        a != b ==> fnv_step(a, v) != fnv_step(b, v),
        v != w ==> fnv_step(a, v) != fnv_step(a, w),
{
    if fnv_step(a, v) == fnv_step(b, v) {
        lemma_prime_multiplication(a ^ v, b ^ v);
        assert(a ^ v == b ^ v ==> a == b) by (bit_vector);
    }
    if fnv_step(a, v) == fnv_step(a, w) {
        lemma_prime_multiplication(a ^ v, a ^ w);
        assert(a ^ v == a ^ w ==> v == w) by (bit_vector);
    }
}

proof fn lemma_fnv_differs(a: Seq<u8>, b: Seq<u8>, at: int, seed: u64, offset: u64)
    requires
        a.len() == b.len(),
        0 <= at < a.len(),
        a[at] != b[at],
        forall|i: int| 0 <= i < a.len() && i != at ==> a[i] == b[i],
        offset < 256,
    ensures
        fnv(a, seed, offset) != fnv(b, seed, offset),
    decreases a.len(),
{
    let x = a.drop_last();
    let y = b.drop_last();
    let hash = fnv(x, seed, offset);
    let other = fnv(y, seed, offset);
    let v = (a.last() + offset) as u64;
    let w = (b.last() + offset) as u64;
    if at == a.len() - 1 {
        assert(x =~= y);
        lemma_fnv_step(hash, hash, v, w);
    } else {
        assert forall|i: int| 0 <= i < x.len() && i != at implies x[i] == y[i] by {
            assert(x[i] == a[i] && y[i] == b[i]);
        }
        lemma_fnv_differs(x, y, at, seed, offset);
        assert(a.last() == b.last());
        lemma_fnv_step(hash, other, v, v);
    }
}

/// Equally long contents that differ in one byte have different names.
pub proof fn one_changed_byte_changes_the_identity(a: Seq<u8>, b: Seq<u8>, at: int)
    requires
        a.len() == b.len(),
        0 <= at < a.len(),
        a[at] != b[at],
        forall|i: int| 0 <= i < a.len() && i != at ==> a[i] == b[i],
    ensures
        identity_of(a) != identity_of(b),
{
    let seed: u64 = 0xcbf2_9ce4_8422_2325;
    lemma_fnv_differs(a, b, at, seed, 0);
    numbers::lemma_hex_padded_tells_apart(fnv(a, seed, 0) as nat, fnv(b, seed, 0) as nat);
    lemma_identity_parts(a);
    lemma_identity_parts(b);
}

/// Where the first hash stands in a name.
proof fn lemma_identity_parts(bytes: Seq<u8>)
    ensures
        identity_of(bytes).subrange(16, 32) == numbers::hex_padded(
            fnv(bytes, 0xcbf2_9ce4_8422_2325, 0) as nat,
            16,
        ),
{
    let first = fnv(bytes, 0xcbf2_9ce4_8422_2325, 0) as nat;
    let second = fnv(bytes, 0x55c5_e55d_fb68_5f30, 0x9d) as nat;
    numbers::lemma_hex_padded(bytes.len(), 16);
    numbers::lemma_hex_padded(first, 16);
    numbers::lemma_hex_padded(second, 16);
    let x = numbers::hex_padded(bytes.len(), 16);
    let y = numbers::hex_padded(first, 16);
    let z = numbers::hex_padded(second, 16);
    assert(identity_of(bytes) == x + y + z);
    assert((x + y + z).subrange(16, 32) =~= y);
}

/// Contents of different lengths have different names.
pub proof fn other_lengths_have_other_identities(a: Seq<u8>, b: Seq<u8>)
    requires
        a.len() <= usize::MAX,
        b.len() <= usize::MAX,
        a.len() != b.len(),
    ensures
        identity_of(a) != identity_of(b),
{
    identities_have_one_form(a);
    identities_have_one_form(b);
    numbers::lemma_hex_padded_tells_apart(a.len(), b.len());
}

/// A name of contents is made of 48 lower-case hexadecimal digits, and starts with sixteen for
/// the length.
pub proof fn identities_have_one_form(bytes: Seq<u8>)
    ensures
        identity_of(bytes).len() == 48,
        identity_of(bytes).take(16) == numbers::hex_padded(bytes.len(), 16),
        forall|i: int|
            0 <= i < 48 ==> numbers::is_lower_hex_digit(#[trigger] identity_of(bytes)[i]),
{
    let first = numbers::hex_padded(fnv(bytes, 0xcbf2_9ce4_8422_2325, 0) as nat, 16);
    let second = numbers::hex_padded(fnv(bytes, 0x55c5_e55d_fb68_5f30, 0x9d) as nat, 16);
    let length = numbers::hex_padded(bytes.len(), 16);
    numbers::lemma_hex_padded(bytes.len(), 16);
    numbers::lemma_hex_padded(fnv(bytes, 0xcbf2_9ce4_8422_2325, 0) as nat, 16);
    numbers::lemma_hex_padded(fnv(bytes, 0x55c5_e55d_fb68_5f30, 0x9d) as nat, 16);
    let name = identity_of(bytes);
    assert(name.take(16) =~= length);
    assert forall|i: int| 0 <= i < 48 implies numbers::is_lower_hex_digit(#[trigger] name[i]) by {
        if i < 16 {
            assert(name[i] == length[i]);
        } else if i < 32 {
            assert(name[i] == first[i - 16]);
        } else {
            assert(name[i] == second[i - 32]);
        }
    }
}

/// Whether a character can stand in a file name as it is.
pub open spec fn is_plain(c: char) -> bool {
    ('0' <= c <= '9') || ('A' <= c <= 'Z') || ('a' <= c <= 'z') || c == '-' || c == '_'
}

/// `name` with an underscore in place of every character that is not plain; `custom` for the
/// empty name.
pub open spec fn plain_name(name: Seq<char>) -> Seq<char> {
    if name.len() == 0 {
        "custom"@
    } else {
        Seq::new(
            name.len(),
            |i: int|
                if is_plain(name[i]) {
                    name[i]
                } else {
                    '_'
                },
        )
    }
}

/// `name` in a form that can stand in a file name.
pub fn safe_name(name: &str) -> (out: String)
    ensures
        out@ == plain_name(name@),
{
    let characters = chars_of(name);
    if characters.len() == 0 {
        return "custom".to_owned();
    }
    let mut out: Vec<char> = Vec::new();
    let mut i: usize = 0;
    while i < characters.len()
        invariant
            i <= characters.len(),
            characters@ == name@,
            out@.len() == i,
            forall|k: int|
                0 <= k < i ==> #[trigger] out@[k] == if is_plain(name@[k]) {
                    name@[k]
                } else {
                    '_'
                },
        decreases characters.len() - i,
    {
        let c = characters[i];
        if ('0' <= c && c <= '9') || ('A' <= c && c <= 'Z') || ('a' <= c && c <= 'z') || c == '-'
            || c == '_' {
            out.push(c);
        } else {
            out.push('_');
        }
        i = i + 1;
    }
    let length: usize = out.len();
    let safe = string_of(&out, 0, length);
    assert(safe@ =~= plain_name(name@));
    safe
}

/// Whether a character separates the components of a path: a slash, or the separator of the
/// system.
pub open spec fn splits_path(c: char, separator: char) -> bool {
    c == '/' || c == separator
}

/// The last component of a path: what follows its last separator.
pub open spec fn last_component(path: Seq<char>, separator: char) -> Seq<char>
    decreases path.len(),
{
    if path.len() == 0 || splits_path(path.last(), separator) {
        Seq::empty()
    } else {
        last_component(path.drop_last(), separator).push(path.last())
    }
}

/// The last component of a path.
pub fn file_name(path: &str, separator: char) -> (name: String)
    ensures
        name@ == last_component(path@, separator),
{
    let chars = chars_of(path);
    let mut name = String::new();
    assert(name@ =~= last_component(chars@.take(0), separator));
    let mut i: usize = 0;
    while i < chars.len()
        invariant
            i <= chars.len(),
            name@ == last_component(chars@.take(i as int), separator),
        decreases chars.len() - i,
    {
        assert(chars@.take(i + 1).drop_last() =~= chars@.take(i as int));
        let c = chars[i];
        if c == '/' || c == separator {
            name = String::new();
            assert(name@ =~= Seq::<char>::empty());
        } else {
            name.push(c);
        }
        i = i + 1;
    }
    assert(chars@.take(i as int) =~= chars@);
    name
}

/// The name that is suggested for an overlay of the file at a path.
pub open spec fn overlay_name_of(path: Seq<char>, separator: char) -> Seq<char> {
    last_component(path, separator) + ".rexedit-overlay.json"@
}

/// The name that is suggested for an overlay of the file at a path.
pub fn overlay_name(path: &str, separator: char) -> (name: String)
    ensures
        name@ == overlay_name_of(path@, separator),
{
    let mut name = file_name(path, separator);
    name.append(".rexedit-overlay.json");
    name
}

/// The path of a file with a name in a directory.
pub open spec fn joined(directory: Seq<char>, name: Seq<char>, separator: char) -> Seq<char> {
    if directory.len() == 0 || splits_path(directory.last(), separator) {
        directory + name
    } else {
        directory.push(separator) + name
    }
}

/// The path of a file with a name in a directory.
pub fn join_path(directory: String, name: &str, separator: char) -> (path: String)
    ensures
        path@ == joined(directory@, name@, separator),
{
    let characters = chars_of(&directory);
    let mut path = directory;
    if characters.len() > 0 {
        let last = characters[characters.len() - 1];
        if last != '/' && last != separator {
            path.push(separator);
        }
    }
    path.append(name);
    path
}

/// The last component of a path holds no separator, and the path ends with it.
pub proof fn last_component_ends_the_path(path: Seq<char>, separator: char)
    ensures
        ({
            let name = last_component(path, separator);
            &&& name.len() <= path.len()
            &&& path.skip(path.len() - name.len()) == name
            &&& forall|i: int| 0 <= i < name.len() ==> !splits_path(#[trigger] name[i], separator)
            &&& name.len() < path.len() ==> splits_path(
                path[path.len() - name.len() - 1],
                separator,
            )
        }),
    decreases path.len(),
{
    if path.len() == 0 || splits_path(path.last(), separator) {
        assert(path.skip(path.len() as int) =~= Seq::<char>::empty());
    } else {
        last_component_ends_the_path(path.drop_last(), separator);
        let name = last_component(path, separator);
        assert(path.skip(path.len() - name.len()) =~= name);
    }
}

/// A name made plain is plain throughout, and making it plain again changes nothing.
pub proof fn plain_names_stay(name: Seq<char>)
    ensures
        plain_name(name).len() > 0,
        forall|i: int| 0 <= i < plain_name(name).len() ==> is_plain(#[trigger] plain_name(name)[i]),
        plain_name(plain_name(name)) == plain_name(name),
{
    reveal_strlit("custom");
    assert(plain_name(plain_name(name)) =~= plain_name(name));
}

proof fn lemma_without_is_filter(line: Seq<char>, dropped: char)
    ensures
        without(line, dropped) == line.filter(|c: char| c != dropped),
    decreases line.len(),
{
    reveal(Seq::filter);
    if line.len() > 0 {
        lemma_without_is_filter(line.drop_last(), dropped);
    } else {
        assert(without(line, dropped) =~= line.filter(|c: char| c != dropped));
    }
}

/// An offset is read from its decimal digits, and from its hexadecimal ones of either case after
/// `0x` or `0X`, with spaces around them and with underscores anywhere. One that no file can have is
/// refused.
pub proof fn offsets_are_read_as_written(input: Seq<char>, offset: nat, upper: bool)
    ensures
        ({
            let digits = text::trim(input).filter(|c: char| c != '_');
            let hex = numbers::numeral(offset, 16, upper);
            digits == numbers::decimal(offset) || digits == "0x"@ + hex || digits == "0X"@ + hex
                ==> {
                &&& offset <= usize::MAX ==> offset_of(input) == Ok::<int, Seq<char>>(offset as int)
                &&& offset > usize::MAX ==> offset_of(input) is Err
            }
        }),
        text::trim(input).filter(|c: char| c != '_').len() == 0 ==> offset_of(input) is Err,
{
    lemma_without_is_filter(text::trim(input), '_');
    reveal_strlit("0x");
    reveal_strlit("0X");
    let digits = without(text::trim(input), '_');
    let decimal = numbers::decimal(offset);
    let hex = numbers::numeral(offset, 16, upper);
    numbers::lemma_numeral_read_back(offset, 10, true);
    numbers::lemma_numeral_read_back(offset, 16, upper);
    if digits == decimal {
        if digits.len() >= 2 {
            assert(numbers::digit_value(digits[1]) < 10);
            assert(digits.take(2)[1] == digits[1]);
        }
    } else if digits == "0x"@ + hex {
        assert(digits.take(2) =~= "0x"@);
        assert(digits.skip(2) =~= hex);
    } else if digits == "0X"@ + hex {
        assert(digits.take(2) =~= "0X"@);
        assert(digits.skip(2) =~= hex);
    }
}

/// A name that is made plain keeps its length and all its letters, digits, hyphens, and underscores
/// where they are, and has an underscore in place of everything else.
pub proof fn plain_characters_stay(name: Seq<char>, i: int)
    requires
        0 <= i < name.len(),
    ensures
        plain_name(name).len() == name.len(),
        plain_name(name)[i] == if ('0' <= name[i] <= '9') || ('A' <= name[i] <= 'Z') || ('a'
            <= name[i] <= 'z') || name[i] == '-' || name[i] == '_' {
            name[i]
        } else {
            '_'
        },
{
}

/// Whether a character is a hexadecimal digit.
pub open spec fn is_digit_character(c: char) -> bool {
    ('0' <= c <= '9') || ('A' <= c <= 'F') || ('a' <= c <= 'f')
}

proof fn lemma_digit_character(c: char)
    ensures
        numbers::is_hex_digit(c) == is_digit_character(c),
{
    let u = c as u32;
    assert(48 <= u <= 57 <==> '0' <= c <= '9');
    assert(65 <= u <= 70 <==> 'A' <= c <= 'F');
    assert(97 <= u <= 102 <==> 'a' <= c <= 'f');
}

proof fn lemma_digits_are_filtered(content: Seq<char>)
    ensures
        hex_digits(content) == content.filter(|c: char| is_digit_character(c)).map_values(
            |c: char| numbers::digit_value(c) as u8,
        ),
    decreases content.len(),
{
    reveal(Seq::filter);
    let stays = |c: char| is_digit_character(c);
    let value = |c: char| numbers::digit_value(c) as u8;
    if content.len() > 0 {
        let rest = content.drop_last();
        lemma_digits_are_filtered(rest);
        lemma_digit_character(content.last());
        assert(content.filter(stays).map_values(value) =~= if stays(content.last()) {
            rest.filter(stays).map_values(value).push(value(content.last()))
        } else {
            rest.filter(stays).map_values(value)
        });
    } else {
        assert(content.filter(stays).map_values(value) =~= hex_digits(content));
    }
}

/// Pasted text stands for the bytes whose digits it holds, in either case and whatever stands
/// between them; a last digit without a partner does not count.
pub proof fn pasted_digits_read_back(content: Seq<char>, bytes: Seq<u8>, upper: bool)
    requires
        ({
            let digits = content.filter(|c: char| is_digit_character(c));
            let written = crate::search::compact_hex(bytes, upper);
            digits == written || (digits.len() == written.len() + 1 && digits.drop_last() == written)
        }),
    ensures
        paired(hex_digits(content)) == bytes,
{
    let digits = content.filter(|c: char| is_digit_character(c));
    let written = crate::search::compact_hex(bytes, upper);
    lemma_digits_are_filtered(content);
    lemma_compact_values(bytes, upper);
    let values = hex_digits(content);
    assert(values.len() == digits.len());
    assert forall|i: int| 0 <= i < bytes.len() implies paired(values)[i] == bytes[i] by {
        assert(values[2 * i] == numbers::digit_value(digits[2 * i]) as u8);
        assert(values[2 * i + 1] == numbers::digit_value(digits[2 * i + 1]) as u8);
        assert(digits[2 * i] == written[2 * i] && digits[2 * i + 1] == written[2 * i + 1]);
        assert(bytes[i] == bytes[i]);
    }
    assert(paired(values) =~= bytes);
}

proof fn lemma_compact_values(bytes: Seq<u8>, upper: bool)
    ensures
        ({
            let written = crate::search::compact_hex(bytes, upper);
            &&& written.len() == 2 * bytes.len()
            &&& forall|i: int|
                0 <= i < bytes.len() ==> numbers::digit_value(written[2 * i]) == (
                #[trigger] bytes[i]) as int / 16 && numbers::digit_value(written[2 * i + 1])
                    == bytes[i] as int % 16
        }),
    decreases bytes.len(),
{
    if bytes.len() > 0 {
        let rest = bytes.drop_last();
        let head = crate::search::compact_hex(rest, upper);
        let whole = crate::search::compact_hex(bytes, upper);
        let last = bytes.last();
        lemma_compact_values(rest, upper);
        numbers::lemma_digit_read_back(last as int / 16, upper);
        numbers::lemma_digit_read_back(last as int % 16, upper);
        assert forall|i: int| 0 <= i < bytes.len() implies numbers::digit_value(whole[2 * i]) == (
        #[trigger] bytes[i]) as int / 16 && numbers::digit_value(whole[2 * i + 1]) == bytes[i] as int
            % 16 by {
            if i < rest.len() {
                assert(bytes[i] == rest[i]);
                assert(whole[2 * i] == head[2 * i] && whole[2 * i + 1] == head[2 * i + 1]);
            }
        }
    }
}

/// Copied bytes are two digits each, in upper case, with nothing between them.
pub proof fn copied_digits_are_in_upper_case(bytes: Seq<u8>)
    ensures
        hex_of(bytes).len() == 2 * bytes.len(),
        forall|i: int|
            0 <= i < hex_of(bytes).len() ==> ('0' <= #[trigger] hex_of(bytes)[i] <= '9') || ('A'
                <= hex_of(bytes)[i] <= 'F'),
    decreases bytes.len(),
{
    if bytes.len() > 0 {
        copied_digits_are_in_upper_case(bytes.drop_last());
        let head = hex_of(bytes.drop_last());
        let pair = numbers::byte_hex(bytes.last());
        assert forall|i: int| 0 <= i < hex_of(bytes).len() implies ('0' <= #[trigger] hex_of(
            bytes,
        )[i] <= '9') || ('A' <= hex_of(bytes)[i] <= 'F') by {
            if i < head.len() {
                assert(hex_of(bytes)[i] == head[i]);
            } else {
                assert(hex_of(bytes)[i] == pair[i - head.len()]);
            }
        }
    }
}

/// The path of a file in a directory starts with the directory and ends with the name, with one
/// separator between them, and the name is its last component.
pub proof fn joined_paths_come_apart(directory: Seq<char>, name: Seq<char>, separator: char)
    requires
        forall|i: int| 0 <= i < name.len() ==> !splits_path(#[trigger] name[i], separator),
    ensures
        ({
            let path = joined(directory, name, separator);
            let gap = path.len() - directory.len() - name.len();
            &&& path.take(directory.len() as int) == directory
            &&& path.skip(path.len() - name.len()) == name
            &&& gap == 0 || (gap == 1 && path[directory.len() as int] == separator)
            &&& gap == 0 <==> (directory.len() == 0 || directory.last() == '/' || directory.last()
                == separator)
            &&& last_component(path, separator) == name
        }),
{
    let path = joined(directory, name, separator);
    let gap = path.len() - directory.len() - name.len();
    assert(path.take(directory.len() as int) =~= directory);
    assert(path.skip(path.len() - name.len()) =~= name);
    let head = path.take(path.len() - name.len());
    assert(path =~= head + name);
    if head.len() > 0 {
        assert(head.last() == path[head.len() - 1]);
        if gap == 0 {
            assert(path[head.len() - 1] == directory.last());
        }
    }
    lemma_last_component_of(head, name, separator);
}

proof fn lemma_last_component_of(head: Seq<char>, name: Seq<char>, separator: char)
    requires
        head.len() > 0 ==> splits_path(head.last(), separator),
        forall|i: int| 0 <= i < name.len() ==> !splits_path(#[trigger] name[i], separator),
    ensures
        last_component(head + name, separator) == name,
    decreases name.len(),
{
    let path = head + name;
    if name.len() == 0 {
        assert(path =~= head);
        assert(last_component(path, separator) =~= name);
    } else {
        let shorter = name.drop_last();
        assert forall|i: int| 0 <= i < shorter.len() implies !splits_path(
            #[trigger] shorter[i],
            separator,
        ) by {
            assert(shorter[i] == name[i]);
        }
        lemma_last_component_of(head, shorter, separator);
        assert(path.drop_last() =~= head + shorter);
        assert(path.last() == name[name.len() - 1]);
        assert(shorter.push(name.last()) =~= name);
    }
}

} // verus!
