//! Text as sequences of characters: trimming, splitting, joining, and the
//! textual form of numbers.

use vstd::prelude::*;

verus! {

/// `String::push` of the standard library appends one character.
pub assume_specification[ String::push ](receiver: &mut String, character: char)
    ensures
        final(receiver)@ == old(receiver)@.push(character),
;

/// The views of the elements of a sequence.
#[verifier::opaque]
pub open spec fn views<T: View>(items: Seq<T>) -> Seq<T::V> {
    Seq::new(items.len(), |i: int| items[i]@)
}

pub broadcast proof fn lemma_views_push<T: View>(items: Seq<T>, item: T)
    ensures
        #[trigger] views(items.push(item)) == views(items).push(item@),
{
    reveal(views);
    assert(views(items.push(item)) =~= views(items).push(item@));
}

pub broadcast proof fn lemma_views_update<T: View>(items: Seq<T>, index: int, item: T)
    requires
        0 <= index < items.len(),
    ensures
        #[trigger] views(items.update(index, item)) == views(items).update(index, item@),
{
    reveal(views);
    assert(views(items.update(index, item)) =~= views(items).update(index, item@));
}

pub broadcast proof fn lemma_views_remove<T: View>(items: Seq<T>, index: int)
    requires
        0 <= index < items.len(),
    ensures
        #[trigger] views(items.remove(index)) == views(items).remove(index),
{
    reveal(views);
    assert(views(items.remove(index)) =~= views(items).remove(index));
}

pub broadcast proof fn lemma_views_subrange<T: View>(items: Seq<T>, from: int, to: int)
    requires
        0 <= from <= to <= items.len(),
    ensures
        #[trigger] views(items.subrange(from, to)) == views(items).subrange(from, to),
{
    reveal(views);
    assert(views(items.subrange(from, to)) =~= views(items).subrange(from, to));
}

pub broadcast proof fn lemma_views_concat<T: View>(left: Seq<T>, right: Seq<T>)
    ensures
        #[trigger] views(left + right) == views(left) + views(right),
{
    reveal(views);
    assert(views(left + right) =~= views(left) + views(right));
}

pub broadcast proof fn lemma_views_empty<T: View>(items: Seq<T>)
    requires
        items.len() == 0,
    ensures
        #[trigger] views(items) == Seq::<T::V>::empty(),
{
    reveal(views);
    assert(views(items) =~= Seq::<T::V>::empty());
}

pub broadcast proof fn lemma_views_len<T: View>(items: Seq<T>)
    ensures
        #[trigger] views(items).len() == items.len(),
{
    reveal(views);
}

pub broadcast proof fn lemma_views_index<T: View>(items: Seq<T>, i: int)
    requires
        0 <= i < items.len(),
    ensures
        #[trigger] views(items)[i] == items[i]@,
{
    reveal(views);
}

pub broadcast group group_views {
    lemma_views_len,
    lemma_views_index,
    lemma_views_push,
    lemma_views_update,
    lemma_views_remove,
    lemma_views_subrange,
    lemma_views_concat,
    lemma_views_empty,
}

/// The characters of `text`, one per element.
pub fn chars_of(text: &str) -> (chars: Vec<char>)
    ensures
        chars@ == text@,
{
    let mut chars: Vec<char> = Vec::new();
    for c in it: text.chars()
        invariant
            chars@ == it.seq().take(it.index() as int),
            it.seq() == text@,
    {
        chars.push(c);
    }
    chars
}

/// The text made of the characters `chars[from..to]`.
pub fn string_of(chars: &Vec<char>, from: usize, to: usize) -> (text: String)
    requires
        from <= to <= chars.len(),
    ensures
        text@ == chars@.subrange(from as int, to as int),
{
    let mut text = String::new();
    let mut i: usize = from;
    while i < to
        invariant
            from <= i <= to <= chars.len(),
            text@ == chars@.subrange(from as int, i as int),
        decreases to - i,
    {
        text.push(chars[i]);
        i = i + 1;
    }
    text
}

/// Whether two texts hold the same characters.
pub fn same_text(left: &str, right: &str) -> (same: bool)
    ensures
        same == (left@ == right@),
{
    let l = chars_of(left);
    let r = chars_of(right);
    if l.len() != r.len() {
        return false;
    }
    let mut i: usize = 0;
    while i < l.len()
        invariant
            l@ == left@,
            r@ == right@,
            i <= l.len() == r.len(),
            forall|j: int| 0 <= j < i ==> l@[j] == r@[j],
        decreases l.len() - i,
    {
        if l[i] != r[i] {
            return false;
        }
        i = i + 1;
    }
    assert(left@ =~= right@);
    true
}

/// Texts with the same characters.
pub fn copy_texts(texts: &Vec<String>) -> (out: Vec<String>)
    ensures
        views(out@) == views(texts@),
{
    broadcast use group_views;

    let mut out: Vec<String> = Vec::new();
    let mut i: usize = 0;
    while i < texts.len()
        invariant
            i <= texts.len(),
            out@.len() == i,
            forall|k: int| 0 <= k < i ==> (#[trigger] out@[k])@ == texts@[k]@,
        decreases texts.len() - i,
    {
        out.push(texts[i].clone());
        i = i + 1;
    }
    assert(views(out@) =~= views(texts@));
    out
}

// ---------------------------------------------------------------------------
// White space
// ---------------------------------------------------------------------------

/// The characters with the Unicode property `White_Space`.
pub open spec fn is_space(c: char) -> bool {
    let u = c as u32;
    ||| 0x09 <= u <= 0x0D
    ||| u == 0x20
    ||| u == 0x85
    ||| u == 0xA0
    ||| u == 0x1680
    ||| 0x2000 <= u <= 0x200A
    ||| u == 0x2028
    ||| u == 0x2029
    ||| u == 0x202F
    ||| u == 0x205F
    ||| u == 0x3000
}

/// Whether `c` has the Unicode property `White_Space`.
pub fn is_whitespace(c: char) -> (space: bool)
    ensures
        space == is_space(c),
{
    let u: u32 = c as u32;
    (0x09 <= u && u <= 0x0D) || u == 0x20 || u == 0x85 || u == 0xA0 || u == 0x1680 || (0x2000 <= u
        && u <= 0x200A) || u == 0x2028 || u == 0x2029 || u == 0x202F || u == 0x205F || u == 0x3000
}

/// `text` without its leading white space.
pub open spec fn trim_start(text: Seq<char>) -> Seq<char>
    decreases text.len(),
{
    if text.len() > 0 && is_space(text[0]) {
        trim_start(text.drop_first())
    } else {
        text
    }
}

/// `text` without its trailing white space.
pub open spec fn trim_end(text: Seq<char>) -> Seq<char>
    decreases text.len(),
{
    if text.len() > 0 && is_space(text.last()) {
        trim_end(text.drop_last())
    } else {
        text
    }
}

/// `text` without its leading and trailing white space.
pub open spec fn trim(text: Seq<char>) -> Seq<char> {
    trim_end(trim_start(text))
}

/// The text without its leading and trailing white space.
pub fn trimmed(text: &str) -> (out: String)
    ensures
        out@ == trim(text@),
{
    let chars = chars_of(text);
    let mut from: usize = 0;
    assert(chars@.skip(0) =~= chars@);
    while from < chars.len() && is_whitespace(chars[from])
        invariant
            from <= chars.len(),
            chars@ == text@,
            trim_start(text@) == trim_start(chars@.skip(from as int)),
        decreases chars.len() - from,
    {
        assert(chars@.skip(from as int).drop_first() =~= chars@.skip(from + 1));
        from = from + 1;
    }
    let ghost body = chars@.skip(from as int);
    let mut to: usize = chars.len();
    assert(chars@.subrange(from as int, to as int) =~= body);
    while from < to && is_whitespace(chars[to - 1])
        invariant
            from <= to <= chars.len(),
            trim_end(body) == trim_end(chars@.subrange(from as int, to as int)),
        decreases to,
    {
        assert(chars@.subrange(from as int, to as int).drop_last() =~= chars@.subrange(
            from as int,
            to - 1,
        ));
        to = to - 1;
    }
    string_of(&chars, from, to)
}

/// The text without its trailing white space.
pub fn trimmed_end(text: &str) -> (out: String)
    ensures
        out@ == trim_end(text@),
{
    let chars = chars_of(text);
    let mut to: usize = chars.len();
    assert(chars@.subrange(0, to as int) =~= chars@);
    while 0 < to && is_whitespace(chars[to - 1])
        invariant
            to <= chars.len(),
            trim_end(text@) == trim_end(chars@.subrange(0, to as int)),
        decreases to,
    {
        assert(chars@.subrange(0, to as int).drop_last() =~= chars@.subrange(0, to - 1));
        to = to - 1;
    }
    string_of(&chars, 0, to)
}

// ---------------------------------------------------------------------------
// Prefixes, splitting and joining
// ---------------------------------------------------------------------------

/// Whether `text` begins with `prefix`.
pub open spec fn starts_with(text: Seq<char>, prefix: Seq<char>) -> bool {
    prefix.len() <= text.len() && text.take(prefix.len() as int) == prefix
}

/// What follows `prefix` in a text that begins with it.
pub fn strip_prefix(text: &str, prefix: &str) -> (rest: Option<String>)
    ensures
        rest is Some <==> starts_with(text@, prefix@),
        rest matches Some(r) ==> r@ == text@.skip(prefix@.len() as int),
{
    let t = chars_of(text);
    let p = chars_of(prefix);
    if p.len() > t.len() {
        return None;
    }
    let mut i: usize = 0;
    while i < p.len()
        invariant
            t@ == text@,
            p@ == prefix@,
            i <= p.len() <= t.len(),
            forall|j: int| 0 <= j < i ==> t@[j] == p@[j],
        decreases p.len() - i,
    {
        if t[i] != p[i] {
            assert(text@.take(prefix@.len() as int)[i as int] == t@[i as int]);
            return None;
        }
        i = i + 1;
    }
    assert(text@.take(prefix@.len() as int) =~= prefix@);
    let rest = string_of(&t, p.len(), t.len());
    assert(rest@ =~= text@.skip(prefix@.len() as int));
    Some(rest)
}

/// The pieces of `text` between occurrences of `separator`; always at least one.
pub open spec fn split(text: Seq<char>, separator: char) -> Seq<Seq<char>>
    decreases text.len(),
{
    if text.len() == 0 {
        seq![Seq::<char>::empty()]
    } else {
        let before = split(text.drop_last(), separator);
        if text.last() == separator {
            before.push(Seq::<char>::empty())
        } else {
            before.update(before.len() - 1, before.last().push(text.last()))
        }
    }
}

pub proof fn lemma_split_nonempty(text: Seq<char>, separator: char)
    ensures
        split(text, separator).len() >= 1,
    decreases text.len(),
{
    if text.len() > 0 {
        lemma_split_nonempty(text.drop_last(), separator);
    }
}

/// The pieces of `text` between occurrences of `separator`.
pub fn split_text(text: &str, separator: char) -> (pieces: Vec<String>)
    ensures
        views(pieces@) == split(text@, separator),
        pieces.len() >= 1,
{
    broadcast use group_views;

    let chars = chars_of(text);
    let mut pieces: Vec<String> = Vec::new();
    let mut piece = String::new();
    let mut i: usize = 0;
    assert(views(pieces@).push(piece@) =~= split(chars@.take(0), separator));
    while i < chars.len()
        invariant
            i <= chars.len(),
            chars@ == text@,
            views(pieces@).push(piece@) == split(chars@.take(i as int), separator),
        decreases chars.len() - i,
    {
        broadcast use group_views;

        let c = chars[i];
        let ghost before = split(chars@.take(i as int), separator);
        assert(chars@.take(i + 1).drop_last() =~= chars@.take(i as int));
        assert(before.last() == piece@);
        assert(before.drop_last() =~= views(pieces@));
        if c == separator {
            pieces.push(piece);
            piece = String::new();
            assert(views(pieces@).push(piece@) =~= before.push(Seq::<char>::empty()));
        } else {
            piece.push(c);
            assert(views(pieces@).push(piece@) =~= before.update(
                before.len() - 1,
                before.last().push(c),
            ));
        }
        i = i + 1;
    }
    assert(chars@.take(chars.len() as int) =~= text@);
    pieces.push(piece);
    pieces
}

/// The texts in `parts`, one after another, with `separator` between neighbours.
pub open spec fn join(parts: Seq<Seq<char>>, separator: char) -> Seq<char>
    decreases parts.len(),
{
    if parts.len() == 0 {
        Seq::<char>::empty()
    } else if parts.len() == 1 {
        parts[0]
    } else {
        join(parts.drop_last(), separator).push(separator) + parts.last()
    }
}

/// The texts in `parts`, one after another, with `separator` between neighbours.
pub fn join_text(parts: &Vec<String>, separator: char) -> (out: String)
    ensures
        out@ == join(views(parts@), separator),
{
    broadcast use group_views;

    let mut out = String::new();
    let mut i: usize = 0;
    while i < parts.len()
        invariant
            i <= parts.len(),
            out@ == join(views(parts@).take(i as int), separator),
        decreases parts.len() - i,
    {
        broadcast use group_views;

        let ghost done = views(parts@).take(i as int);
        let ghost next = views(parts@).take(i + 1);
        assert(next.drop_last() =~= done);
        assert(next.last() == parts@[i as int]@);
        if i > 0 {
            out.push(separator);
        }
        let ghost joined = out@;
        out.append(parts[i].as_str());
        if i == 0 {
            assert(joined + parts@[0]@ =~= parts@[0]@);
        }
        i = i + 1;
    }
    assert(views(parts@).take(parts.len() as int) =~= views(parts@));
    out
}

/// Whether no element of `parts` contains `c`.
pub open spec fn none_contains(parts: Seq<Seq<char>>, c: char) -> bool {
    forall|i: int, j: int| 0 <= i < parts.len() && 0 <= j < parts[i].len() ==> #[trigger] parts[i][j] != c
}

/// Splitting what was joined gives back the parts, where no part contains the separator.
pub proof fn lemma_split_join(parts: Seq<Seq<char>>, separator: char)
    requires
        parts.len() >= 1,
        none_contains(parts, separator),
    ensures
        split(join(parts, separator), separator) == parts,
    decreases parts.len(),
{
    if parts.len() == 1 {
        lemma_split_extend(Seq::<char>::empty(), parts[0], separator);
        assert(Seq::<char>::empty() + parts[0] =~= parts[0]);
        assert(split(parts[0], separator) =~= parts);
    } else {
        let init = parts.drop_last();
        assert(none_contains(init, separator)) by {
            assert forall|i: int, j: int| 0 <= i < init.len() && 0 <= j < init[i].len() implies
                #[trigger] init[i][j] != separator by {
                assert(parts[i][j] != separator);
            }
        }
        lemma_split_join(init, separator);
        let head = join(init, separator).push(separator);
        assert(head.drop_last() =~= join(init, separator));
        lemma_split_extend(head, parts.last(), separator);
        assert(split(head, separator) == init.push(Seq::<char>::empty()));
        assert(split(head + parts.last(), separator) =~= parts);
    }
}

/// Characters other than the separator extend the last piece.
proof fn lemma_split_extend(head: Seq<char>, tail: Seq<char>, separator: char)
    requires
        forall|i: int| 0 <= i < tail.len() ==> tail[i] != separator,
    ensures
        ({
            let pieces = split(head, separator);
            split(head + tail, separator) == pieces.update(
                pieces.len() - 1,
                pieces.last() + tail,
            )
        }),
    decreases tail.len(),
{
    lemma_split_nonempty(head, separator);
    let pieces = split(head, separator);
    if tail.len() == 0 {
        assert(head + tail =~= head);
        assert(pieces.last() + tail =~= pieces.last());
        assert(pieces.update(pieces.len() - 1, pieces.last()) =~= pieces);
    } else {
        let init = tail.drop_last();
        lemma_split_extend(head, init, separator);
        assert((head + tail).drop_last() =~= head + init);
        assert((pieces.last() + init).push(tail.last()) =~= pieces.last() + tail);
        assert(split(head + tail, separator) =~= pieces.update(
            pieces.len() - 1,
            pieces.last() + tail,
        ));
    }
}

/// Joining what was split gives back the text.
pub proof fn lemma_join_split(text: Seq<char>, separator: char)
    ensures
        join(split(text, separator), separator) == text,
    decreases text.len(),
{
    if text.len() == 0 {
        assert(split(text, separator).len() == 1);
        assert(join(split(text, separator), separator) =~= text);
    } else {
        let init = text.drop_last();
        lemma_join_split(init, separator);
        lemma_split_nonempty(init, separator);
        let before = split(init, separator);
        let after = split(text, separator);
        if text.last() == separator {
            assert(after.drop_last() =~= before);
            assert(join(after, separator) =~= join(before, separator).push(separator));
            assert(init.push(separator) =~= text);
        } else if before.len() == 1 {
            assert(after[0] == before[0].push(text.last()));
            assert(init.push(text.last()) =~= text);
        } else {
            assert(after.drop_last() =~= before.drop_last());
            assert(join(after, separator) =~= join(before, separator).push(text.last()));
            assert(init.push(text.last()) =~= text);
        }
    }
}

/// A trimmed text is what is left when white space is taken away at both ends, and neither starts nor
/// ends with any.
pub proof fn trimming_takes_white_space_only(line: Seq<char>)
    ensures
        ({
            let kept = trim(line);
            &&& kept.len() > 0 ==> !is_space(kept[0]) && !is_space(kept.last())
            &&& exists|from: int, to: int|
                #![trigger line.subrange(from, to)]
                {
                    &&& 0 <= from <= to <= line.len()
                    &&& kept == line.subrange(from, to)
                    &&& forall|i: int| 0 <= i < from ==> is_space(#[trigger] line[i])
                    &&& forall|i: int| to <= i < line.len() ==> is_space(#[trigger] line[i])
                }
        }),
{
    let from = lemma_trim_start(line);
    let rest = trim_start(line);
    let to = lemma_trim_end(rest);
    let kept = trim(line);
    assert(kept =~= line.subrange(from, from + to));
    assert forall|i: int| from + to <= i < line.len() implies is_space(#[trigger] line[i]) by {
        assert(line[i] == rest[i - from]);
    }
    if kept.len() > 0 {
        assert(kept[0] == rest[0]);
    }
}

proof fn lemma_trim_start(line: Seq<char>) -> (from: int)
    ensures
        0 <= from <= line.len(),
        trim_start(line) == line.skip(from),
        forall|i: int| 0 <= i < from ==> is_space(#[trigger] line[i]),
        trim_start(line).len() > 0 ==> !is_space(trim_start(line)[0]),
    decreases line.len(),
{
    if line.len() > 0 && is_space(line[0]) {
        let from = lemma_trim_start(line.drop_first());
        assert(line.drop_first().skip(from) =~= line.skip(from + 1));
        assert forall|i: int| 0 <= i < from + 1 implies is_space(#[trigger] line[i]) by {
            if i > 0 {
                assert(line[i] == line.drop_first()[i - 1]);
            }
        }
        from + 1
    } else {
        assert(line.skip(0) =~= line);
        0
    }
}

proof fn lemma_trim_end(line: Seq<char>) -> (to: int)
    ensures
        0 <= to <= line.len(),
        trim_end(line) == line.take(to),
        forall|i: int| to <= i < line.len() ==> is_space(#[trigger] line[i]),
        trim_end(line).len() > 0 ==> !is_space(trim_end(line).last()),
    decreases line.len(),
{
    if line.len() > 0 && is_space(line.last()) {
        let rest = line.drop_last();
        let to = lemma_trim_end(rest);
        assert(rest.take(to) =~= line.take(to));
        assert forall|i: int| to <= i < line.len() implies is_space(#[trigger] line[i]) by {
            if i < rest.len() {
                assert(line[i] == rest[i]);
            }
        }
        to
    } else {
        assert(line.take(line.len() as int) =~= line);
        line.len() as int
    }
}

}
