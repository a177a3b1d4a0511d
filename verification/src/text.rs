//! Text primitives: characters of a string, comparison, concatenation, and UTF-8 facts.

use vstd::prelude::*;
use vstd::string::*;
use vstd::utf8::*;

verus! {

/// `String::push` appends one character at the end of the string.
pub assume_specification[ String::push ](s: &mut String, c: char)
    ensures
        final(s)@ == old(s)@.push(c),
;

/// What `String::from_utf8_lossy` reads out of a byte sequence.
pub uninterp spec fn utf8_lossy_text(bytes: Seq<u8>) -> Seq<char>;

/// `String::from_utf8_lossy`: the characters of a byte sequence, where ill-formed parts become
/// U+FFFD. On well-formed UTF-8 nothing is replaced. How many replacement characters an
/// ill-formed part turns into is left to the name.
#[verifier::external_body]
pub(crate) fn decode_lossy(bytes: &[u8]) -> (r: String)
    ensures
        r@ == utf8_lossy_text(bytes@),
        valid_utf8(bytes@) ==> r@ == decode_utf8(bytes@),
{
    String::from_utf8_lossy(bytes).into_owned()
}

/// The characters of `s`.
pub fn chars_of(s: &str) -> (r: Vec<char>)
    ensures
        r@ == s@,
{
    let mut r: Vec<char> = Vec::new();
    for c in it: s.chars()
        invariant
            r@ == s@.take(it.index() as int),
            it.seq() == s@,
    {
        proof {
            assert(s@.take(it.index() as int + 1) =~= s@.take(it.index() as int).push(
                s@[it.index() as int],
            ));
        }
        r.push(c);
    }
    proof {
        assert(s@.take(s@.len() as int) =~= s@);
    }
    r
}

/// The string made of the characters `from..to`.
pub fn text_of(chars: &Vec<char>, from: usize, to: usize) -> (r: String)
    requires
        from <= to <= chars@.len(),
    ensures
        r@ == chars@.subrange(from as int, to as int),
{
    let mut r: String = String::new();
    let mut i: usize = from;
    while i < to
        invariant
            from <= i <= to <= chars@.len(),
            r@ == chars@.subrange(from as int, i as int),
        decreases to - i,
    {
        r.push(chars[i]);
        i = i + 1;
        proof {
            assert(chars@.subrange(from as int, i as int) =~= chars@.subrange(
                from as int,
                i as int - 1,
            ).push(chars@[i as int - 1]));
        }
    }
    r
}

/// Two texts are equal exactly when their UTF-8 encodings are.
pub proof fn lemma_utf8_injective(a: Seq<char>, b: Seq<char>)
    ensures
        (encode_utf8(a) == encode_utf8(b)) == (a == b),
{
    encode_utf8_decode_utf8(a);
    encode_utf8_decode_utf8(b);
}

/// Whether two strings hold the same characters.
pub fn same_text(a: &str, b: &str) -> (r: bool)
    ensures
        r == (a@ == b@),
{
    let x = a.as_bytes();
    let y = b.as_bytes();
    proof {
        lemma_utf8_injective(a@, b@);
    }
    if x.len() != y.len() {
        return false;
    }
    let mut i: usize = 0;
    while i < x.len()
        invariant
            x@ == encode_utf8(a@),
            y@ == encode_utf8(b@),
            x@.len() == y@.len(),
            0 <= i <= x@.len(),
            x@.take(i as int) == y@.take(i as int),
            (encode_utf8(a@) == encode_utf8(b@)) == (a@ == b@),
        decreases x@.len() - i,
    {
        if x[i] != y[i] {
            return false;
        }
        proof {
            assert(x@.take(i as int + 1) =~= x@.take(i as int).push(x@[i as int]));
            assert(y@.take(i as int + 1) =~= y@.take(i as int).push(y@[i as int]));
        }
        i = i + 1;
    }
    proof {
        assert(x@.take(i as int) =~= x@);
        assert(y@.take(i as int) =~= y@);
    }
    true
}

/// The encoding of a concatenation is the concatenation of the encodings.
pub proof fn lemma_utf8_concat(a: Seq<char>, b: Seq<char>)
    ensures
        encode_utf8(a + b) == encode_utf8(a) + encode_utf8(b),
    decreases a.len(),
{
    if a.len() == 0 {
        assert(a + b =~= b);
        assert(encode_utf8(a) + encode_utf8(b) =~= encode_utf8(b));
    } else {
        assert((a + b).drop_first() =~= a.drop_first() + b);
        lemma_utf8_concat(a.drop_first(), b);
        assert(encode_utf8(a + b) =~= encode_utf8(a) + encode_utf8(b));
    }
}

/// The index of the first `c` in `s`, or the length of `s` when there is none.
pub open spec fn index_of(s: Seq<char>, c: char) -> int
    decreases s.len(),
{
    if s.len() == 0 {
        0
    } else if s[0] == c {
        0
    } else {
        1 + index_of(s.drop_first(), c)
    }
}

/// `index_of` is the least index that holds the character.
pub proof fn lemma_index_of(s: Seq<char>, c: char)
    ensures
        0 <= index_of(s, c) <= s.len(),
        index_of(s, c) < s.len() ==> s[index_of(s, c)] == c,
        forall|j: int| 0 <= j < index_of(s, c) ==> s[j] != c,
    decreases s.len(),
{
    if s.len() > 0 && s[0] != c {
        let rest = s.drop_first();
        lemma_index_of(rest, c);
        assert forall|j: int| 0 <= j < index_of(s, c) implies s[j] != c by {
            if j > 0 {
                assert(rest[j - 1] == s[j]);
            }
        }
        if index_of(rest, c) < rest.len() {
            assert(rest[index_of(rest, c)] == s[index_of(s, c)]);
        }
    }
}

/// An index at which the character stands, with none before it, is `index_of`.
pub proof fn lemma_index_of_is(s: Seq<char>, c: char, i: int)
    requires
        0 <= i <= s.len(),
        i < s.len() ==> s[i] == c,
        forall|j: int| 0 <= j < i ==> s[j] != c,
    ensures
        index_of(s, c) == i,
{
    lemma_index_of(s, c);
}

/// The first index at or after `from` that holds `c`, or the length.
pub fn find_from(chars: &Vec<char>, from: usize, c: char) -> (r: usize)
    requires
        from <= chars@.len(),
    ensures
        r == from + index_of(chars@.skip(from as int), c),
        from <= r <= chars@.len(),
{
    let mut i: usize = from;
    while i < chars.len()
        invariant
            from <= i <= chars@.len(),
            forall|j: int| from <= j < i ==> chars@[j] != c,
        decreases chars@.len() - i,
    {
        if chars[i] == c {
            proof {
                lemma_index_of_is(chars@.skip(from as int), c, i - from);
            }
            return i;
        }
        i = i + 1;
    }
    proof {
        lemma_index_of_is(chars@.skip(from as int), c, i - from);
    }
    i
}

/// Whether `part` stands in `chars` at index `at`.
pub fn starts_with_at(chars: &Vec<char>, at: usize, part: &Vec<char>) -> (r: bool)
    requires
        at <= chars@.len(),
    ensures
        r == (at + part@.len() <= chars@.len() && chars@.subrange(at as int, at + part@.len())
            == part@),
{
    let n: usize = chars.len();
    if n - at < part.len() {
        return false;
    }
    let mut i: usize = 0;
    while i < part.len()
        invariant
            n == chars@.len(),
            at + part@.len() <= chars@.len(),
            0 <= i <= part@.len(),
            forall|j: int| 0 <= j < i ==> chars@[at + j] == #[trigger] part@[j],
        decreases part@.len() - i,
    {
        if chars[at + i] != part[i] {
            proof {
                assert(chars@.subrange(at as int, at + part@.len())[i as int] != part@[i as int]);
            }
            return false;
        }
        i = i + 1;
    }
    proof {
        assert(chars@.subrange(at as int, at + part@.len()) =~= part@);
    }
    true
}

/// The lower-case form of an ASCII upper-case letter; other characters stay.
pub open spec fn ascii_lower(c: char) -> char {
    if 'A' <= c <= 'Z' {
        ((c as u8 + 32) as u8) as char
    } else {
        c
    }
}

/// A text with its ASCII letters in lower case.
pub open spec fn lowered(s: Seq<char>) -> Seq<char> {
    Seq::new(s.len(), |i: int| ascii_lower(s[i]))
}

/// The character with an ASCII upper-case letter lowered.
pub fn lower_char(c: char) -> (r: char)
    ensures
        r == ascii_lower(c),
{
    if 'A' <= c && c <= 'Z' {
        (c as u8 + 32) as char
    } else {
        c
    }
}

/// Whether `s`, in lower case, is `name`.
pub fn lowercase_is(s: &str, name: &str) -> (r: bool)
    ensures
        r == (lowered(s@) == name@),
{
    let chars = chars_of(s);
    let expected = chars_of(name);
    if chars.len() != expected.len() {
        proof {
            assert(lowered(s@).len() != name@.len());
        }
        return false;
    }
    let mut i: usize = 0;
    while i < chars.len()
        invariant
            chars@ == s@,
            expected@ == name@,
            chars@.len() == expected@.len(),
            0 <= i <= chars@.len(),
            forall|j: int| 0 <= j < i ==> #[trigger] lowered(s@)[j] == name@[j],
        decreases chars@.len() - i,
    {
        if lower_char(chars[i]) != expected[i] {
            proof {
                assert(lowered(s@)[i as int] != name@[i as int]);
            }
            return false;
        }
        i = i + 1;
    }
    proof {
        assert(lowered(s@) =~= name@);
    }
    true
}

/// The text of an optional string.
pub open spec fn opt_string(s: Option<String>) -> Option<Seq<char>> {
    match s {
        Some(text) => Some(text@),
        None => None,
    }
}

/// The text of an optional string slice.
pub open spec fn opt_str(s: Option<&str>) -> Option<Seq<char>> {
    match s {
        Some(text) => Some(text@),
        None => None,
    }
}

/// Whether an optional string is the given text.
pub fn opt_is(s: &Option<String>, name: &str) -> (r: bool)
    ensures
        r == (opt_string(*s) == Some(name@)),
{
    match s {
        Some(text) => same_text(text.as_str(), name),
        None => false,
    }
}

/// A text without a carriage return at its end.
pub open spec fn without_return(s: Seq<char>) -> Seq<char> {
    if s.len() > 0 && s.last() == '\r' {
        s.drop_last()
    } else {
        s
    }
}

/// The lines of a text: what ends in a line feed, without it and without a carriage return before
/// it, and what stands behind the last line feed.
pub open spec fn lines_of(s: Seq<char>) -> Seq<Seq<char>>
    decreases s.len(),
    via lines_of_decreases
{
    let feed = index_of(s, '\n');
    if s.len() == 0 {
        Seq::empty()
    } else if feed >= s.len() {
        seq![s]
    } else {
        seq![without_return(s.take(feed))] + lines_of(s.skip(feed + 1))
    }
}

#[via_fn]
proof fn lines_of_decreases(s: Seq<char>) {
    lemma_index_of(s, '\n');
}

/// The texts of a list of strings.
pub open spec fn texts(strings: Seq<String>) -> Seq<Seq<char>> {
    Seq::new(strings.len(), |i: int| strings[i]@)
}

/// The lines of a text.
pub fn split_lines(s: &str) -> (r: Vec<String>)
    ensures
        texts(r@) == lines_of(s@),
{
    let chars = chars_of(s);
    let mut r: Vec<String> = Vec::new();
    let mut at: usize = 0;
    proof {
        assert(s@.skip(0) =~= s@);
        assert(texts(r@) + lines_of(s@.skip(0)) =~= lines_of(s@));
    }
    while at < chars.len()
        invariant
            chars@ == s@,
            0 <= at <= chars@.len(),
            texts(r@) + lines_of(s@.skip(at as int)) == lines_of(s@),
        decreases chars@.len() - at,
    {
        let ghost rest = s@.skip(at as int);
        let ghost before = r@;
        proof {
            lemma_index_of(rest, '\n');
        }
        let feed: usize = find_from(&chars, at, '\n');
        if feed == chars.len() {
            let line = text_of(&chars, at, feed);
            proof {
                assert(line@ =~= rest);
                assert(lines_of(rest) =~= seq![rest]);
                assert(texts(before.push(line)) =~= texts(before).push(rest));
                assert(texts(before).push(rest) =~= texts(before) + lines_of(rest));
            }
            r.push(line);
            return r;
        }
        let end: usize = if feed > at && chars[feed - 1] == '\r' {
            feed - 1
        } else {
            feed
        };
        let line = text_of(&chars, at, end);
        proof {
            let whole = rest.take(feed - at);
            assert(line@ =~= without_return(whole));
            assert(rest.skip(feed - at + 1) =~= s@.skip(feed + 1));
            assert(texts(before.push(line)) =~= texts(before).push(line@));
            assert(texts(before).push(line@) + lines_of(s@.skip(feed + 1)) =~= texts(before) + (
            seq![line@] + lines_of(s@.skip(feed + 1))));
        }
        r.push(line);
        at = feed + 1;
    }
    proof {
        assert(s@.skip(at as int) =~= Seq::<char>::empty());
        assert(texts(r@) =~= lines_of(s@));
    }
    r
}

/// A text with its ASCII letters in lower case.
pub fn to_lower(s: &str) -> (r: String)
    ensures
        r@ == lowered(s@),
{
    let chars = chars_of(s);
    let mut r: String = String::new();
    let mut i: usize = 0;
    while i < chars.len()
        invariant
            chars@ == s@,
            0 <= i <= chars@.len(),
            r@ == lowered(s@).take(i as int),
        decreases chars@.len() - i,
    {
        r.push(lower_char(chars[i]));
        proof {
            assert(lowered(s@).take(i as int + 1) =~= lowered(s@).take(i as int).push(
                lowered(s@)[i as int],
            ));
        }
        i = i + 1;
    }
    proof {
        assert(lowered(s@).take(i as int) =~= lowered(s@));
    }
    r
}

/// Whether a character is white space, as Unicode has it.
pub open spec fn white_space(c: char) -> bool {
    ||| '\t' <= c <= '\r'
    ||| c == ' '
    ||| c == '\u{85}'
    ||| c == '\u{a0}'
    ||| c == '\u{1680}'
    ||| '\u{2000}' <= c <= '\u{200a}'
    ||| c == '\u{2028}'
    ||| c == '\u{2029}'
    ||| c == '\u{202f}'
    ||| c == '\u{205f}'
    ||| c == '\u{3000}'
}

/// Whether a character is white space.
pub fn is_white_space(c: char) -> (r: bool)
    ensures
        r == white_space(c),
{
    ('\t' <= c && c <= '\r') || c == ' ' || c == '\u{85}' || c == '\u{a0}' || c == '\u{1680}' || (
    '\u{2000}' <= c && c <= '\u{200a}') || c == '\u{2028}' || c == '\u{2029}' || c == '\u{202f}' || c
        == '\u{205f}' || c == '\u{3000}'
}

/// A text without the white space at its two ends.
pub open spec fn trimmed(s: Seq<char>) -> Seq<char>
    decreases s.len(),
{
    if s.len() > 0 && white_space(s[0]) {
        trimmed(s.skip(1))
    } else if s.len() > 0 && white_space(s.last()) {
        trimmed(s.drop_last())
    } else {
        s
    }
}

/// Cut the white space off the two ends of a text.
pub fn trim(s: &str) -> (r: String)
    ensures
        r@ == trimmed(s@),
{
    let chars = chars_of(s);
    let n: usize = chars.len();
    let mut from: usize = 0;
    proof {
        assert(s@.skip(0) =~= s@);
    }
    while from < n && is_white_space(chars[from])
        invariant
            0 <= from <= n == chars@.len(),
            chars@ == s@,
            trimmed(s@) == trimmed(s@.skip(from as int)),
        decreases n - from,
    {
        proof {
            assert(s@.skip(from as int).skip(1) =~= s@.skip(from as int + 1));
        }
        from = from + 1;
    }
    let mut to: usize = n;
    proof {
        assert(s@.subrange(from as int, n as int) =~= s@.skip(from as int));
    }
    while to > from && is_white_space(chars[to - 1])
        invariant
            from <= to <= n == chars@.len(),
            chars@ == s@,
            from < n ==> !white_space(s@[from as int]),
            trimmed(s@) == trimmed(s@.subrange(from as int, to as int)),
        decreases to - from,
    {
        proof {
            assert(s@.subrange(from as int, to as int).drop_last() =~= s@.subrange(
                from as int,
                to as int - 1,
            ));
        }
        to = to - 1;
    }
    text_of(&chars, from, to)
}

/// Whether a text starts with a part.
pub open spec fn starts_with(s: Seq<char>, part: Seq<char>) -> bool {
    part.is_prefix_of(s)
}

/// Whether a text starts with a part.
pub fn has_prefix(s: &str, part: &str) -> (r: bool)
    ensures
        r == starts_with(s@, part@),
{
    let chars = chars_of(s);
    let wanted = chars_of(part);
    starts_with_at(&chars, 0, &wanted)
}

/// A text without the part that it ends in.
pub open spec fn without_suffix(s: Seq<char>, part: Seq<char>) -> Option<Seq<char>> {
    if part.is_suffix_of(s) {
        Some(s.take(s.len() - part.len()))
    } else {
        None
    }
}

/// Cut a part off the end of a text.
pub fn strip_suffix(s: &str, part: &str) -> (r: Option<String>)
    ensures
        opt_string(r) == without_suffix(s@, part@),
{
    let chars = chars_of(s);
    let wanted = chars_of(part);
    if wanted.len() > chars.len() {
        return None;
    }
    let at: usize = chars.len() - wanted.len();
    let ends = starts_with_at(&chars, at, &wanted);
    proof {
        assert(s@.subrange(at as int, s@.len() as int) =~= s@.skip(at as int));
        if ends {
            assert(part@.is_suffix_of(s@));
        }
    }
    if ends {
        let r = text_of(&chars, 0, at);
        proof {
            assert(s@.subrange(0, at as int) =~= s@.take(at as int));
        }
        Some(r)
    } else {
        None
    }
}

/// Lowering changes the letters `A` to `Z`, each to its small form, and nothing else.
pub proof fn lemma_what_lowering_changes(s: Seq<char>, i: int)
    requires
        0 <= i < s.len(),
    ensures
        lowered(s).len() == s.len(),
        'A' <= s[i] <= 'Z' ==> lowered(s)[i] as int == s[i] as int + 32,
        !('A' <= s[i] <= 'Z') ==> lowered(s)[i] == s[i],
{
}

/// What trimming leaves is a part of the text that neither begins nor ends with white space, and all
/// that it cuts off is white space.
pub proof fn lemma_what_trimming_leaves(s: Seq<char>) -> (ends: (int, int))
    ensures
        0 <= ends.0 <= ends.1 <= s.len(),
        trimmed(s) == s.subrange(ends.0, ends.1),
        forall|i: int| 0 <= i < ends.0 ==> white_space(#[trigger] s[i]),
        forall|i: int| ends.1 <= i < s.len() ==> white_space(#[trigger] s[i]),
        ends.0 < ends.1 ==> !white_space(s[ends.0]) && !white_space(s[ends.1 - 1]),
    decreases s.len(),
{
    if s.len() > 0 && white_space(s[0]) {
        let rest = s.skip(1);
        let inner = lemma_what_trimming_leaves(rest);
        assert forall|i: int| 0 <= i < inner.0 + 1 implies white_space(#[trigger] s[i]) by {
            if i > 0 {
                assert(rest[i - 1] == s[i]);
            }
        }
        assert forall|i: int| inner.1 + 1 <= i < s.len() implies white_space(#[trigger] s[i]) by {
            assert(rest[i - 1] == s[i]);
        }
        assert(trimmed(s) =~= s.subrange(inner.0 + 1, inner.1 + 1));
        (inner.0 + 1, inner.1 + 1)
    } else if s.len() > 0 && white_space(s.last()) {
        let rest = s.drop_last();
        let inner = lemma_what_trimming_leaves(rest);
        assert forall|i: int| 0 <= i < inner.0 implies white_space(#[trigger] s[i]) by {
            assert(rest[i] == s[i]);
        }
        assert forall|i: int| inner.1 <= i < s.len() implies white_space(#[trigger] s[i]) by {
            if i < rest.len() {
                assert(rest[i] == s[i]);
            }
        }
        assert(trimmed(s) =~= s.subrange(inner.0, inner.1));
        inner
    } else {
        assert(s.subrange(0, s.len() as int) =~= s);
        (0, s.len() as int)
    }
}

/// White space, by code points: of ASCII the tab, the line ends and the blank.
pub proof fn lemma_white_space(c: char)
    ensures
        (c as int) < 128 ==> (white_space(c) <==> 9 <= c as int <= 13 || c as int == 32),
        c as int >= 128 ==> (white_space(c) <==> c as int == 133 || c as int == 160 || c as int
            == 5760 || 8192 <= c as int <= 8202 || c as int == 8232 || c as int == 8233 || c as int
            == 8239 || c as int == 8287 || c as int == 12288),
{
}

/// A line ends at a line feed, which is not part of it, nor is a carriage return before it. What
/// follows is the next line; a text that ends in a line feed has no line behind it.
pub proof fn lemma_first_line(line: Seq<char>, rest: Seq<char>)
    requires
        forall|i: int| 0 <= i < line.len() ==> #[trigger] line[i] != '\n',
    ensures
        lines_of(line + seq!['\n'] + rest) == seq![without_return(line)] + lines_of(rest),
        line.len() > 0 ==> lines_of(line) == seq![line],
        lines_of(Seq::empty()).len() == 0,
{
    let all = line + seq!['\n'] + rest;
    assert(all[line.len() as int] == '\n');
    assert forall|j: int| 0 <= j < line.len() implies all[j] != '\n' by {
        assert(all[j] == line[j]);
    }
    lemma_index_of_is(all, '\n', line.len() as int);
    lemma_index_of_is(line, '\n', line.len() as int);
    assert(all.take(line.len() as int) =~= line);
    assert(all.skip(line.len() as int + 1) =~= rest);
}

/// One carriage return is cut off an end, and nothing else.
pub proof fn lemma_carriage_return(s: Seq<char>)
    ensures
        without_return(s.push('\r')) == s,
        s.len() == 0 || s.last() != '\r' ==> without_return(s) == s,
{
    assert(s.push('\r').drop_last() =~= s);
}

/// What a text ends in is cut off it, and a text that does not end in it has nothing to cut.
pub proof fn lemma_cut_suffix(s: Seq<char>, part: Seq<char>, rest: Seq<char>)
    ensures
        without_suffix(s + part, part) == Some(s),
        without_suffix(s, part) == Some(rest) ==> s == rest + part,
        starts_with(s + part, s),
        starts_with(s, part) ==> s == part + s.skip(part.len() as int),
{
    assert((s + part).take(s.len() as int) =~= s);
    assert((s + part).skip(s.len() as int) =~= part);
    assert(part.is_suffix_of(s + part));
    if without_suffix(s, part) == Some(rest) {
        assert(s =~= rest + part);
    }
    if starts_with(s, part) {
        assert(s =~= part + s.skip(part.len() as int));
    }
}

/// What is said of optional strings and of lists is said of each text that they hold.
pub proof fn lemma_texts_as_they_are(
    s: Option<String>,
    t: Option<&str>,
    strings: Seq<String>,
    i: int,
)
    requires
        0 <= i < strings.len(),
    ensures
        s is None <==> opt_string(s) is None,
        s matches Some(text) ==> opt_string(s) == Some(text@),
        t is None <==> opt_str(t) is None,
        t matches Some(text) ==> opt_str(t) == Some(text@),
        texts(strings).len() == strings.len(),
        texts(strings)[i] == strings[i]@,
{
}

} // verus!
