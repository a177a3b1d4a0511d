//! The overlay of open editor buffers: while a document is open, its buffer is its text.

use ropey::Rope;
use vstd::prelude::*;
use vstd::string::*;
use vstd::utf8::*;

use crate::text_map::TextMap;

verus! {

// ---------------------------------------------------------------------------
// Ropes.
// ---------------------------------------------------------------------------

/// The text buffer of the `ropey` crate.
#[verifier::external_type_specification]
#[verifier::external_body]
pub struct ExRope(Rope);

/// The characters that a rope holds.
pub uninterp spec fn rope_text(rope: Rope) -> Seq<char>;

/// The index of the character that a byte of the UTF-8 form belongs to; the length of the text for
/// the byte behind the last.
pub open spec fn char_of_byte(text: Seq<char>, byte: int) -> int
    decreases text.len(),
{
    if text.len() == 0 {
        0
    } else {
        let width = encode_scalar(text[0] as u32).len();
        if byte < width {
            0
        } else {
            1 + char_of_byte(text.drop_first(), byte - width)
        }
    }
}

/// `Rope::from_str`: a rope that holds the text.
#[verifier::external_body]
fn rope_from(text: &str) -> (r: Rope)
    ensures
        rope_text(r) == text@,
{
    Rope::from_str(text)
}

/// `<Rope as Display>::fmt` through `to_string`: the text that a rope holds.
#[verifier::external_body]
fn rope_to_string(rope: &Rope) -> (r: String)
    ensures
        r@ == rope_text(*rope),
{
    rope.to_string()
}

/// `Rope::byte_to_char`: the character that a byte belongs to. A byte behind the end panics.
#[verifier::external_body]
fn rope_byte_to_char(rope: &Rope, byte: usize) -> (r: usize)
    requires
        byte <= encode_utf8(rope_text(*rope)).len(),
    ensures
        r == char_of_byte(rope_text(*rope), byte as int),
{
    rope.byte_to_char(byte)
}

/// `Rope::remove`: the characters `start..end` are cut out. A range out of bounds panics.
#[verifier::external_body]
fn rope_remove(rope: &mut Rope, start: usize, end: usize)
    requires
        start <= end <= rope_text(*old(rope)).len(),
    ensures
        rope_text(*final(rope)) == rope_text(*old(rope)).take(start as int) + rope_text(
            *old(rope),
        ).skip(end as int),
{
    rope.remove(start..end);
}

/// `Rope::insert`: the text is put in before the character `at`. An index out of bounds panics.
#[verifier::external_body]
fn rope_insert(rope: &mut Rope, at: usize, text: &str)
    requires
        at <= rope_text(*old(rope)).len(),
    ensures
        rope_text(*final(rope)) == rope_text(*old(rope)).take(at as int) + text@ + rope_text(
            *old(rope),
        ).skip(at as int),
{
    rope.insert(at, text);
}

// ---------------------------------------------------------------------------
// Edits.
// ---------------------------------------------------------------------------

/// One content change of a document: the bytes `range` of the text that it applies to are replaced
/// by `text`, or the whole text where there is no range.
pub struct ContentChange {
    pub range: Option<(usize, usize)>,
    pub text: String,
}

/// Where a byte range ends: it never ends before it starts.
pub open spec fn range_end(range: (usize, usize)) -> usize {
    if range.1 < range.0 {
        range.0
    } else {
        range.1
    }
}

/// Whether the change's byte range lies within the text.
pub open spec fn change_fits(text: Seq<char>, change: ContentChange) -> bool {
    change.range matches Some(range) ==> range_end(range) <= encode_utf8(text).len()
}

/// The text after a change.
pub open spec fn changed(text: Seq<char>, change: ContentChange) -> Seq<char> {
    match change.range {
        Some(range) => text.take(char_of_byte(text, range.0 as int)) + change.text@ + text.skip(
            char_of_byte(text, range_end(range) as int),
        ),
        None => change.text@,
    }
}

/// The text after several changes, each applied to what the one before left.
pub open spec fn all_changed(text: Seq<char>, changes: Seq<ContentChange>) -> Seq<char>
    decreases changes.len(),
{
    if changes.len() == 0 {
        text
    } else {
        all_changed(changed(text, changes[0]), changes.drop_first())
    }
}

/// Whether each change fits the text that it applies to.
pub open spec fn changes_fit(text: Seq<char>, changes: Seq<ContentChange>) -> bool
    decreases changes.len(),
{
    changes.len() > 0 ==> change_fits(text, changes[0]) && changes_fit(
        changed(text, changes[0]),
        changes.drop_first(),
    )
}

/// The character of a byte lies within the text, and later bytes belong to no earlier character.
proof fn lemma_char_of_byte(text: Seq<char>, a: int, b: int)
    requires
        0 <= a <= b <= encode_utf8(text).len(),
    ensures
        0 <= char_of_byte(text, a) <= char_of_byte(text, b) <= text.len(),
    decreases text.len(),
{
    if text.len() > 0 {
        let width = encode_scalar(text[0] as u32).len();
        let rest = text.drop_first();
        assert(encode_utf8(text).len() == width + encode_utf8(rest).len());
        if b >= width {
            if a >= width {
                lemma_char_of_byte(rest, a - width, b - width);
            } else {
                lemma_char_of_byte(rest, b - width, b - width);
            }
        }
    }
}

// ---------------------------------------------------------------------------
// Documents.
// ---------------------------------------------------------------------------

/// An open document buffer.
pub struct Document {
    pub rope: Rope,
    pub version: i32,
    pub open: bool,
}

/// What a document holds.
pub struct DocumentView {
    pub text: Seq<char>,
    pub version: i32,
    pub open: bool,
}

impl View for Document {
    type V = DocumentView;

    open spec fn view(&self) -> DocumentView {
        DocumentView { text: rope_text(self.rope), version: self.version, open: self.open }
    }
}

impl Document {
    /// The full text of the document.
    pub fn text(&self) -> (r: String)
        ensures
            r@ == self@.text,
    {
        rope_to_string(&self.rope)
    }

    /// Apply one content change to the buffer.
    fn apply(&mut self, change: &ContentChange)
        requires
            change_fits(old(self)@.text, *change),
        ensures
            final(self)@ == (DocumentView {
                text: changed(old(self)@.text, *change),
                version: old(self)@.version,
                open: old(self)@.open,
            }),
    {
        match change.range {
            Some(range) => {
                let start: usize = range.0;
                let end: usize = if range.1 < range.0 {
                    range.0
                } else {
                    range.1
                };
                let ghost before = rope_text(self.rope);
                proof {
                    lemma_char_of_byte(before, start as int, end as int);
                }
                let start_char: usize = rope_byte_to_char(&self.rope, start);
                let end_char: usize = rope_byte_to_char(&self.rope, end);
                rope_remove(&mut self.rope, start_char, end_char);
                proof {
                    let cut = rope_text(self.rope);
                    assert(cut.take(start_char as int) =~= before.take(start_char as int));
                    assert(cut.skip(start_char as int) =~= before.skip(end_char as int));
                }
                rope_insert(&mut self.rope, start_char, change.text.as_str());
            },
            None => {
                self.rope = rope_from(change.text.as_str());
            },
        }
    }
}

/// The open documents, by URI.
pub open spec fn documents(docs: Map<Seq<char>, Document>) -> Map<Seq<char>, DocumentView> {
    docs.map_values(|doc: Document| doc@)
}

/// The overlay of open buffers, keyed by document URI.
pub struct Vfs {
    docs: TextMap<Document>,
}

impl View for Vfs {
    type V = Map<Seq<char>, DocumentView>;

    closed spec fn view(&self) -> Map<Seq<char>, DocumentView> {
        documents(self.docs@)
    }
}

impl Default for Vfs {
    fn default() -> (r: Vfs)
        ensures
            r@ == Map::<Seq<char>, DocumentView>::empty(),
    {
        let r = Vfs { docs: TextMap::new() };
        proof {
            assert(r@ =~= Map::<Seq<char>, DocumentView>::empty());
        }
        r
    }
}

impl Vfs {
    /// A document was opened: the overlay becomes authoritative for its URI.
    pub fn open(&mut self, uri: String, text: String, version: i32)
        ensures
            final(self)@ == old(self)@.insert(
                uri@,
                DocumentView { text: text@, version, open: true },
            ),
    {
        let doc = Document { rope: rope_from(text.as_str()), version, open: true };
        let _ = self.docs.insert(uri, doc);
        proof {
            assert(self@ =~= old(self)@.insert(
                uri@,
                DocumentView { text: text@, version, open: true },
            ));
        }
    }

    /// A document changed: the changes are applied in order, and the version is taken over. A
    /// document that is not open is left alone.
    pub fn apply_changes(&mut self, uri: &str, changes: Vec<ContentChange>, version: i32)
        requires
            old(self)@.dom().contains(uri@) ==> changes_fit(old(self)@[uri@].text, changes@),
        ensures
            old(self)@.dom().contains(uri@) ==> final(self)@ == old(self)@.insert(
                uri@,
                DocumentView {
                    text: all_changed(old(self)@[uri@].text, changes@),
                    version,
                    open: old(self)@[uri@].open,
                },
            ),
            !old(self)@.dom().contains(uri@) ==> final(self)@ == old(self)@,
    {
        let ghost before = self@;
        match self.docs.remove(uri) {
            Some(mut doc) => {
                let ghost first = doc@;
                let mut i: usize = 0;
                proof {
                    assert(changes@.skip(0) =~= changes@);
                }
                while i < changes.len()
                    invariant
                        0 <= i <= changes@.len(),
                        changes_fit(doc@.text, changes@.skip(i as int)),
                        all_changed(doc@.text, changes@.skip(i as int)) == all_changed(
                            first.text,
                            changes@,
                        ),
                        doc@.open == first.open,
                    decreases changes@.len() - i,
                {
                    proof {
                        assert(changes@.skip(i as int).drop_first() =~= changes@.skip(i as int + 1));
                        assert(changes@.skip(i as int)[0] == changes@[i as int]);
                    }
                    doc.apply(&changes[i]);
                    i = i + 1;
                }
                doc.version = version;
                let ghost last = doc@;
                let _ = self.docs.insert(uri.to_owned(), doc);
                proof {
                    assert(self@ =~= before.insert(uri@, last));
                }
            },
            None => {
                proof {
                    assert(self@ =~= before);
                }
            },
        }
    }

    /// A document was closed: its overlay is dropped.
    pub fn close(&mut self, uri: &str)
        ensures
            final(self)@ == old(self)@.remove(uri@),
    {
        let _ = self.docs.remove(uri);
        proof {
            assert(self@ =~= old(self)@.remove(uri@));
        }
    }

    /// Look up an open document.
    pub fn get(&self, uri: &str) -> (r: Option<&Document>)
        ensures
            r is Some == self@.dom().contains(uri@),
            r matches Some(doc) ==> doc@ == self@[uri@],
    {
        self.docs.get(uri)
    }

    /// The URIs of the open documents, each once, in no particular order.
    pub fn open_uris(&self) -> (r: Vec<String>)
        ensures
            forall|i: int| 0 <= i < r@.len() ==> self@.dom().contains((#[trigger] r@[i])@),
            forall|uri: Seq<char>|
                self@.dom().contains(uri) ==> exists|i: int|
                    0 <= i < r@.len() && (#[trigger] r@[i])@ == uri,
            forall|i: int, j: int|
                0 <= i < j < r@.len() ==> (#[trigger] r@[i])@ != (#[trigger] r@[j])@,
    {
        self.docs.keys()
    }
}

// ---------------------------------------------------------------------------
// Laws.
// ---------------------------------------------------------------------------

/// Replacing the whole text forgets everything that was applied before it.
pub proof fn lemma_full_replace(text: Seq<char>, before: Seq<ContentChange>, change: ContentChange)
    requires
        change.range is None,
    ensures
        all_changed(text, before.push(change)) == change.text@,
    decreases before.len(),
{
    let all = before.push(change);
    if before.len() == 0 {
        assert(all.drop_first() =~= Seq::<ContentChange>::empty());
        assert(all_changed(changed(text, change), all.drop_first()) == change.text@);
    } else {
        assert(all.drop_first() =~= before.drop_first().push(change));
        assert(all[0] == before[0]);
        lemma_full_replace(changed(text, before[0]), before.drop_first(), change);
    }
}

/// Changes that arrive in two batches leave the text that they leave in one.
pub proof fn lemma_batches(text: Seq<char>, first: Seq<ContentChange>, second: Seq<ContentChange>)
    ensures
        all_changed(text, first + second) == all_changed(all_changed(text, first), second),
    decreases first.len(),
{
    if first.len() == 0 {
        assert(first + second =~= second);
    } else {
        assert((first + second).drop_first() =~= first.drop_first() + second);
        lemma_batches(changed(text, first[0]), first.drop_first(), second);
    }
}

/// A byte belongs to the character whose UTF-8 form it is in; the byte behind the last belongs to
/// none and counts as the end of the text.
pub proof fn lemma_character_of_a_byte(text: Seq<char>, i: int, within: int)
    requires
        0 <= i <= text.len(),
        0 <= within,
        i < text.len() ==> within < encode_scalar(text[i] as u32).len(),
        i == text.len() ==> within == 0,
    ensures
        char_of_byte(text, encode_utf8(text.take(i)).len() + within) == i,
    decreases i,
{
    if i > 0 {
        let rest = text.drop_first();
        assert(text.take(i).drop_first() =~= rest.take(i - 1));
        assert(i < text.len() ==> rest[i - 1] == text[i]);
        lemma_character_of_a_byte(rest, i - 1, within);
    } else {
        assert(text.take(0) =~= Seq::<char>::empty());
    }
}

/// A change replaces what stands in its range and leaves what stands before and behind it.
pub proof fn lemma_change_replaces_its_range(
    before: Seq<char>,
    cut: Seq<char>,
    after: Seq<char>,
    change: ContentChange,
    range: (usize, usize),
)
    requires
        change.range == Some(range),
        range.0 == encode_utf8(before).len(),
        range.1 == encode_utf8(before + cut).len(),
    ensures
        changed(before + cut + after, change) == before + change.text@ + after,
        change_fits(before + cut + after, change),
{
    let text = before + cut + after;
    assert(text.take(before.len() as int) =~= before);
    assert(text.take((before + cut).len() as int) =~= before + cut);
    lemma_character_of_a_byte(text, before.len() as int, 0);
    lemma_character_of_a_byte(text, (before + cut).len() as int, 0);
    crate::text::lemma_utf8_concat(before, cut);
    crate::text::lemma_utf8_concat(before + cut, after);
    assert(text.skip((before + cut).len() as int) =~= after);
    assert(changed(text, change) =~= before + change.text@ + after);
}

/// A change without a range is the new text, and a range that ends before it starts is empty.
pub proof fn lemma_whole_text_and_empty_range(
    text: Seq<char>,
    change: ContentChange,
    range: (usize, usize),
)
    ensures
        change.range is None ==> changed(text, change) == change.text@,
        range.1 < range.0 ==> range_end(range) == range.0,
        range.0 <= range.1 ==> range_end(range) == range.1,
{
}

/// Changes are applied in their order, each to what the ones before it left.
pub proof fn lemma_changes_in_order(
    text: Seq<char>,
    changes: Seq<ContentChange>,
    last: ContentChange,
)
    ensures
        all_changed(text, Seq::empty()) == text,
        all_changed(text, changes.push(last)) == changed(all_changed(text, changes), last),
{
    lemma_batches(text, changes, seq![last]);
    assert(changes + seq![last] =~= changes.push(last));
    assert(seq![last].drop_first() =~= Seq::<ContentChange>::empty());
    let so_far = all_changed(text, changes);
    assert(all_changed(changed(so_far, last), seq![last].drop_first()) == changed(so_far, last));
}

/// What is said of the open documents is said of each of them.
pub proof fn lemma_documents_as_they_are(docs: Map<Seq<char>, Document>, uri: Seq<char>)
    ensures
        documents(docs).dom() == docs.dom(),
        docs.dom().contains(uri) ==> documents(docs)[uri].version == docs[uri].version
            && documents(docs)[uri].open == docs[uri].open && documents(docs)[uri].text
            == rope_text(docs[uri].rope),
{
    assert(documents(docs).dom() =~= docs.dom());
}

} // verus!
