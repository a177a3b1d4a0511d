//! Documentation pages of native classes: a page of pseudo-GDScript with an anchor for each member,
//! and where the pages are kept.

use std::rc::Rc;

use vstd::prelude::*;
use vstd::string::*;
use vstd::utf8::*;

use crate::numbers;
use crate::numbers::{hex, parse_u32, signed_decimal};
use crate::path;
use crate::path::{path_join, path_starts_with};
use crate::text;
use crate::text::{chars_of, find_from, same_text, split_lines, text_of, to_lower};
use crate::text_map::TextMap;
use crate::uri;
use crate::uri::{uri_to_path, Uri};

verus! {

/// The version of the page layout. It is part of the directory's name, so that a new layout never
/// meets old pages.
pub const STUB_FORMAT_VERSION: u32 = 1;

// ---------------------------------------------------------------------------
// What a page is made from.
// ---------------------------------------------------------------------------

/// A member with a one-line declaration.
pub struct MemberDoc {
    pub name: String,
    pub doc: String,
    pub decl: String,
}

/// A value of an enum.
pub struct EnumValueDoc {
    pub name: String,
    pub doc: String,
    pub value: i64,
}

/// An enum with its values.
pub struct EnumDoc {
    pub name: String,
    pub values: Vec<EnumValueDoc>,
}

/// A native class.
pub struct ClassDoc {
    pub name: String,
    pub parent: Option<String>,
    pub brief_description: String,
    pub description: String,
    pub constants: Vec<MemberDoc>,
    pub enums: Vec<EnumDoc>,
    pub properties: Vec<MemberDoc>,
    pub signals: Vec<MemberDoc>,
    pub methods: Vec<MemberDoc>,
}

/// A built-in value type. It has no parent class and no signals.
pub struct BuiltinDoc {
    pub name: String,
    pub brief_description: String,
    pub description: String,
    pub constants: Vec<MemberDoc>,
    pub enums: Vec<EnumDoc>,
    pub members: Vec<MemberDoc>,
    pub methods: Vec<MemberDoc>,
}

// ---------------------------------------------------------------------------
// What a page is.
// ---------------------------------------------------------------------------

/// Where a member is declared: its line, and the bytes of its name on that line.
#[derive(Clone, Copy, Debug, PartialEq, Eq, Structural)]
pub struct MemberAnchor {
    pub line: u32,
    pub name_col: u32,
    pub name_len: u32,
}

/// A page: its lines, and the anchor of each member.
#[verifier::ext_equal]
pub struct PageView {
    pub lines: Seq<Seq<char>>,
    pub anchors: Map<Seq<char>, MemberAnchor>,
}

/// The page with one more line.
pub open spec fn add_line(page: PageView, line: Seq<char>) -> PageView {
    PageView { lines: page.lines.push(line), anchors: page.anchors }
}

/// The page with more lines.
pub open spec fn add_lines(page: PageView, lines: Seq<Seq<char>>) -> PageView {
    PageView { lines: page.lines + lines, anchors: page.anchors }
}

/// The lines of a comment that holds a docstring.
pub open spec fn doc_comment(doc: Seq<char>) -> Seq<Seq<char>> {
    let lines = text::lines_of(doc);
    Seq::new(
        lines.len(),
        |i: int|
            if lines[i].len() == 0 {
                "##"@
            } else {
                "## "@ + lines[i]
            },
    )
}

/// The page with a declaration of `name`, which follows `prefix` on the new line.
pub open spec fn add_decl(
    page: PageView,
    decl: Seq<char>,
    prefix: Seq<char>,
    name: Seq<char>,
) -> PageView {
    PageView {
        lines: page.lines.push(decl),
        anchors: page.anchors.insert(
            name,
            MemberAnchor {
                line: page.lines.len() as u32,
                name_col: prefix.len() as u32,
                name_len: encode_utf8(name).len() as u32,
            },
        ),
    }
}

/// The page with a member behind an empty line and its docstring.
pub open spec fn add_member(page: PageView, prefix: Seq<char>, member: MemberDoc) -> PageView {
    add_decl(
        add_lines(add_line(page, ""@), doc_comment(member.doc@)),
        member.decl@,
        prefix,
        member.name@,
    )
}

/// The page with several members.
pub open spec fn add_members(
    page: PageView,
    prefix: Seq<char>,
    members: Seq<MemberDoc>,
) -> PageView
    decreases members.len(),
{
    if members.len() == 0 {
        page
    } else {
        add_member(add_members(page, prefix, members.drop_last()), prefix, members.last())
    }
}

/// The line of an enum value.
pub open spec fn value_decl(value: EnumValueDoc) -> Seq<char> {
    "\t"@ + value.name@ + " = "@ + numbers::signed_text(value.value as int) + ","@
}

/// The page with an enum value behind its docstring.
pub open spec fn add_value(page: PageView, value: EnumValueDoc) -> PageView {
    add_decl(
        add_lines(page, doc_comment(value.doc@)),
        value_decl(value),
        "\t"@,
        value.name@,
    )
}

/// The page with several enum values.
pub open spec fn add_values(page: PageView, values: Seq<EnumValueDoc>) -> PageView
    decreases values.len(),
{
    if values.len() == 0 {
        page
    } else {
        add_value(add_values(page, values.drop_last()), values.last())
    }
}

/// The page with an enum behind an empty line.
pub open spec fn add_enum(page: PageView, item: EnumDoc) -> PageView {
    add_line(
        add_values(
            add_decl(add_line(page, ""@), "enum "@ + item.name@ + " {"@, "enum "@, item.name@),
            item.values@,
        ),
        "}"@,
    )
}

/// The page with several enums.
pub open spec fn add_enums(page: PageView, items: Seq<EnumDoc>) -> PageView
    decreases items.len(),
{
    if items.len() == 0 {
        page
    } else {
        add_enum(add_enums(page, items.drop_last()), items.last())
    }
}

/// The comment at the head of a page: the brief description, and the long one where it says more.
pub open spec fn head_lines(brief: Seq<char>, description: Seq<char>) -> Seq<Seq<char>> {
    if description.len() > 0 && description != brief {
        doc_comment(brief) + (if brief.len() > 0 {
            seq!["##"@]
        } else {
            Seq::empty()
        }) + doc_comment(description)
    } else {
        doc_comment(brief)
    }
}

/// The page up to the class header.
pub open spec fn page_head(
    brief: Seq<char>,
    description: Seq<char>,
    name: Seq<char>,
    parent: Option<Seq<char>>,
) -> PageView {
    let start = PageView { lines: head_lines(brief, description), anchors: Map::empty() };
    let header = add_line(start, "class_name "@ + name);
    match parent {
        Some(parent) => add_line(header, "extends "@ + parent),
        None => header,
    }
}

/// The page of a class: header, constants, enums, properties, signals, methods.
pub open spec fn class_page(class: ClassDoc) -> PageView {
    let head = page_head(
        class.brief_description@,
        class.description@,
        class.name@,
        text::opt_string(class.parent),
    );
    let constants = add_members(head, "const "@, class.constants@);
    let enums = add_enums(constants, class.enums@);
    let properties = add_members(enums, "var "@, class.properties@);
    let signals = add_members(properties, "signal "@, class.signals@);
    add_members(signals, "func "@, class.methods@)
}

/// The page of a built-in type: header, constants, enums, members, methods.
pub open spec fn builtin_page(builtin: BuiltinDoc) -> PageView {
    let head = page_head(
        builtin.brief_description@,
        builtin.description@,
        builtin.name@,
        None,
    );
    let constants = add_members(head, "const "@, builtin.constants@);
    let enums = add_enums(constants, builtin.enums@);
    let members = add_members(enums, "var "@, builtin.members@);
    add_members(members, "func "@, builtin.methods@)
}

/// Lines as one text, each ended by a line feed.
pub open spec fn joined(lines: Seq<Seq<char>>) -> Seq<char>
    decreases lines.len(),
{
    if lines.len() == 0 {
        Seq::empty()
    } else {
        joined(lines.drop_last()) + lines.last() + "\n"@
    }
}

// ---------------------------------------------------------------------------
// Pages only grow.
// ---------------------------------------------------------------------------

/// A page that begins with the lines of another.
pub open spec fn extends_page(longer: PageView, page: PageView) -> bool {
    page.lines.is_prefix_of(longer.lines)
}

proof fn lemma_prefix_transitive(a: Seq<Seq<char>>, b: Seq<Seq<char>>, c: Seq<Seq<char>>)
    requires
        a.is_prefix_of(b),
        b.is_prefix_of(c),
    ensures
        a.is_prefix_of(c),
{
    assert(a =~= c.subrange(0, a.len() as int)) by {
        assert forall|i: int| 0 <= i < a.len() implies a[i] == c.subrange(0, a.len() as int)[i] by {
            assert(a[i] == b.subrange(0, a.len() as int)[i]);
            assert(b[i] == c.subrange(0, b.len() as int)[i]);
        }
    }
}

proof fn lemma_member_extends(page: PageView, prefix: Seq<char>, member: MemberDoc)
    ensures
        extends_page(add_member(page, prefix, member), page),
        add_member(page, prefix, member).lines.len() == page.lines.len() + 2 + doc_comment(
            member.doc@,
        ).len(),
{
    let after = add_member(page, prefix, member);
    assert(page.lines =~= after.lines.subrange(0, page.lines.len() as int));
}

proof fn lemma_members_extend(page: PageView, prefix: Seq<char>, members: Seq<MemberDoc>, i: int)
    requires
        0 <= i <= members.len(),
    ensures
        extends_page(
            add_members(page, prefix, members),
            add_members(page, prefix, members.take(i)),
        ),
    decreases members.len() - i,
{
    if i == members.len() {
        assert(members.take(i) =~= members);
        let after = add_members(page, prefix, members);
        assert(after.lines =~= after.lines.subrange(0, after.lines.len() as int));
    } else {
        lemma_members_extend(page, prefix, members, i + 1);
        assert(members.take(i + 1).drop_last() =~= members.take(i));
        assert(members.take(i + 1).last() == members[i]);
        lemma_member_extends(add_members(page, prefix, members.take(i)), prefix, members[i]);
        lemma_prefix_transitive(
            add_members(page, prefix, members.take(i)).lines,
            add_members(page, prefix, members.take(i + 1)).lines,
            add_members(page, prefix, members).lines,
        );
    }
}

proof fn lemma_value_extends(page: PageView, value: EnumValueDoc)
    ensures
        extends_page(add_value(page, value), page),
        add_value(page, value).lines.len() == page.lines.len() + 1 + doc_comment(value.doc@).len(),
{
    let after = add_value(page, value);
    assert(page.lines =~= after.lines.subrange(0, page.lines.len() as int));
}

proof fn lemma_values_extend(page: PageView, values: Seq<EnumValueDoc>, i: int)
    requires
        0 <= i <= values.len(),
    ensures
        extends_page(add_values(page, values), add_values(page, values.take(i))),
    decreases values.len() - i,
{
    if i == values.len() {
        assert(values.take(i) =~= values);
        let after = add_values(page, values);
        assert(after.lines =~= after.lines.subrange(0, after.lines.len() as int));
    } else {
        lemma_values_extend(page, values, i + 1);
        assert(values.take(i + 1).drop_last() =~= values.take(i));
        assert(values.take(i + 1).last() == values[i]);
        lemma_value_extends(add_values(page, values.take(i)), values[i]);
        lemma_prefix_transitive(
            add_values(page, values.take(i)).lines,
            add_values(page, values.take(i + 1)).lines,
            add_values(page, values).lines,
        );
    }
}

proof fn lemma_enum_extends(page: PageView, item: EnumDoc)
    ensures
        extends_page(add_enum(page, item), page),
{
    let start = add_decl(
        add_line(page, ""@),
        "enum "@ + item.name@ + " {"@,
        "enum "@,
        item.name@,
    );
    let values = add_values(start, item.values@);
    lemma_values_extend(start, item.values@, 0);
    assert(item.values@.take(0) =~= Seq::<EnumValueDoc>::empty());
    let after = add_enum(page, item);
    assert(values.lines =~= after.lines.subrange(0, values.lines.len() as int));
    assert(page.lines =~= start.lines.subrange(0, page.lines.len() as int));
    lemma_prefix_transitive(page.lines, start.lines, values.lines);
    lemma_prefix_transitive(page.lines, values.lines, after.lines);
}

proof fn lemma_enums_extend(page: PageView, items: Seq<EnumDoc>, i: int)
    requires
        0 <= i <= items.len(),
    ensures
        extends_page(add_enums(page, items), add_enums(page, items.take(i))),
    decreases items.len() - i,
{
    if i == items.len() {
        assert(items.take(i) =~= items);
        let after = add_enums(page, items);
        assert(after.lines =~= after.lines.subrange(0, after.lines.len() as int));
    } else {
        lemma_enums_extend(page, items, i + 1);
        assert(items.take(i + 1).drop_last() =~= items.take(i));
        assert(items.take(i + 1).last() == items[i]);
        lemma_enum_extends(add_enums(page, items.take(i)), items[i]);
        lemma_prefix_transitive(
            add_enums(page, items.take(i)).lines,
            add_enums(page, items.take(i + 1)).lines,
            add_enums(page, items).lines,
        );
    }
}

// ---------------------------------------------------------------------------
// Writing a page.
// ---------------------------------------------------------------------------

/// Whether the names of members fit the anchors' columns.
pub open spec fn names_fit(members: Seq<MemberDoc>) -> bool {
    forall|i: int|
        0 <= i < members.len() ==> encode_utf8((#[trigger] members[i]).name@).len() <= u32::MAX
}

/// Whether the names of enums and their values fit the anchors' columns.
pub open spec fn enum_names_fit(items: Seq<EnumDoc>) -> bool {
    forall|i: int|
        0 <= i < items.len() ==> {
            &&& encode_utf8((#[trigger] items[i]).name@).len() <= u32::MAX
            &&& value_names_fit(items[i].values@)
        }
}

/// Whether the names of enum values fit the anchors' columns.
pub open spec fn value_names_fit(values: Seq<EnumValueDoc>) -> bool {
    forall|i: int|
        0 <= i < values.len() ==> encode_utf8((#[trigger] values[i]).name@).len() <= u32::MAX
}

/// A page in the making: the text so far, and how many lines it has.
struct PageWriter {
    text: String,
    line: u32,
    anchors: TextMap<MemberAnchor>,
    lines: Ghost<Seq<Seq<char>>>,
}

impl View for PageWriter {
    type V = PageView;

    closed spec fn view(&self) -> PageView {
        PageView { lines: self.lines@, anchors: self.anchors@ }
    }
}

impl PageWriter {
    spec fn consistent(&self) -> bool {
        &&& self.text@ == joined(self.lines@)
        &&& self.line == self.lines@.len()
    }

    fn new() -> (r: PageWriter)
        ensures
            r.consistent(),
            r@ == (PageView { lines: Seq::empty(), anchors: Map::empty() }),
    {
        PageWriter { text: String::new(), line: 0, anchors: TextMap::new(), lines: Ghost(Seq::empty()) }
    }

    /// Add one line.
    fn push(&mut self, s: &str)
        requires
            old(self).consistent(),
            old(self)@.lines.len() < u32::MAX,
        ensures
            final(self).consistent(),
            final(self)@ == add_line(old(self)@, s@),
    {
        proof {
            reveal_strlit("\n");
        }
        self.text.append(s);
        self.text.push('\n');
        self.line = self.line + 1;
        proof {
            let before = self.lines@;
            let after = before.push(s@);
            assert(after.drop_last() =~= before);
            assert(self.text@ =~= joined(before) + s@ + "\n"@);
            self.lines@ = after;
        }
    }

    /// Add a docstring as a comment.
    fn push_doc(&mut self, doc: &str)
        requires
            old(self).consistent(),
            old(self)@.lines.len() + doc_comment(doc@).len() <= u32::MAX,
        ensures
            final(self).consistent(),
            final(self)@ == add_lines(old(self)@, doc_comment(doc@)),
    {
        let lines = split_lines(doc);
        let ghost comment = doc_comment(doc@);
        let ghost start = self@;
        let mut i: usize = 0;
        proof {
            assert(comment.len() == lines@.len());
            assert(comment.take(0) =~= Seq::<Seq<char>>::empty());
            assert(start.lines + comment.take(0) =~= start.lines);
        }
        while i < lines.len()
            invariant
                self.consistent(),
                0 <= i <= lines@.len(),
                text::texts(lines@) == text::lines_of(doc@),
                comment == doc_comment(doc@),
                comment.len() == lines@.len(),
                start.lines.len() + comment.len() <= u32::MAX,
                self@ == add_lines(start, comment.take(i as int)),
            decreases lines@.len() - i,
        {
            proof {
                assert(text::texts(lines@)[i as int] == lines@[i as int]@);
                assert(comment.take(i as int + 1) =~= comment.take(i as int).push(
                    comment[i as int],
                ));
                assert(add_lines(start, comment.take(i as int + 1)) =~= add_line(
                    add_lines(start, comment.take(i as int)),
                    comment[i as int],
                ));
            }
            if lines[i].as_str().is_empty() {
                self.push("##");
            } else {
                let mut marked: String = "## ".to_owned();
                marked.append(lines[i].as_str());
                self.push(marked.as_str());
            }
            i = i + 1;
        }
        proof {
            assert(comment.take(i as int) =~= comment);
        }
    }

    /// Add a line that declares `name` behind `prefix`.
    fn push_decl(&mut self, decl: &str, prefix_len: u32, name: &str, Ghost(prefix): Ghost<Seq<char>>)
        requires
            old(self).consistent(),
            old(self)@.lines.len() < u32::MAX,
            prefix_len == prefix.len(),
            encode_utf8(name@).len() <= u32::MAX,
        ensures
            final(self).consistent(),
            final(self)@ == add_decl(old(self)@, decl@, prefix, name@),
    {
        let anchor = MemberAnchor {
            line: self.line,
            name_col: prefix_len,
            name_len: name.as_bytes().len() as u32,
        };
        let _ = self.anchors.insert(name.to_owned(), anchor);
        self.push(decl);
    }

    /// Add members, each behind an empty line and its docstring.
    fn push_members(
        &mut self,
        members: &Vec<MemberDoc>,
        prefix_len: u32,
        Ghost(prefix): Ghost<Seq<char>>,
    )
        requires
            old(self).consistent(),
            prefix_len == prefix.len(),
            names_fit(members@),
            add_members(old(self)@, prefix, members@).lines.len() <= u32::MAX,
        ensures
            final(self).consistent(),
            final(self)@ == add_members(old(self)@, prefix, members@),
    {
        let ghost start = self@;
        let mut i: usize = 0;
        proof {
            assert(members@.take(0) =~= Seq::<MemberDoc>::empty());
        }
        while i < members.len()
            invariant
                self.consistent(),
                0 <= i <= members@.len(),
                prefix_len == prefix.len(),
                names_fit(members@),
                add_members(start, prefix, members@).lines.len() <= u32::MAX,
                self@ == add_members(start, prefix, members@.take(i as int)),
            decreases members@.len() - i,
        {
            proof {
                assert(members@.take(i as int + 1).drop_last() =~= members@.take(i as int));
                assert(members@.take(i as int + 1).last() == members@[i as int]);
                lemma_members_extend(start, prefix, members@, i as int + 1);
                lemma_member_extends(self@, prefix, members@[i as int]);
            }
            let member = &members[i];
            self.push("");
            self.push_doc(member.doc.as_str());
            self.push_decl(member.decl.as_str(), prefix_len, member.name.as_str(), Ghost(prefix));
            i = i + 1;
        }
        proof {
            assert(members@.take(i as int) =~= members@);
        }
    }

    /// Add the values of an enum.
    fn push_values(&mut self, values: &Vec<EnumValueDoc>)
        requires
            old(self).consistent(),
            value_names_fit(values@),
            add_values(old(self)@, values@).lines.len() <= u32::MAX,
        ensures
            final(self).consistent(),
            final(self)@ == add_values(old(self)@, values@),
    {
        let ghost start = self@;
        let mut i: usize = 0;
        proof {
            assert(values@.take(0) =~= Seq::<EnumValueDoc>::empty());
            reveal_strlit("\t");
        }
        while i < values.len()
            invariant
                self.consistent(),
                0 <= i <= values@.len(),
                "\t"@.len() == 1,
                value_names_fit(values@),
                add_values(start, values@).lines.len() <= u32::MAX,
                self@ == add_values(start, values@.take(i as int)),
            decreases values@.len() - i,
        {
            proof {
                assert(values@.take(i as int + 1).drop_last() =~= values@.take(i as int));
                assert(values@.take(i as int + 1).last() == values@[i as int]);
                lemma_values_extend(start, values@, i as int + 1);
                lemma_value_extends(self@, values@[i as int]);
            }
            let value = &values[i];
            let mut decl: String = "\t".to_owned();
            decl.append(value.name.as_str());
            decl.append(" = ");
            decl.append(signed_decimal(value.value).as_str());
            decl.append(",");
            self.push_doc(value.doc.as_str());
            self.push_decl(decl.as_str(), 1, value.name.as_str(), Ghost("\t"@));
            i = i + 1;
        }
        proof {
            assert(values@.take(i as int) =~= values@);
        }
    }

    /// Add enums, each behind an empty line.
    fn push_enums(&mut self, items: &Vec<EnumDoc>)
        requires
            old(self).consistent(),
            enum_names_fit(items@),
            add_enums(old(self)@, items@).lines.len() <= u32::MAX,
        ensures
            final(self).consistent(),
            final(self)@ == add_enums(old(self)@, items@),
    {
        let ghost start = self@;
        let mut i: usize = 0;
        proof {
            assert(items@.take(0) =~= Seq::<EnumDoc>::empty());
            reveal_strlit("enum ");
        }
        while i < items.len()
            invariant
                self.consistent(),
                0 <= i <= items@.len(),
                "enum "@.len() == 5,
                enum_names_fit(items@),
                add_enums(start, items@).lines.len() <= u32::MAX,
                self@ == add_enums(start, items@.take(i as int)),
            decreases items@.len() - i,
        {
            let item = &items[i];
            let ghost head = add_decl(
                add_line(self@, ""@),
                "enum "@ + item.name@ + " {"@,
                "enum "@,
                item.name@,
            );
            proof {
                assert(items@.take(i as int + 1).drop_last() =~= items@.take(i as int));
                assert(items@.take(i as int + 1).last() == items@[i as int]);
                lemma_enums_extend(start, items@, i as int + 1);
                assert(item.values@.take(0) =~= Seq::<EnumValueDoc>::empty());
                lemma_values_extend(head, item.values@, 0);
            }
            let mut decl: String = "enum ".to_owned();
            decl.append(item.name.as_str());
            decl.append(" {");
            self.push("");
            self.push_decl(decl.as_str(), 5, item.name.as_str(), Ghost("enum "@));
            self.push_values(&item.values);
            self.push("}");
            i = i + 1;
        }
        proof {
            assert(items@.take(i as int) =~= items@);
        }
    }

    /// Add the comment at the head of a page and the class header. The line of the header is
    /// given back.
    fn push_head(
        &mut self,
        brief: &str,
        description: &str,
        name: &str,
        parent: Option<&str>,
    ) -> (class_line: u32)
        requires
            old(self).consistent(),
            old(self)@ == (PageView { lines: Seq::empty(), anchors: Map::empty() }),
            page_head(brief@, description@, name@, text::opt_str(parent)).lines.len() <= u32::MAX,
        ensures
            final(self).consistent(),
            final(self)@ == page_head(brief@, description@, name@, text::opt_str(parent)),
            class_line == head_lines(brief@, description@).len(),
    {
        self.push_doc(brief);
        proof {
            assert(self@.lines =~= doc_comment(brief@));
        }
        if !description.is_empty() && !same_text(description, brief) {
            if !brief.is_empty() {
                self.push("##");
                proof {
                    assert(self@.lines =~= doc_comment(brief@) + seq!["##"@]);
                }
            } else {
                proof {
                    assert(self@.lines =~= doc_comment(brief@) + Seq::<Seq<char>>::empty());
                }
            }
            self.push_doc(description);
        }
        proof {
            assert(self@.lines =~= head_lines(brief@, description@));
        }
        let class_line: u32 = self.line;
        let mut header: String = "class_name ".to_owned();
        header.append(name);
        self.push(header.as_str());
        if let Some(parent) = parent {
            let mut extends: String = "extends ".to_owned();
            extends.append(parent);
            self.push(extends.as_str());
        }
        class_line
    }
}

/// A rendered page: its text, the line of the class header with the byte column of the class name,
/// and where each member is declared.
pub struct RenderedStub {
    pub text: String,
    pub class_line: u32,
    pub class_name_col: u32,
    pub member_lines: TextMap<MemberAnchor>,
}

/// Whether a rendered stub is the given page, with the class header at the given line.
pub open spec fn renders(stub: RenderedStub, page: PageView, class_line: int) -> bool {
    &&& stub.text@ == joined(page.lines)
    &&& stub.class_line == class_line
    &&& stub.class_name_col == "class_name "@.len()
    &&& stub.member_lines@ == page.anchors
}

/// Whether a class fits a page: its lines can be counted, and its names have columns.
pub open spec fn class_fits(class: ClassDoc) -> bool {
    &&& class_page(class).lines.len() <= u32::MAX
    &&& names_fit(class.constants@)
    &&& enum_names_fit(class.enums@)
    &&& names_fit(class.properties@)
    &&& names_fit(class.signals@)
    &&& names_fit(class.methods@)
}

/// Whether a built-in type fits a page.
pub open spec fn builtin_fits(builtin: BuiltinDoc) -> bool {
    &&& builtin_page(builtin).lines.len() <= u32::MAX
    &&& names_fit(builtin.constants@)
    &&& enum_names_fit(builtin.enums@)
    &&& names_fit(builtin.members@)
    &&& names_fit(builtin.methods@)
}

proof fn lemma_members_len(page: PageView, prefix: Seq<char>, members: Seq<MemberDoc>)
    ensures
        page.lines.len() <= add_members(page, prefix, members).lines.len(),
{
    lemma_members_extend(page, prefix, members, 0);
    assert(members.take(0) =~= Seq::<MemberDoc>::empty());
}

proof fn lemma_enums_len(page: PageView, items: Seq<EnumDoc>)
    ensures
        page.lines.len() <= add_enums(page, items).lines.len(),
{
    lemma_enums_extend(page, items, 0);
    assert(items.take(0) =~= Seq::<EnumDoc>::empty());
}

/// Render the page of a class.
pub fn render(class: &ClassDoc) -> (r: RenderedStub)
    requires
        class_fits(*class),
    ensures
        renders(
            r,
            class_page(*class),
            head_lines(class.brief_description@, class.description@).len() as int,
        ),
{
    let ghost head = page_head(
        class.brief_description@,
        class.description@,
        class.name@,
        text::opt_string(class.parent),
    );
    let ghost constants = add_members(head, "const "@, class.constants@);
    let ghost enums = add_enums(constants, class.enums@);
    let ghost properties = add_members(enums, "var "@, class.properties@);
    let ghost signals = add_members(properties, "signal "@, class.signals@);
    proof {
        lemma_members_len(signals, "func "@, class.methods@);
        lemma_members_len(properties, "signal "@, class.signals@);
        lemma_members_len(enums, "var "@, class.properties@);
        lemma_enums_len(constants, class.enums@);
        lemma_members_len(head, "const "@, class.constants@);
        reveal_strlit("const ");
        reveal_strlit("var ");
        reveal_strlit("signal ");
        reveal_strlit("func ");
        reveal_strlit("class_name ");
    }
    let mut page = PageWriter::new();
    let parent: Option<&str> = match &class.parent {
        Some(parent) => Some(parent.as_str()),
        None => None,
    };
    let class_line: u32 = page.push_head(
        class.brief_description.as_str(),
        class.description.as_str(),
        class.name.as_str(),
        parent,
    );
    page.push_members(&class.constants, 6, Ghost("const "@));
    page.push_enums(&class.enums);
    page.push_members(&class.properties, 4, Ghost("var "@));
    page.push_members(&class.signals, 7, Ghost("signal "@));
    page.push_members(&class.methods, 5, Ghost("func "@));
    RenderedStub { text: page.text, class_line, class_name_col: 11, member_lines: page.anchors }
}

/// Render the page of a built-in type.
pub fn render_builtin(builtin: &BuiltinDoc) -> (r: RenderedStub)
    requires
        builtin_fits(*builtin),
    ensures
        renders(
            r,
            builtin_page(*builtin),
            head_lines(builtin.brief_description@, builtin.description@).len() as int,
        ),
{
    let ghost head = page_head(
        builtin.brief_description@,
        builtin.description@,
        builtin.name@,
        None,
    );
    let ghost constants = add_members(head, "const "@, builtin.constants@);
    let ghost enums = add_enums(constants, builtin.enums@);
    let ghost members = add_members(enums, "var "@, builtin.members@);
    proof {
        lemma_members_len(members, "func "@, builtin.methods@);
        lemma_members_len(enums, "var "@, builtin.members@);
        lemma_enums_len(constants, builtin.enums@);
        lemma_members_len(head, "const "@, builtin.constants@);
        reveal_strlit("const ");
        reveal_strlit("var ");
        reveal_strlit("func ");
        reveal_strlit("class_name ");
    }
    let mut page = PageWriter::new();
    let class_line: u32 = page.push_head(
        builtin.brief_description.as_str(),
        builtin.description.as_str(),
        builtin.name.as_str(),
        None,
    );
    page.push_members(&builtin.constants, 6, Ghost("const "@));
    page.push_enums(&builtin.enums);
    page.push_members(&builtin.members, 4, Ghost("var "@));
    page.push_members(&builtin.methods, 5, Ghost("func "@));
    RenderedStub { text: page.text, class_line, class_name_col: 11, member_lines: page.anchors }
}

// ---------------------------------------------------------------------------
// Laws of pages.
// ---------------------------------------------------------------------------

/// Whether an anchor cuts the name out of the page's lines, in bytes.
pub open spec fn anchor_cuts(lines: Seq<Seq<char>>, anchor: MemberAnchor, name: Seq<char>) -> bool {
    let bytes = encode_utf8(lines[anchor.line as int]);
    &&& anchor.line < lines.len()
    &&& anchor.name_col + anchor.name_len <= bytes.len()
    &&& bytes.subrange(anchor.name_col as int, anchor.name_col + anchor.name_len) == encode_utf8(
        name,
    )
}

proof fn lemma_encode_joined(a: Seq<char>, b: Seq<char>)
    ensures
        encode_utf8(a + b) == encode_utf8(a) + encode_utf8(b),
    decreases a.len(),
{
    if a.len() == 0 {
        assert(a + b =~= b);
        assert(encode_utf8(a) + encode_utf8(b) =~= encode_utf8(b));
    } else {
        lemma_encode_joined(a.drop_first(), b);
        assert((a + b).drop_first() =~= a.drop_first() + b);
        assert(encode_utf8(a + b) =~= encode_utf8(a) + encode_utf8(b));
    }
}

/// Whether every anchor of a page cuts out its name.
pub open spec fn well_anchored(page: PageView) -> bool {
    forall|name: Seq<char>| #[trigger]
        page.anchors.dom().contains(name) ==> anchor_cuts(page.lines, page.anchors[name], name)
}

/// A declaration that opens with the prefix and the name.
pub open spec fn declares(decl: Seq<char>, prefix: Seq<char>, name: Seq<char>) -> bool {
    (prefix + name).is_prefix_of(decl)
}

/// Members whose declarations open with the prefix and their names.
pub open spec fn members_declared(members: Seq<MemberDoc>, prefix: Seq<char>) -> bool {
    forall|i: int|
        0 <= i < members.len() ==> declares(
            (#[trigger] members[i]).decl@,
            prefix,
            members[i].name@,
        )
}

proof fn lemma_lines_anchored(page: PageView, lines: Seq<Seq<char>>)
    requires
        well_anchored(page),
    ensures
        well_anchored(add_lines(page, lines)),
{
    let after = add_lines(page, lines);
    assert forall|name: Seq<char>| #[trigger]
        after.anchors.dom().contains(name) implies anchor_cuts(
        after.lines,
        after.anchors[name],
        name,
    ) by {
        let anchor = page.anchors[name];
        assert(after.lines[anchor.line as int] == page.lines[anchor.line as int]);
    }
}

proof fn lemma_line_anchored(page: PageView, line: Seq<char>)
    requires
        well_anchored(page),
    ensures
        well_anchored(add_line(page, line)),
{
    lemma_lines_anchored(page, seq![line]);
    assert(add_lines(page, seq![line]) =~= add_line(page, line));
}

proof fn lemma_decl_anchored(
    page: PageView,
    decl: Seq<char>,
    prefix: Seq<char>,
    name: Seq<char>,
)
    requires
        well_anchored(page),
        declares(decl, prefix, name),
        page.lines.len() <= u32::MAX,
        prefix.len() <= u32::MAX,
        is_ascii_chars(prefix),
        encode_utf8(name).len() <= u32::MAX,
    ensures
        well_anchored(add_decl(page, decl, prefix, name)),
{
    let after = add_decl(page, decl, prefix, name);
    let opening = prefix + name;
    let rest = decl.skip(opening.len() as int);
    assert(decl =~= opening + rest) by {
        assert(decl.subrange(0, opening.len() as int) =~= opening);
        assert forall|i: int| 0 <= i < opening.len() implies decl[i] == opening[i] by {
            assert(decl.subrange(0, opening.len() as int)[i] == opening[i]);
        }
    }
    lemma_encode_joined(opening, rest);
    lemma_encode_joined(prefix, name);
    is_ascii_chars_encode_utf8(prefix);
    assert forall|other: Seq<char>| #[trigger]
        after.anchors.dom().contains(other) implies anchor_cuts(
        after.lines,
        after.anchors[other],
        other,
    ) by {
        if other == name {
            let anchor = after.anchors[name];
            assert(anchor.line == page.lines.len());
            assert(after.lines[anchor.line as int] == decl);
            assert(encode_utf8(decl).subrange(
                anchor.name_col as int,
                anchor.name_col + anchor.name_len,
            ) =~= encode_utf8(name));
        } else {
            let anchor = page.anchors[other];
            assert(page.anchors.dom().contains(other));
            assert(after.lines[anchor.line as int] == page.lines[anchor.line as int]);
        }
    }
}

proof fn lemma_members_anchored(page: PageView, prefix: Seq<char>, members: Seq<MemberDoc>)
    requires
        well_anchored(page),
        members_declared(members, prefix),
        names_fit(members),
        prefix.len() <= u32::MAX,
        is_ascii_chars(prefix),
        add_members(page, prefix, members).lines.len() <= u32::MAX,
    ensures
        well_anchored(add_members(page, prefix, members)),
        forall|i: int|
            0 <= i < members.len() ==> add_members(page, prefix, members).anchors.dom().contains(
                (#[trigger] members[i]).name@,
            ),
        page.anchors.dom().subset_of(add_members(page, prefix, members).anchors.dom()),
    decreases members.len(),
{
    if members.len() > 0 {
        let before = members.drop_last();
        let last = members.last();
        let so_far = add_members(page, prefix, before);
        lemma_member_extends(so_far, prefix, last);
        assert(names_fit(before)) by {
            assert forall|i: int| 0 <= i < before.len() implies encode_utf8(
                (#[trigger] before[i]).name@,
            ).len() <= u32::MAX by {
                assert(before[i] == members[i]);
            }
        }
        assert(members_declared(before, prefix)) by {
            assert forall|i: int| 0 <= i < before.len() implies declares(
                (#[trigger] before[i]).decl@,
                prefix,
                before[i].name@,
            ) by {
                assert(before[i] == members[i]);
            }
        }
        lemma_members_anchored(page, prefix, before);
        lemma_line_anchored(so_far, ""@);
        lemma_lines_anchored(add_line(so_far, ""@), doc_comment(last.doc@));
        assert(members[members.len() - 1] == last);
        lemma_decl_anchored(
            add_lines(add_line(so_far, ""@), doc_comment(last.doc@)),
            last.decl@,
            prefix,
            last.name@,
        );
        let after = add_members(page, prefix, members);
        assert forall|i: int| 0 <= i < members.len() implies after.anchors.dom().contains(
            (#[trigger] members[i]).name@,
        ) by {
            if i < before.len() {
                assert(before[i] == members[i]);
            }
        }
    }
}

proof fn lemma_values_anchored(page: PageView, values: Seq<EnumValueDoc>)
    requires
        well_anchored(page),
        value_names_fit(values),
        add_values(page, values).lines.len() <= u32::MAX,
    ensures
        well_anchored(add_values(page, values)),
        forall|i: int|
            0 <= i < values.len() ==> add_values(page, values).anchors.dom().contains(
                (#[trigger] values[i]).name@,
            ),
        page.anchors.dom().subset_of(add_values(page, values).anchors.dom()),
    decreases values.len(),
{
    if values.len() > 0 {
        let before = values.drop_last();
        let last = values.last();
        let so_far = add_values(page, before);
        lemma_value_extends(so_far, last);
        assert(value_names_fit(before)) by {
            assert forall|i: int| 0 <= i < before.len() implies encode_utf8(
                (#[trigger] before[i]).name@,
            ).len() <= u32::MAX by {
                assert(before[i] == values[i]);
            }
        }
        lemma_values_anchored(page, before);
        lemma_lines_anchored(so_far, doc_comment(last.doc@));
        assert(values[values.len() - 1] == last);
        reveal_strlit("\t");
        assert(("\t"@ + last.name@).is_prefix_of(value_decl(last))) by {
            let opening = "\t"@ + last.name@;
            assert(opening =~= value_decl(last).subrange(0, opening.len() as int));
        }
        lemma_decl_anchored(
            add_lines(so_far, doc_comment(last.doc@)),
            value_decl(last),
            "\t"@,
            last.name@,
        );
        let after = add_values(page, values);
        assert forall|i: int| 0 <= i < values.len() implies after.anchors.dom().contains(
            (#[trigger] values[i]).name@,
        ) by {
            if i < before.len() {
                assert(before[i] == values[i]);
            }
        }
    }
}

proof fn lemma_enum_anchored(page: PageView, item: EnumDoc)
    requires
        well_anchored(page),
        encode_utf8(item.name@).len() <= u32::MAX,
        value_names_fit(item.values@),
        add_enum(page, item).lines.len() <= u32::MAX,
    ensures
        well_anchored(add_enum(page, item)),
        add_enum(page, item).anchors.dom().contains(item.name@),
        forall|i: int|
            0 <= i < item.values@.len() ==> add_enum(page, item).anchors.dom().contains(
                (#[trigger] item.values@[i]).name@,
            ),
        page.anchors.dom().subset_of(add_enum(page, item).anchors.dom()),
{
    let decl = "enum "@ + item.name@ + " {"@;
    let start = add_decl(add_line(page, ""@), decl, "enum "@, item.name@);
    lemma_values_extend(start, item.values@, 0);
    assert(item.values@.take(0) =~= Seq::<EnumValueDoc>::empty());
    lemma_line_anchored(page, ""@);
    reveal_strlit("enum ");
    assert(("enum "@ + item.name@).is_prefix_of(decl)) by {
        let opening = "enum "@ + item.name@;
        assert(opening =~= decl.subrange(0, opening.len() as int));
    }
    lemma_decl_anchored(add_line(page, ""@), decl, "enum "@, item.name@);
    lemma_values_anchored(start, item.values@);
    lemma_line_anchored(add_values(start, item.values@), "}"@);
    assert(start.anchors.dom().contains(item.name@));
}

/// Whether a page has an anchor for each value of an enum.
pub open spec fn values_anchored(page: PageView, values: Seq<EnumValueDoc>) -> bool {
    forall|i: int|
        0 <= i < values.len() ==> page.anchors.dom().contains((#[trigger] values[i]).name@)
}

/// Whether a page has an anchor for each enum and its values.
pub open spec fn enums_anchored(page: PageView, items: Seq<EnumDoc>) -> bool {
    forall|i: int|
        0 <= i < items.len() ==> page.anchors.dom().contains((#[trigger] items[i]).name@)
            && values_anchored(page, items[i].values@)
}

proof fn lemma_values_stay(before: PageView, after: PageView, values: Seq<EnumValueDoc>)
    requires
        values_anchored(before, values),
        before.anchors.dom().subset_of(after.anchors.dom()),
    ensures
        values_anchored(after, values),
{
    assert forall|i: int| 0 <= i < values.len() implies after.anchors.dom().contains(
        (#[trigger] values[i]).name@,
    ) by {
        assert(before.anchors.dom().contains(values[i].name@));
    }
}

proof fn lemma_enums_stay(before: PageView, after: PageView, items: Seq<EnumDoc>)
    requires
        enums_anchored(before, items),
        before.anchors.dom().subset_of(after.anchors.dom()),
    ensures
        enums_anchored(after, items),
{
    assert forall|i: int| 0 <= i < items.len() implies after.anchors.dom().contains(
        (#[trigger] items[i]).name@,
    ) && values_anchored(after, items[i].values@) by {
        assert(before.anchors.dom().contains(items[i].name@));
        lemma_values_stay(before, after, items[i].values@);
    }
}

proof fn lemma_enums_anchored(page: PageView, items: Seq<EnumDoc>)
    requires
        well_anchored(page),
        enum_names_fit(items),
        add_enums(page, items).lines.len() <= u32::MAX,
    ensures
        well_anchored(add_enums(page, items)),
        enums_anchored(add_enums(page, items), items),
        page.anchors.dom().subset_of(add_enums(page, items).anchors.dom()),
    decreases items.len(),
{
    if items.len() > 0 {
        let before = items.drop_last();
        let last = items.last();
        let so_far = add_enums(page, before);
        lemma_enum_extends(so_far, last);
        assert(enum_names_fit(before)) by {
            assert forall|i: int| 0 <= i < before.len() implies encode_utf8(
                (#[trigger] before[i]).name@,
            ).len() <= u32::MAX && value_names_fit(before[i].values@) by {
                assert(before[i] == items[i]);
            }
        }
        lemma_enums_anchored(page, before);
        assert(items[items.len() - 1] == last);
        lemma_enum_anchored(so_far, last);
        let after = add_enums(page, items);
        assert forall|i: int| 0 <= i < items.len() implies after.anchors.dom().contains(
            (#[trigger] items[i]).name@,
        ) && values_anchored(after, items[i].values@) by {
            if i < before.len() {
                assert(before[i] == items[i]);
                lemma_values_stay(so_far, after, items[i].values@);
            }
        }
    }
}

/// Whether every declaration of a class opens as its section has it.
pub open spec fn class_declared(class: ClassDoc) -> bool {
    &&& members_declared(class.constants@, "const "@)
    &&& members_declared(class.properties@, "var "@)
    &&& members_declared(class.signals@, "signal "@)
    &&& members_declared(class.methods@, "func "@)
}

/// Whether a page has an anchor for each member.
pub open spec fn names_anchored(page: PageView, members: Seq<MemberDoc>) -> bool {
    forall|i: int|
        0 <= i < members.len() ==> page.anchors.dom().contains((#[trigger] members[i]).name@)
}

/// Every anchor of a class page cuts exactly its name out of the line it points at, and every
/// member of the class has one.
pub proof fn lemma_class_anchors(class: ClassDoc)
    requires
        class_fits(class),
        class_declared(class),
    ensures
        well_anchored(class_page(class)),
        names_anchored(class_page(class), class.constants@),
        names_anchored(class_page(class), class.properties@),
        names_anchored(class_page(class), class.signals@),
        names_anchored(class_page(class), class.methods@),
        enums_anchored(class_page(class), class.enums@),
{
    let head = page_head(
        class.brief_description@,
        class.description@,
        class.name@,
        text::opt_string(class.parent),
    );
    let constants = add_members(head, "const "@, class.constants@);
    let enums = add_enums(constants, class.enums@);
    let properties = add_members(enums, "var "@, class.properties@);
    let signals = add_members(properties, "signal "@, class.signals@);
    lemma_members_len(signals, "func "@, class.methods@);
    lemma_members_len(properties, "signal "@, class.signals@);
    lemma_members_len(enums, "var "@, class.properties@);
    lemma_enums_len(constants, class.enums@);
    reveal_strlit("const ");
    reveal_strlit("var ");
    reveal_strlit("signal ");
    reveal_strlit("func ");
    assert(well_anchored(head));
    lemma_members_anchored(head, "const "@, class.constants@);
    lemma_enums_anchored(constants, class.enums@);
    lemma_members_anchored(enums, "var "@, class.properties@);
    lemma_members_anchored(properties, "signal "@, class.signals@);
    lemma_members_anchored(signals, "func "@, class.methods@);
    lemma_enums_stay(enums, class_page(class), class.enums@);
}

/// Whether every declaration of a built-in type opens as its section has it.
pub open spec fn builtin_declared(builtin: BuiltinDoc) -> bool {
    &&& members_declared(builtin.constants@, "const "@)
    &&& members_declared(builtin.members@, "var "@)
    &&& members_declared(builtin.methods@, "func "@)
}

/// Every anchor of the page of a built-in type cuts exactly its name out of the line it points at,
/// and every member of the type has one.
pub proof fn lemma_builtin_anchors(builtin: BuiltinDoc)
    requires
        builtin_fits(builtin),
        builtin_declared(builtin),
    ensures
        well_anchored(builtin_page(builtin)),
        names_anchored(builtin_page(builtin), builtin.constants@),
        names_anchored(builtin_page(builtin), builtin.members@),
        names_anchored(builtin_page(builtin), builtin.methods@),
        enums_anchored(builtin_page(builtin), builtin.enums@),
{
    let head = page_head(builtin.brief_description@, builtin.description@, builtin.name@, None);
    let constants = add_members(head, "const "@, builtin.constants@);
    let enums = add_enums(constants, builtin.enums@);
    let members = add_members(enums, "var "@, builtin.members@);
    lemma_members_len(members, "func "@, builtin.methods@);
    lemma_members_len(enums, "var "@, builtin.members@);
    lemma_enums_len(constants, builtin.enums@);
    reveal_strlit("const ");
    reveal_strlit("var ");
    reveal_strlit("func ");
    assert(well_anchored(head));
    lemma_members_anchored(head, "const "@, builtin.constants@);
    lemma_enums_anchored(constants, builtin.enums@);
    lemma_members_anchored(enums, "var "@, builtin.members@);
    lemma_members_anchored(members, "func "@, builtin.methods@);
    lemma_enums_stay(enums, builtin_page(builtin), builtin.enums@);
}

/// Whether a list has a member of the name.
pub open spec fn has_member(members: Seq<MemberDoc>, name: Seq<char>) -> bool {
    exists|i: int| 0 <= i < members.len() && (#[trigger] members[i]).name@ == name
}

/// Whether an enum has a value of the name.
pub open spec fn has_value(values: Seq<EnumValueDoc>, name: Seq<char>) -> bool {
    exists|i: int| 0 <= i < values.len() && (#[trigger] values[i]).name@ == name
}

/// Whether an enum of a list, or a value of one, has the name.
pub open spec fn has_enum_name(items: Seq<EnumDoc>, name: Seq<char>) -> bool {
    exists|i: int|
        0 <= i < items.len() && ((#[trigger] items[i]).name@ == name || has_value(
            items[i].values@,
            name,
        ))
}

proof fn lemma_members_named(
    page: PageView,
    prefix: Seq<char>,
    members: Seq<MemberDoc>,
    name: Seq<char>,
)
    ensures
        add_members(page, prefix, members).anchors.dom().contains(name)
            == (page.anchors.dom().contains(name) || has_member(members, name)),
    decreases members.len(),
{
    if members.len() > 0 {
        let before = members.drop_last();
        lemma_members_named(page, prefix, before, name);
        if has_member(before, name) {
            let i = choose|i: int| 0 <= i < before.len() && (#[trigger] before[i]).name@ == name;
            assert(members[i].name@ == name);
        }
        if has_member(members, name) {
            let i = choose|i: int| 0 <= i < members.len() && (#[trigger] members[i]).name@ == name;
            if i < before.len() {
                assert(before[i].name@ == name);
            }
        }
        assert(members[members.len() - 1] == members.last());
    }
}

proof fn lemma_values_named(page: PageView, values: Seq<EnumValueDoc>, name: Seq<char>)
    ensures
        add_values(page, values).anchors.dom().contains(name) == (page.anchors.dom().contains(name)
            || has_value(values, name)),
    decreases values.len(),
{
    if values.len() > 0 {
        let before = values.drop_last();
        lemma_values_named(page, before, name);
        if has_value(before, name) {
            let i = choose|i: int| 0 <= i < before.len() && (#[trigger] before[i]).name@ == name;
            assert(values[i].name@ == name);
        }
        if has_value(values, name) {
            let i = choose|i: int| 0 <= i < values.len() && (#[trigger] values[i]).name@ == name;
            if i < before.len() {
                assert(before[i].name@ == name);
            }
        }
        assert(values[values.len() - 1] == values.last());
    }
}

proof fn lemma_enums_named(page: PageView, items: Seq<EnumDoc>, name: Seq<char>)
    ensures
        add_enums(page, items).anchors.dom().contains(name) == (page.anchors.dom().contains(name)
            || has_enum_name(items, name)),
    decreases items.len(),
{
    if items.len() > 0 {
        let before = items.drop_last();
        let last = items.last();
        lemma_enums_named(page, before, name);
        let start = add_decl(
            add_line(add_enums(page, before), ""@),
            "enum "@ + last.name@ + " {"@,
            "enum "@,
            last.name@,
        );
        lemma_values_named(start, last.values@, name);
        if has_enum_name(before, name) {
            let i = choose|i: int|
                0 <= i < before.len() && ((#[trigger] before[i]).name@ == name || has_value(
                    before[i].values@,
                    name,
                ));
            assert(items[i] == before[i]);
        }
        if has_enum_name(items, name) {
            let i = choose|i: int|
                0 <= i < items.len() && ((#[trigger] items[i]).name@ == name || has_value(
                    items[i].values@,
                    name,
                ));
            if i < before.len() {
                assert(before[i] == items[i]);
            }
        }
        assert(items[items.len() - 1] == last);
    }
}

/// The anchors of a class page are those of the class's members and no others: its constants, its
/// enums and their values, its properties, its signals and its methods.
pub proof fn lemma_class_anchors_are_members(class: ClassDoc, name: Seq<char>)
    ensures
        class_page(class).anchors.dom().contains(name) <==> {
            ||| has_member(class.constants@, name)
            ||| has_enum_name(class.enums@, name)
            ||| has_member(class.properties@, name)
            ||| has_member(class.signals@, name)
            ||| has_member(class.methods@, name)
        },
{
    let head = page_head(
        class.brief_description@,
        class.description@,
        class.name@,
        text::opt_string(class.parent),
    );
    let constants = add_members(head, "const "@, class.constants@);
    let enums = add_enums(constants, class.enums@);
    let properties = add_members(enums, "var "@, class.properties@);
    let signals = add_members(properties, "signal "@, class.signals@);
    lemma_members_named(head, "const "@, class.constants@, name);
    lemma_enums_named(constants, class.enums@, name);
    lemma_members_named(enums, "var "@, class.properties@, name);
    lemma_members_named(properties, "signal "@, class.signals@, name);
    lemma_members_named(signals, "func "@, class.methods@, name);
}

/// The anchors of the page of a built-in type are those of the type's members and no others.
pub proof fn lemma_builtin_anchors_are_members(builtin: BuiltinDoc, name: Seq<char>)
    ensures
        builtin_page(builtin).anchors.dom().contains(name) <==> {
            ||| has_member(builtin.constants@, name)
            ||| has_enum_name(builtin.enums@, name)
            ||| has_member(builtin.members@, name)
            ||| has_member(builtin.methods@, name)
        },
{
    let head = page_head(builtin.brief_description@, builtin.description@, builtin.name@, None);
    let constants = add_members(head, "const "@, builtin.constants@);
    let enums = add_enums(constants, builtin.enums@);
    let members = add_members(enums, "var "@, builtin.members@);
    lemma_members_named(head, "const "@, builtin.constants@, name);
    lemma_enums_named(constants, builtin.enums@, name);
    lemma_members_named(enums, "var "@, builtin.members@, name);
    lemma_members_named(members, "func "@, builtin.methods@, name);
}

/// The class header stands on its line, with the class name at its column.
pub proof fn lemma_class_header(class: ClassDoc)
    ensures
        ({
            let line = head_lines(class.brief_description@, class.description@).len() as int;
            let lines = class_page(class).lines;
            &&& line < lines.len()
            &&& lines[line] == "class_name "@ + class.name@
        }),
{
    let head = page_head(
        class.brief_description@,
        class.description@,
        class.name@,
        text::opt_string(class.parent),
    );
    let constants = add_members(head, "const "@, class.constants@);
    let enums = add_enums(constants, class.enums@);
    let properties = add_members(enums, "var "@, class.properties@);
    let signals = add_members(properties, "signal "@, class.signals@);
    lemma_members_extend(head, "const "@, class.constants@, 0);
    lemma_enums_extend(constants, class.enums@, 0);
    lemma_members_extend(enums, "var "@, class.properties@, 0);
    lemma_members_extend(properties, "signal "@, class.signals@, 0);
    lemma_members_extend(signals, "func "@, class.methods@, 0);
    assert(class.constants@.take(0) =~= Seq::<MemberDoc>::empty());
    assert(class.enums@.take(0) =~= Seq::<EnumDoc>::empty());
    assert(class.properties@.take(0) =~= Seq::<MemberDoc>::empty());
    assert(class.signals@.take(0) =~= Seq::<MemberDoc>::empty());
    assert(class.methods@.take(0) =~= Seq::<MemberDoc>::empty());
    let page = class_page(class);
    lemma_prefix_transitive(head.lines, constants.lines, enums.lines);
    lemma_prefix_transitive(head.lines, enums.lines, properties.lines);
    lemma_prefix_transitive(head.lines, properties.lines, signals.lines);
    lemma_prefix_transitive(head.lines, signals.lines, page.lines);
    let line = head_lines(class.brief_description@, class.description@).len() as int;
    assert(page.lines.subrange(0, head.lines.len() as int)[line] == head.lines[line]);
}

/// A line that reads back as it was written.
pub open spec fn plain_line(line: Seq<char>) -> bool {
    &&& forall|i: int| 0 <= i < line.len() ==> #[trigger] line[i] != '\n'
    &&& line.len() > 0 ==> line.last() != '\r'
}

/// The first line of joined lines.
proof fn lemma_joined_front(lines: Seq<Seq<char>>)
    requires
        lines.len() > 0,
    ensures
        joined(lines) == lines[0] + "\n"@ + joined(lines.drop_first()),
    decreases lines.len(),
{
    let init = lines.drop_last();
    if lines.len() == 1 {
        assert(init =~= Seq::<Seq<char>>::empty());
        assert(lines.drop_first() =~= Seq::<Seq<char>>::empty());
        assert(joined(init) =~= Seq::<char>::empty());
        assert(joined(lines.drop_first()) =~= Seq::<char>::empty());
        assert(joined(lines) =~= lines[0] + "\n"@ + joined(lines.drop_first()));
    } else {
        lemma_joined_front(init);
        assert(init.drop_first() =~= lines.drop_first().drop_last());
        assert(lines.drop_first().last() == lines.last());
        assert(joined(lines) =~= lines[0] + "\n"@ + joined(lines.drop_first()));
    }
}

/// The text of a page splits into the page's lines: a line number of an anchor is a line number
/// of the text.
pub proof fn lemma_text_has_lines(lines: Seq<Seq<char>>)
    requires
        forall|i: int| 0 <= i < lines.len() ==> plain_line(#[trigger] lines[i]),
    ensures
        text::lines_of(joined(lines)) == lines,
    decreases lines.len(),
{
    if lines.len() == 0 {
        assert(joined(lines) =~= Seq::<char>::empty());
        assert(text::lines_of(joined(lines)) =~= lines);
    } else {
        let rest = lines.drop_first();
        assert forall|i: int| 0 <= i < rest.len() implies plain_line(#[trigger] rest[i]) by {
            assert(rest[i] == lines[i + 1]);
        }
        lemma_text_has_lines(rest);
        lemma_joined_front(lines);
        reveal_strlit("\n");
        let all = joined(lines);
        let first = lines[0];
        assert(plain_line(first));
        assert(all[first.len() as int] == '\n');
        assert forall|j: int| 0 <= j < first.len() implies all[j] != '\n' by {
            assert(all[j] == first[j]);
        }
        text::lemma_index_of_is(all, '\n', first.len() as int);
        assert(all.take(first.len() as int) =~= first);
        assert(all.skip(first.len() as int + 1) =~= joined(rest));
        assert(seq![first] + rest =~= lines);
    }
}

// ---------------------------------------------------------------------------
// The pages of a session.
// ---------------------------------------------------------------------------

/// What a page is rendered from.
pub enum StubSource {
    Class(ClassDoc),
    Builtin(BuiltinDoc),
}

/// Whether the source fits a page.
pub open spec fn source_fits(source: StubSource) -> bool {
    match source {
        StubSource::Class(class) => class_fits(class),
        StubSource::Builtin(builtin) => builtin_fits(builtin),
    }
}

/// Whether a stub is the page of the source.
pub open spec fn renders_source(stub: RenderedStub, source: StubSource) -> bool {
    match source {
        StubSource::Class(class) => renders(
            stub,
            class_page(class),
            head_lines(class.brief_description@, class.description@).len() as int,
        ),
        StubSource::Builtin(builtin) => renders(
            stub,
            builtin_page(builtin),
            head_lines(builtin.brief_description@, builtin.description@).len() as int,
        ),
    }
}

/// The rendered pages of a session, by class name, each with the content hash of the API dump that
/// it was made from.
pub struct StubCache {
    pages: TextMap<(u64, Rc<RenderedStub>)>,
}

impl View for StubCache {
    type V = Map<Seq<char>, (u64, Rc<RenderedStub>)>;

    closed spec fn view(&self) -> Map<Seq<char>, (u64, Rc<RenderedStub>)> {
        self.pages@
    }
}

/// The pages that were made from the given dump.
pub open spec fn of_dump(
    pages: Map<Seq<char>, (u64, Rc<RenderedStub>)>,
    hash: u64,
) -> Map<Seq<char>, (u64, Rc<RenderedStub>)> {
    Map::new(
        |name: Seq<char>| pages.dom().contains(name) && pages[name].0 == hash,
        |name: Seq<char>| pages[name],
    )
}

/// Whether a page is what a request gives, and the pages are kept as it leaves them: a page of the
/// dump that is there is given again; else the page is rendered, and pages of other dumps go.
pub open spec fn requested(
    before: Map<Seq<char>, (u64, Rc<RenderedStub>)>,
    after: Map<Seq<char>, (u64, Rc<RenderedStub>)>,
    class_name: Seq<char>,
    hash: u64,
    source: StubSource,
    page: Rc<RenderedStub>,
) -> bool {
    if before.dom().contains(class_name) && before[class_name].0 == hash {
        page == before[class_name].1 && after == before
    } else {
        renders_source(*page, source) && after == of_dump(before, hash).insert(
            class_name,
            (hash, page),
        )
    }
}

impl StubCache {
    /// No pages.
    pub fn new() -> (r: StubCache)
        ensures
            r@ == Map::<Seq<char>, (u64, Rc<RenderedStub>)>::empty(),
    {
        StubCache { pages: TextMap::new() }
    }

    /// Keep the pages of one dump.
    fn retain_dump(&mut self, hash: u64)
        ensures
            final(self)@ == of_dump(old(self)@, hash),
    {
        let names = self.pages.keys();
        let ghost before = self@;
        let mut i: usize = 0;
        while i < names.len()
            invariant
                0 <= i <= names@.len(),
                forall|name: Seq<char>|
                    before.dom().contains(name) ==> exists|j: int|
                        0 <= j < names@.len() && (#[trigger] names@[j])@ == name,
                forall|j: int, k: int|
                    0 <= j < k < names@.len() ==> (#[trigger] names@[j])@ != (#[trigger] names@[k])@,
                forall|name: Seq<char>| #[trigger]
                    self@.dom().contains(name) ==> before.dom().contains(name) && self@[name]
                        == before[name],
                forall|name: Seq<char>|
                    before.dom().contains(name) && before[name].0 == hash
                        ==> #[trigger] self@.dom().contains(name),
                forall|j: int|
                    0 <= j < i ==> (self@.dom().contains((#[trigger] names@[j])@)
                        ==> before[names@[j]@].0 == hash),
            decreases names@.len() - i,
        {
            let ghost kept = self@;
            let keep: bool = match self.pages.get(names[i].as_str()) {
                Some(page) => page.0 == hash,
                None => true,
            };
            if !keep {
                let _ = self.pages.remove(names[i].as_str());
                proof {
                    assert(self@ == kept.remove(names@[i as int]@));
                    assert forall|name: Seq<char>| #[trigger]
                        self@.dom().contains(name) implies before.dom().contains(name)
                        && self@[name] == before[name] by {
                        assert(kept.dom().contains(name));
                    }
                    assert forall|name: Seq<char>|
                        before.dom().contains(name) && before[name].0 == hash implies
                        #[trigger] self@.dom().contains(name) by {
                        assert(kept.dom().contains(name));
                    }
                }
            }
            i = i + 1;
        }
        proof {
            let after = of_dump(before, hash);
            assert forall|name: Seq<char>| #[trigger]
                self@.dom().contains(name) implies after.dom().contains(name) by {
                let j = choose|j: int| 0 <= j < names@.len() && (#[trigger] names@[j])@ == name;
                assert(names@[j]@ == name);
            }
            assert(self@ =~= after);
        }
    }

    /// The page of a class, rendered where the session has none of this dump yet. When another
    /// dump has come in, the pages of the earlier one are dropped.
    pub fn page(&mut self, class_name: &str, hash: u64, source: &StubSource) -> (r: Rc<RenderedStub>)
        requires
            source_fits(*source),
        ensures
            requested(old(self)@, final(self)@, class_name@, hash, *source, r),
    {
        if let Some(page) = self.pages.get(class_name) {
            if page.0 == hash {
                return page.1.clone();
            }
        }
        self.retain_dump(hash);
        let rendered = match source {
            StubSource::Class(class) => render(class),
            StubSource::Builtin(builtin) => render_builtin(builtin),
        };
        let stub = Rc::new(rendered);
        let _ = self.pages.insert(class_name.to_owned(), (hash, stub.clone()));
        stub
    }
}

/// Every page of a well-kept session is of one dump: after any request, the dump of that request.
pub proof fn lemma_one_dump(
    pages: Map<Seq<char>, (u64, Rc<RenderedStub>)>,
    hash: u64,
    name: Seq<char>,
    stub: Rc<RenderedStub>,
    other: Seq<char>,
)
    requires
        of_dump(pages, hash).insert(name, (hash, stub)).dom().contains(other),
    ensures
        of_dump(pages, hash).insert(name, (hash, stub))[other].0 == hash,
{
}

// ---------------------------------------------------------------------------
// Where pages are kept.
// ---------------------------------------------------------------------------

/// A letter of the alphabet or an underscore.
pub open spec fn identifier_start(c: char) -> bool {
    ('a' <= c <= 'z') || ('A' <= c <= 'Z') || c == '_'
}

/// A letter, an underscore or a digit.
pub open spec fn identifier_part(c: char) -> bool {
    identifier_start(c) || ('0' <= c <= '9')
}

/// A name of letters, digits and underscores that does not begin with a digit.
pub open spec fn identifier(name: Seq<char>) -> bool {
    &&& name.len() > 0
    &&& identifier_start(name[0])
    &&& forall|i: int| 0 <= i < name.len() ==> identifier_part(#[trigger] name[i])
}

/// Whether a name may become a file name.
pub fn is_identifier_shaped(name: &str) -> (r: bool)
    ensures
        r == identifier(name@),
{
    let chars = chars_of(name);
    if chars.len() == 0 {
        return false;
    }
    let first: char = chars[0];
    if !(('a' <= first && first <= 'z') || ('A' <= first && first <= 'Z') || first == '_') {
        return false;
    }
    let mut i: usize = 0;
    while i < chars.len()
        invariant
            chars@ == name@,
            0 <= i <= chars@.len(),
            forall|j: int| 0 <= j < i ==> identifier_part(#[trigger] chars@[j]),
        decreases chars@.len() - i,
    {
        let c: char = chars[i];
        if !(('a' <= c && c <= 'z') || ('A' <= c && c <= 'Z') || c == '_' || ('0' <= c && c
            <= '9')) {
            proof {
                assert(!identifier_part(name@[i as int]));
            }
            return false;
        }
        i = i + 1;
    }
    true
}

/// A value of the environment that is set and not empty.
fn set_value<'a>(value: Option<&'a str>) -> (r: Option<&'a str>)
    ensures
        r is Some == (value matches Some(text) && text@.len() > 0),
        r is Some ==> r == value,
{
    match value {
        Some(text) => if text.is_empty() {
            None
        } else {
            Some(text)
        },
        None => None,
    }
}

/// Whether a value of the environment is set and not empty.
pub open spec fn is_set(value: Option<&str>) -> bool {
    value matches Some(text) && text@.len() > 0
}

/// The cache directory of the user: `LOCALAPPDATA` on Windows, elsewhere `XDG_CACHE_HOME`, or
/// `.cache` under `HOME`. `None` when the environment has none of them.
pub fn user_cache_root(
    windows: bool,
    local_app_data: Option<&str>,
    xdg_cache_home: Option<&str>,
    home: Option<&str>,
) -> (r: Option<String>)
    ensures
        r is Some == (if windows {
            is_set(local_app_data)
        } else {
            is_set(xdg_cache_home) || is_set(home)
        }),
        ({
            let base = if windows {
                local_app_data
            } else {
                xdg_cache_home
            };
            is_set(base) ==> path::reads_join(base->0@, "gdls"@, r->0@)
        }),
        !windows && !is_set(xdg_cache_home) && is_set(home) ==> exists|cache: Seq<char>| #[trigger]
            path::reads_join(home->0@, ".cache"@, cache) && path::reads_join(
                cache,
                "gdls"@,
                r->0@,
            ),
        ({
            let base = if windows {
                local_app_data
            } else {
                xdg_cache_home
            };
            is_set(base) && !path::drive_alone(base->0@) ==> !path::drive_alone(r->0@) && path::parts(
                r->0@,
            ) == path::parts(base->0@).push("gdls"@)
        }),
        !windows && !is_set(xdg_cache_home) && is_set(home) && !path::drive_alone(home->0@)
            ==> !path::drive_alone(r->0@) && path::parts(r->0@) == path::parts(home->0@).push(
            ".cache"@,
        ).push("gdls"@),
{
    proof {
        reveal_strlit("gdls");
        reveal_strlit(".cache");
        reveal_strlit(".");
        reveal_strlit("..");
        assert(".cache"@.len() != "."@.len() && ".cache"@.len() != ".."@.len());
        assert("gdls"@.len() != "."@.len() && "gdls"@.len() != ".."@.len());
        assert(path::plain_name("gdls"@));
        assert(path::plain_name(".cache"@));
    }
    if windows {
        return match set_value(local_app_data) {
            Some(base) => Some(path_join(base, "gdls")),
            None => None,
        };
    }
    match set_value(xdg_cache_home) {
        Some(base) => Some(path_join(base, "gdls")),
        None => match set_value(home) {
            Some(home) => {
                let cache = path_join(home, ".cache");
                proof {
                    assert(path::reads_join(home@, ".cache"@, cache@));
                }
                Some(path_join(cache.as_str(), "gdls"))
            },
            None => None,
        },
    }
}

/// The directory that holds the pages of every dump. A configured root stands in for the user's
/// cache directory.
pub fn stubs_base_dir(override_root: Option<&str>, user_root: Option<&str>) -> (r: Option<String>)
    ensures
        r is Some == (override_root is Some || user_root is Some),
        ({
            let root = if override_root is Some {
                override_root
            } else {
                user_root
            };
            root is Some ==> path::reads_join(root->0@, "stubs"@, r->0@)
        }),
        ({
            let root = if override_root is Some {
                override_root
            } else {
                user_root
            };
            root is Some && !path::drive_alone(root->0@) ==> !path::drive_alone(r->0@) && path::parts(
                r->0@,
            ) == path::parts(root->0@).push("stubs"@)
        }),
{
    proof {
        reveal_strlit("stubs");
        reveal_strlit(".");
        reveal_strlit("..");
        assert("stubs"@.len() != "."@.len() && "stubs"@.len() != ".."@.len());
        assert(path::plain_name("stubs"@));
    }
    match override_root {
        Some(root) => Some(path_join(root, "stubs")),
        None => match user_root {
            Some(root) => Some(path_join(root, "stubs")),
            None => None,
        },
    }
}

/// The name of the directory that holds the pages of a dump.
pub open spec fn stub_dir_name(hash: u64) -> Seq<char> {
    "v1-"@ + numbers::hex_text(hash as nat, 16)
}

proof fn lemma_hex_plain(n: nat, width: nat)
    ensures
        numbers::hex_text(n, width).len() == width,
        forall|i: int|
            0 <= i < width ==> ('0' <= #[trigger] numbers::hex_text(n, width)[i] <= '9') || ('a'
                <= numbers::hex_text(n, width)[i] <= 'f'),
    decreases width,
{
    if width > 0 {
        lemma_hex_plain(n / 16, (width - 1) as nat);
        let text = numbers::hex_text(n, width);
        let digit = n as int % 16;
        assert forall|i: int| 0 <= i < width implies ('0' <= #[trigger] text[i] <= '9') || ('a'
            <= text[i] <= 'f') by {
            if i < width - 1 {
                assert(text[i] == numbers::hex_text(n / 16, (width - 1) as nat)[i]);
            } else {
                assert(text[i] == numbers::hex_char(digit));
            }
        }
    }
}

proof fn lemma_dir_name_plain(hash: u64)
    ensures
        path::plain_name(stub_dir_name(hash)),
{
    reveal_strlit("v1-");
    reveal_strlit(".");
    reveal_strlit("..");
    lemma_hex_plain(hash as nat, 16);
    let name = stub_dir_name(hash);
    let digits = numbers::hex_text(hash as nat, 16);
    assert(name.len() == 19);
    assert forall|i: int| 0 <= i < name.len() implies #[trigger] name[i] != '/' && name[i] != '\\'
        && name[i] != ':' by {
        if i >= 3 {
            assert(name[i] == digits[i - 3]);
        } else {
            assert(name[i] == "v1-"@[i]);
        }
    }
}

proof fn lemma_file_name_plain(name: Seq<char>)
    requires
        identifier(name),
    ensures
        path::plain_name(name + ".gd"@),
        path::plain_name("."@ + name + ".gd.tmp"@),
{
    reveal_strlit(".");
    reveal_strlit("..");
    reveal_strlit(".gd");
    reveal_strlit(".gd.tmp");
    let page = name + ".gd"@;
    let temporary = "."@ + name + ".gd.tmp"@;
    assert(page.len() == name.len() + 3 && temporary.len() == name.len() + 8);
    assert forall|i: int| 0 <= i < page.len() implies #[trigger] page[i] != '/' && page[i] != '\\'
        && page[i] != ':' by {
        if i < name.len() {
            assert(identifier_part(name[i]));
        } else {
            assert(page[i] == ".gd"@[i - name.len()]);
        }
    }
    assert forall|i: int| 0 <= i < temporary.len() implies #[trigger] temporary[i] != '/'
        && temporary[i] != '\\' && temporary[i] != ':' by {
        if i == 0 {
            assert(temporary[i] == "."@[0]);
        } else if i <= name.len() {
            assert(temporary[i] == name[i - 1]);
            assert(identifier_part(name[i - 1]));
        } else {
            assert(temporary[i] == ".gd.tmp"@[i - 1 - name.len()]);
        }
    }
}

/// The directory of a dump's pages.
pub fn stub_dir(base: &str, hash: u64) -> (r: String)
    ensures
        path::reads_join(base@, stub_dir_name(hash), r@),
        !path::drive_alone(base@) ==> !path::drive_alone(r@) && path::parts(r@) == path::parts(
            base@,
        ).push(stub_dir_name(hash)),
        path::joinable(base@) ==> path::joinable(r@) && path::slashed(r@) == path::with_name(
            path::slashed(base@),
            stub_dir_name(hash),
        ),
{
    let mut name: String = "v1-".to_owned();
    name.append(hex(hash, 16).as_str());
    proof {
        lemma_dir_name_plain(hash);
    }
    path_join(base, name.as_str())
}

/// Where the page of a class is kept, and where it is written before it is moved there.
pub struct StubLocation {
    pub dir: String,
    pub page: String,
    pub temporary: String,
}

/// The place of a class's page, in slashes.
pub open spec fn page_place(class_name: Seq<char>, hash: u64, base: Seq<char>) -> Seq<char> {
    path::with_name(
        path::with_name(path::slashed(base), stub_dir_name(hash)),
        class_name + ".gd"@,
    )
}

/// Whether a location is that of a class's page. There is none for a name that is no identifier,
/// for a class that the dump does not have, and where there is no base directory.
pub open spec fn located(
    location: Option<StubLocation>,
    class_name: Seq<char>,
    known: bool,
    hash: u64,
    base: Option<Seq<char>>,
) -> bool {
    &&& location is Some == (identifier(class_name) && known && base is Some)
    &&& location is Some ==> {
        let dir = location->0.dir@;
        &&& path::reads_join(base->0, stub_dir_name(hash), dir)
        &&& path::reads_join(dir, class_name + ".gd"@, location->0.page@)
        &&& path::reads_join(dir, "."@ + class_name + ".gd.tmp"@, location->0.temporary@)
    }
    &&& location is Some && !path::drive_alone(base->0) ==> {
        let dir = path::parts(base->0).push(stub_dir_name(hash));
        &&& path::parts(location->0.dir@) == dir
        &&& path::parts(location->0.page@) == dir.push(class_name + ".gd"@)
        &&& path::parts(location->0.temporary@) == dir.push("."@ + class_name + ".gd.tmp"@)
    }
    &&& location is Some && path::joinable(base->0) ==> path::slashed(location->0.page@)
        == page_place(class_name, hash, base->0)
}

/// Where the page of a class is kept. The page is a file of its dump's directory, whatever the name.
pub fn stub_location(class_name: &str, known: bool, hash: u64, base: Option<&str>) -> (r: Option<
    StubLocation,
>)
    ensures
        located(r, class_name@, known, hash, text::opt_str(base)),
{
    if !is_identifier_shaped(class_name) || !known {
        return None;
    }
    match base {
        Some(base) => {
            let dir = stub_dir(base, hash);
            let mut page_name: String = class_name.to_owned();
            page_name.append(".gd");
            let mut temporary_name: String = ".".to_owned();
            temporary_name.append(class_name);
            temporary_name.append(".gd.tmp");
            proof {
                lemma_file_name_plain(class_name@);
            }
            let page = path_join(dir.as_str(), page_name.as_str());
            let temporary = path_join(dir.as_str(), temporary_name.as_str());
            Some(StubLocation { dir, page, temporary })
        },
        None => None,
    }
}

/// What is to be written to the place of a page.
pub open spec fn written_text(present: bool, page: Seq<char>) -> Option<Seq<char>> {
    if present {
        None
    } else {
        Some(page)
    }
}

/// What is to be written to the place of a page: its text, and nothing where a page is there.
pub fn text_to_write<'a>(present: bool, stub: &'a RenderedStub) -> (r: Option<&'a str>)
    ensures
        text::opt_str(r) == written_text(present, stub.text@),
{
    if present {
        None
    } else {
        Some(stub.text.as_str())
    }
}

/// What the place of a page holds after a page was served from it: what it held, or the page.
pub open spec fn file_after(content: Option<Seq<char>>, stub: RenderedStub) -> Seq<char> {
    match content {
        Some(content) => content,
        None => stub.text@,
    }
}

/// A second request for a page, of the same dump and the same base directory, gives the same page
/// from the same place, and leaves the cache and the file alone: the file holds the page's text.
pub proof fn lemma_second_request_reuses(
    before: Map<Seq<char>, (u64, Rc<RenderedStub>)>,
    between: Map<Seq<char>, (u64, Rc<RenderedStub>)>,
    after: Map<Seq<char>, (u64, Rc<RenderedStub>)>,
    class_name: Seq<char>,
    hash: u64,
    source: StubSource,
    base: Seq<char>,
    first: Rc<RenderedStub>,
    second: Rc<RenderedStub>,
    here: Option<StubLocation>,
    again: Option<StubLocation>,
)
    requires
        requested(before, between, class_name, hash, source, first),
        requested(between, after, class_name, hash, source, second),
        located(here, class_name, true, hash, Some(base)),
        located(again, class_name, true, hash, Some(base)),
    ensures
        second == first,
        after == between,
        again is Some == here is Some,
        here is Some && !path::drive_alone(base) ==> path::parts(again->0.page@) == path::parts(
            here->0.page@,
        ),
        here is Some && path::joinable(base) ==> path::slashed(again->0.page@) == path::slashed(
            here->0.page@,
        ),
        file_after(Some(file_after(None, *first)), *second) == first.text@,
{
}

/// A session that has rendered no page yet renders the text that another session put on disk.
pub proof fn lemma_sessions_render_alike(
    one: RenderedStub,
    two: RenderedStub,
    source: StubSource,
)
    requires
        renders_source(one, source),
        renders_source(two, source),
    ensures
        two.text@ == one.text@,
        two.class_line == one.class_line,
        two.class_name_col == one.class_name_col,
        two.member_lines@ == one.member_lines@,
        file_after(Some(file_after(None, one)), two) == two.text@,
{
}

/// How the page came to its place on disk.
#[derive(Debug, Clone, Copy, PartialEq, Eq, Structural)]
pub enum PageWrite {
    /// It was there already and is not written again.
    Present,
    /// The temporary file could not be written.
    WriteFailed,
    /// It was written and moved to its place.
    Moved,
    /// It could not be moved. Another session may have put the same page there meanwhile.
    MoveFailed { present_now: bool },
}

/// Whether the page can be served.
pub open spec fn can_be_served(outcome: PageWrite) -> bool {
    match outcome {
        PageWrite::Present => true,
        PageWrite::WriteFailed => false,
        PageWrite::Moved => true,
        PageWrite::MoveFailed { present_now } => present_now,
    }
}

/// Whether the page can be served. A page that another session has put there is as good.
pub fn page_served(outcome: PageWrite) -> (r: bool)
    ensures
        r == can_be_served(outcome),
{
    match outcome {
        PageWrite::Present => true,
        PageWrite::WriteFailed => false,
        PageWrite::Moved => true,
        PageWrite::MoveFailed { present_now } => present_now,
    }
}

/// Whether a path lies under the base directory. On Windows the case of letters does not matter.
pub open spec fn under_base(path: Seq<char>, base: Seq<char>, windows: bool) -> bool {
    ||| path::within(path, base)
    ||| windows && path::within(text::lowered(path), text::lowered(base))
}

proof fn lemma_lowered_index(path: Seq<char>)
    ensures
        text::index_of(text::lowered(path), '/') == text::index_of(path, '/'),
    decreases path.len(),
{
    if path.len() > 0 && path[0] != '/' {
        lemma_lowered_index(path.drop_first());
        assert(text::lowered(path).drop_first() =~= text::lowered(path.drop_first()));
    }
}

proof fn lemma_lowered_segments(path: Seq<char>)
    ensures
        path::segments(text::lowered(path)).len() == path::segments(path).len(),
        forall|i: int|
            0 <= i < path::segments(path).len() ==> #[trigger] path::segments(
                text::lowered(path),
            )[i] == text::lowered(path::segments(path)[i]),
    decreases path.len(),
{
    let low = text::lowered(path);
    let slash = text::index_of(path, '/');
    text::lemma_index_of(path, '/');
    lemma_lowered_index(path);
    if slash < path.len() {
        let rest = path.skip(slash + 1);
        lemma_lowered_segments(rest);
        assert(low.take(slash) =~= text::lowered(path.take(slash)));
        assert(low.skip(slash + 1) =~= text::lowered(rest));
    }
}

proof fn lemma_filter_len(a: Seq<Seq<char>>, b: Seq<Seq<char>>, keep: spec_fn(Seq<char>) -> bool)
    requires
        a.len() == b.len(),
        forall|i: int| 0 <= i < a.len() ==> keep(#[trigger] a[i]) == keep(b[i]),
    ensures
        a.filter(keep).len() == b.filter(keep).len(),
    decreases a.len(),
{
    reveal(Seq::filter);
    if a.len() > 0 {
        let rest = a.drop_last();
        assert forall|i: int| 0 <= i < rest.len() implies keep(#[trigger] rest[i]) == keep(
            b.drop_last()[i],
        ) by {
            assert(keep(a[i]) == keep(b[i]));
        }
        lemma_filter_len(rest, b.drop_last(), keep);
        assert(keep(a[a.len() - 1]) == keep(b[b.len() - 1]));
    }
}

proof fn lemma_lowered_portable(path: Seq<char>)
    requires
        path::portable(path),
    ensures
        path::portable(text::lowered(path)),
{
    let low = text::lowered(path);
    let keep = |part: Seq<char>| part.len() > 0 && part != "."@;
    lemma_lowered_segments(path);
    assert forall|i: int| 0 <= i < path::segments(low).len() implies keep(
        #[trigger] path::segments(low)[i],
    ) == keep(path::segments(path)[i]) by {
        let part = path::segments(path)[i];
        reveal_strlit(".");
        if text::lowered(part) =~= "."@ {
            assert(text::lowered(part)[0] == '.');
            assert(part =~= "."@);
        }
        if part =~= "."@ {
            assert(text::lowered(part) =~= "."@);
        }
    }
    lemma_filter_len(path::segments(low), path::segments(path), keep);
    assert(low[0] == text::ascii_lower(path[0]));
    if path.len() > 1 {
        assert(low[1] == text::ascii_lower(path[1]));
    }
    if path.len() > 2 {
        assert(low[2] == text::ascii_lower(path[2]));
    }
    assert forall|i: int| 0 <= i < low.len() implies #[trigger] low[i] != '\\' by {
        assert(path[i] != '\\');
    }
}

/// Whether that is what a system makes of a path being under the base directory of pages: as the
/// two are spelled, and on Windows else in lower case.
pub open spec fn reads_under_base(
    path: Seq<char>,
    base: Seq<char>,
    windows: bool,
    r: bool,
) -> bool {
    ||| r && path::reads_within(path, base, true)
    ||| !windows && !r && path::reads_within(path, base, false)
    ||| windows && path::reads_within(path, base, false) && path::reads_within(
        text::lowered(path),
        text::lowered(base),
        r,
    )
}

/// Whether a URI points under the base directory of pages: such a buffer is a documentation page,
/// and gets no diagnostics.
pub fn is_stub_uri(uri: &Uri, base: Option<&str>, windows: bool) -> (r: bool)
    ensures
        base is None || uri::uri_path(uri@, windows) is None ==> !r,
        base is Some && uri::uri_path(uri@, windows) is Some ==> reads_under_base(
            uri::uri_path(uri@, windows)->0,
            base->0@,
            windows,
            r,
        ),
        base is Some && uri::uri_path(uri@, windows) is Some && path::comparable(
            uri::uri_path(uri@, windows)->0,
            base->0@,
        ) ==> r == under_base(uri::uri_path(uri@, windows)->0, base->0@, windows),
{
    match base {
        Some(base) => match uri_to_path(uri, windows) {
            Some(path) => {
                if path_starts_with(path.as_str(), base) {
                    return true;
                }
                proof {
                    if path::comparable(path@, base@) {
                        lemma_lowered_portable(path@);
                        lemma_lowered_portable(base@);
                    }
                }
                windows && path_starts_with(to_lower(path.as_str()).as_str(), to_lower(base).as_str())
            },
            None => false,
        },
        None => false,
    }
}

// ---------------------------------------------------------------------------
// Collecting old pages.
// ---------------------------------------------------------------------------

/// How long a directory may go untouched, in nanoseconds: thirty days.
pub const STALE_AFTER_NANOS: i128 = 2_592_000_000_000_000;

/// The layout version that a directory's name begins with: `v`, a number, `-`.
pub open spec fn dir_version(name: Seq<char>) -> Option<u32> {
    if name.len() == 0 || name[0] != 'v' {
        None
    } else {
        let rest = name.skip(1);
        let dash = text::index_of(rest, '-');
        if dash == rest.len() {
            None
        } else {
            numbers::parsed_u32(rest.take(dash))
        }
    }
}

/// Whether a directory's name is of an earlier layout.
fn is_old_version(name: &str) -> (r: bool)
    ensures
        r == (dir_version(name@) matches Some(version) && version < STUB_FORMAT_VERSION),
{
    let chars = chars_of(name);
    if chars.len() == 0 || chars[0] != 'v' {
        return false;
    }
    let dash: usize = find_from(&chars, 1, '-');
    if dash == chars.len() {
        return false;
    }
    let number = text_of(&chars, 1, dash);
    proof {
        assert(number@ =~= name@.skip(1).take(dash - 1));
    }
    match parse_u32(number.as_str()) {
        Some(version) => version < STUB_FORMAT_VERSION,
        None => false,
    }
}

/// The later of two times, or the one that is known.
pub open spec fn freshness(dir_mtime: Option<i128>, touch_mtime: Option<i128>) -> Option<i128> {
    match (dir_mtime, touch_mtime) {
        (Some(dir), Some(touch)) => Some(
            if dir < touch {
                touch
            } else {
                dir
            },
        ),
        (Some(dir), None) => Some(dir),
        (None, touch) => touch,
    }
}

/// Whether the newest sign of life is more than thirty days old. A time in the future is not old.
pub open spec fn stale_by_age(fresh: Option<i128>, now: i128) -> bool {
    fresh matches Some(at) && now - at > STALE_AFTER_NANOS
}

/// Whether a directory of pages is collected.
pub open spec fn collected(
    name: Seq<char>,
    is_dir: bool,
    is_current: bool,
    dir_mtime: Option<i128>,
    touch_mtime: Option<i128>,
    now: i128,
) -> bool {
    is_dir && !is_current && ((dir_version(name) matches Some(version) && version
        < STUB_FORMAT_VERSION) || stale_by_age(freshness(dir_mtime, touch_mtime), now))
}

/// Whether a directory beside the current one is collected: one of an earlier layout always, any
/// other when it was not touched for thirty days. Times are in nanoseconds.
pub fn collects(
    name: &str,
    is_dir: bool,
    is_current: bool,
    dir_mtime: Option<i128>,
    touch_mtime: Option<i128>,
    now: i128,
) -> (r: bool)
    ensures
        r == collected(name@, is_dir, is_current, dir_mtime, touch_mtime, now),
{
    if !is_dir || is_current {
        return false;
    }
    let fresh: Option<i128> = match (dir_mtime, touch_mtime) {
        (Some(dir), Some(touch)) => if dir < touch {
            Some(touch)
        } else {
            Some(dir)
        },
        (Some(dir), None) => Some(dir),
        (None, touch) => touch,
    };
    let stale: bool = match fresh {
        Some(at) => match now.checked_sub(at) {
            Some(age) => age > STALE_AFTER_NANOS,
            None => now > at,
        },
        None => false,
    };
    is_old_version(name) || stale
}

/// A directory of the current layout that shows a sign of life within thirty days is kept: it may
/// belong to a live session.
pub proof fn lemma_live_dir_kept(
    hash: u64,
    dir_mtime: Option<i128>,
    touch_mtime: Option<i128>,
    now: i128,
)
    requires
        (dir_mtime matches Some(at) && now - at <= STALE_AFTER_NANOS) || (
        touch_mtime matches Some(at) && now - at <= STALE_AFTER_NANOS),
    ensures
        dir_version(stub_dir_name(hash)) == Some(STUB_FORMAT_VERSION),
        !stale_by_age(freshness(dir_mtime, touch_mtime), now),
{
    reveal_strlit("v1-");
    lemma_hex_plain(hash as nat, 16);
    let name = stub_dir_name(hash);
    let rest = name.skip(1);
    assert(rest[0] == "v1-"@[1] && rest[1] == "v1-"@[2]);
    text::lemma_index_of_is(rest, '-', 1);
    let number = rest.take(1);
    assert(number =~= seq!['1']);
    assert(number.drop_last() =~= Seq::<char>::empty());
    assert(numbers::digits_value(number.drop_last()) == 0);
    assert(numbers::digits_value(number) == 1);
}

/// The once-per-session collection of old directories.
pub struct CollectOnce {
    pub done: bool,
}

impl CollectOnce {
    /// Whether the collection is to run now. It runs once.
    pub fn take(&mut self) -> (r: bool)
        ensures
            r == !old(self).done,
            final(self).done,
    {
        let due: bool = !self.done;
        self.done = true;
        due
    }
}

// ---------------------------------------------------------------------------
// Laws of what stands on a page.
// ---------------------------------------------------------------------------

/// A line of a docstring as it stands on a page.
pub open spec fn commented(line: Seq<char>) -> Seq<char> {
    if line.len() == 0 {
        "##"@
    } else {
        "## "@ + line
    }
}

/// Whether a docstring stands on a page from a line on, each of its lines commented out.
pub open spec fn doc_stands(lines: Seq<Seq<char>>, at: int, doc: Seq<char>) -> bool {
    &&& 0 <= at
    &&& at + text::lines_of(doc).len() <= lines.len()
    &&& forall|i: int|
        #![trigger text::lines_of(doc)[i]]
        0 <= i < text::lines_of(doc).len() ==> lines[at + i] == commented(text::lines_of(doc)[i])
}

/// Whether a member stands on a page from a line on: an empty line, its docstring, its declaration.
pub open spec fn member_stands(lines: Seq<Seq<char>>, at: int, member: MemberDoc) -> bool {
    let count = text::lines_of(member.doc@).len();
    &&& 0 <= at
    &&& at + 2 + count <= lines.len()
    &&& lines[at] == Seq::<char>::empty()
    &&& doc_stands(lines, at + 1, member.doc@)
    &&& lines[at + 1 + count] == member.decl@
}

/// How many lines members take.
pub open spec fn members_len(members: Seq<MemberDoc>) -> int
    decreases members.len(),
{
    if members.len() == 0 {
        0
    } else {
        members_len(members.drop_last()) + 2 + text::lines_of(members.last().doc@).len()
    }
}

/// Whether an enum value stands on a page from a line on: its docstring, then `name = value,` behind
/// a tab.
pub open spec fn value_stands(lines: Seq<Seq<char>>, at: int, value: EnumValueDoc) -> bool {
    let count = text::lines_of(value.doc@).len();
    &&& 0 <= at
    &&& at + 1 + count <= lines.len()
    &&& doc_stands(lines, at, value.doc@)
    &&& lines[at + count] == "\t"@ + value.name@ + " = "@ + numbers::signed_text(
        value.value as int,
    ) + ","@
}

/// How many lines enum values take.
pub open spec fn values_len(values: Seq<EnumValueDoc>) -> int
    decreases values.len(),
{
    if values.len() == 0 {
        0
    } else {
        values_len(values.drop_last()) + 1 + text::lines_of(values.last().doc@).len()
    }
}

/// Whether an enum stands on a page from a line on: an empty line, `enum name {`, its values in
/// their order, and `}`.
pub open spec fn enum_stands(lines: Seq<Seq<char>>, at: int, item: EnumDoc) -> bool {
    &&& 0 <= at
    &&& at + 3 + values_len(item.values@) <= lines.len()
    &&& lines[at] == Seq::<char>::empty()
    &&& lines[at + 1] == "enum "@ + item.name@ + " {"@
    &&& forall|i: int|
        #![trigger item.values@[i]]
        0 <= i < item.values@.len() ==> value_stands(
            lines,
            at + 2 + values_len(item.values@.take(i)),
            item.values@[i],
        )
    &&& lines[at + 2 + values_len(item.values@)] == "}"@
}

/// How many lines enums take.
pub open spec fn enums_len(items: Seq<EnumDoc>) -> int
    decreases items.len(),
{
    if items.len() == 0 {
        0
    } else {
        enums_len(items.drop_last()) + 3 + values_len(items.last().values@)
    }
}

proof fn lemma_doc_stands(page: PageView, doc: Seq<char>)
    ensures
        doc_stands(add_lines(page, doc_comment(doc)).lines, page.lines.len() as int, doc),
        doc_comment(doc).len() == text::lines_of(doc).len(),
{
}

proof fn lemma_doc_stays(lines: Seq<Seq<char>>, longer: Seq<Seq<char>>, at: int, doc: Seq<char>)
    requires
        lines.is_prefix_of(longer),
        doc_stands(lines, at, doc),
    ensures
        doc_stands(longer, at, doc),
{
    assert forall|i: int|
        #![trigger text::lines_of(doc)[i]]
        0 <= i < text::lines_of(doc).len() implies longer[at + i] == commented(
        text::lines_of(doc)[i],
    ) by {
        assert(lines[at + i] == longer.subrange(0, lines.len() as int)[at + i]);
    }
}

proof fn lemma_member_stays(
    lines: Seq<Seq<char>>,
    longer: Seq<Seq<char>>,
    at: int,
    member: MemberDoc,
)
    requires
        lines.is_prefix_of(longer),
        member_stands(lines, at, member),
    ensures
        member_stands(longer, at, member),
{
    let count = text::lines_of(member.doc@).len();
    lemma_doc_stays(lines, longer, at + 1, member.doc@);
    assert(lines[at] == longer.subrange(0, lines.len() as int)[at]);
    assert(lines[at + 1 + count] == longer.subrange(0, lines.len() as int)[at + 1 + count]);
}

proof fn lemma_value_stays(
    lines: Seq<Seq<char>>,
    longer: Seq<Seq<char>>,
    at: int,
    value: EnumValueDoc,
)
    requires
        lines.is_prefix_of(longer),
        value_stands(lines, at, value),
    ensures
        value_stands(longer, at, value),
{
    let count = text::lines_of(value.doc@).len();
    lemma_doc_stays(lines, longer, at, value.doc@);
    assert(lines[at + count] == longer.subrange(0, lines.len() as int)[at + count]);
}

proof fn lemma_enum_stays(lines: Seq<Seq<char>>, longer: Seq<Seq<char>>, at: int, item: EnumDoc)
    requires
        lines.is_prefix_of(longer),
        enum_stands(lines, at, item),
    ensures
        enum_stands(longer, at, item),
{
    let cut = longer.subrange(0, lines.len() as int);
    lemma_values_len(item.values@);
    assert(lines[at] == cut[at]);
    assert(lines[at + 1] == cut[at + 1]);
    let end = at + 2 + values_len(item.values@);
    assert(lines[end] == cut[end]);
    assert forall|i: int|
        #![trigger item.values@[i]]
        0 <= i < item.values@.len() implies value_stands(
        longer,
        at + 2 + values_len(item.values@.take(i)),
        item.values@[i],
    ) by {
        lemma_value_stays(
            lines,
            longer,
            at + 2 + values_len(item.values@.take(i)),
            item.values@[i],
        );
    }
}

proof fn lemma_values_len(values: Seq<EnumValueDoc>)
    ensures
        values_len(values) >= 0,
    decreases values.len(),
{
    if values.len() > 0 {
        lemma_values_len(values.drop_last());
    }
}

proof fn lemma_members_stand(page: PageView, prefix: Seq<char>, members: Seq<MemberDoc>)
    ensures
        ({
            let after = add_members(page, prefix, members);
            &&& after.lines.len() == page.lines.len() + members_len(members)
            &&& page.lines.is_prefix_of(after.lines)
            &&& forall|i: int|
                #![trigger members[i]]
                0 <= i < members.len() ==> member_stands(
                    after.lines,
                    page.lines.len() + members_len(members.take(i)),
                    members[i],
                )
        }),
    decreases members.len(),
{
    let after = add_members(page, prefix, members);
    if members.len() == 0 {
        assert(page.lines =~= after.lines.subrange(0, page.lines.len() as int));
    } else {
        let before = members.drop_last();
        let last = members.last();
        let so_far = add_members(page, prefix, before);
        lemma_members_stand(page, prefix, before);
        lemma_member_extends(so_far, prefix, last);
        lemma_prefix_transitive(page.lines, so_far.lines, after.lines);
        let blank = add_line(so_far, ""@);
        let noted = add_lines(blank, doc_comment(last.doc@));
        reveal_strlit("");
        lemma_doc_stands(blank, last.doc@);
        assert(noted.lines =~= after.lines.subrange(0, noted.lines.len() as int));
        lemma_doc_stays(noted.lines, after.lines, blank.lines.len() as int, last.doc@);
        assert(after.lines[so_far.lines.len() as int] == ""@);
        assert(""@ =~= Seq::<char>::empty());
        assert(member_stands(after.lines, so_far.lines.len() as int, last));
        assert forall|i: int|
            #![trigger members[i]]
            0 <= i < members.len() implies member_stands(
            after.lines,
            page.lines.len() + members_len(members.take(i)),
            members[i],
        ) by {
            if i < before.len() {
                assert(before[i] == members[i]);
                assert(before.take(i) =~= members.take(i));
                lemma_member_stays(
                    so_far.lines,
                    after.lines,
                    page.lines.len() + members_len(members.take(i)),
                    members[i],
                );
            } else {
                assert(members.take(i) =~= before);
            }
        }
    }
}

#[verifier::spinoff_prover]
#[verifier::rlimit(60)]
proof fn lemma_values_stand(page: PageView, values: Seq<EnumValueDoc>)
    ensures
        ({
            let after = add_values(page, values);
            &&& after.lines.len() == page.lines.len() + values_len(values)
            &&& page.lines.is_prefix_of(after.lines)
            &&& forall|i: int|
                #![trigger values[i]]
                0 <= i < values.len() ==> value_stands(
                    after.lines,
                    page.lines.len() + values_len(values.take(i)),
                    values[i],
                )
        }),
    decreases values.len(),
{
    let after = add_values(page, values);
    if values.len() == 0 {
        assert(page.lines =~= after.lines.subrange(0, page.lines.len() as int));
    } else {
        let before = values.drop_last();
        let last = values.last();
        let so_far = add_values(page, before);
        lemma_values_stand(page, before);
        lemma_value_extends(so_far, last);
        lemma_prefix_transitive(page.lines, so_far.lines, after.lines);
        let noted = add_lines(so_far, doc_comment(last.doc@));
        lemma_doc_stands(so_far, last.doc@);
        assert(noted.lines =~= after.lines.subrange(0, noted.lines.len() as int));
        lemma_doc_stays(noted.lines, after.lines, so_far.lines.len() as int, last.doc@);
        assert(value_stands(after.lines, so_far.lines.len() as int, last));
        assert forall|i: int|
            #![trigger values[i]]
            0 <= i < values.len() implies value_stands(
            after.lines,
            page.lines.len() + values_len(values.take(i)),
            values[i],
        ) by {
            if i < before.len() {
                assert(before[i] == values[i]);
                assert(before.take(i) =~= values.take(i));
                lemma_value_stays(
                    so_far.lines,
                    after.lines,
                    page.lines.len() + values_len(values.take(i)),
                    values[i],
                );
            } else {
                assert(values.take(i) =~= before);
            }
        }
    }
}

#[verifier::spinoff_prover]
#[verifier::rlimit(60)]
proof fn lemma_enum_stands(page: PageView, item: EnumDoc)
    ensures
        enum_stands(add_enum(page, item).lines, page.lines.len() as int, item),
        add_enum(page, item).lines.len() == page.lines.len() + 3 + values_len(item.values@),
{
    let start = add_decl(
        add_line(page, ""@),
        "enum "@ + item.name@ + " {"@,
        "enum "@,
        item.name@,
    );
    let filled = add_values(start, item.values@);
    let after = add_enum(page, item);
    reveal_strlit("");
    assert(""@ =~= Seq::<char>::empty());
    lemma_values_len(item.values@);
    lemma_values_stand(start, item.values@);
    assert(filled.lines =~= after.lines.subrange(0, filled.lines.len() as int));
    lemma_prefix_transitive(start.lines, filled.lines, after.lines);
    let at = page.lines.len() as int;
    assert(after.lines.subrange(0, start.lines.len() as int)[at] == start.lines[at]);
    assert(after.lines.subrange(0, start.lines.len() as int)[at + 1] == start.lines[at + 1]);
    assert forall|i: int|
        #![trigger item.values@[i]]
        0 <= i < item.values@.len() implies value_stands(
        after.lines,
        at + 2 + values_len(item.values@.take(i)),
        item.values@[i],
    ) by {
        lemma_value_stays(
            filled.lines,
            after.lines,
            at + 2 + values_len(item.values@.take(i)),
            item.values@[i],
        );
    }
}

#[verifier::spinoff_prover]
#[verifier::rlimit(60)]
proof fn lemma_enums_stand(page: PageView, items: Seq<EnumDoc>)
    ensures
        ({
            let after = add_enums(page, items);
            &&& after.lines.len() == page.lines.len() + enums_len(items)
            &&& page.lines.is_prefix_of(after.lines)
            &&& forall|i: int|
                #![trigger items[i]]
                0 <= i < items.len() ==> enum_stands(
                    after.lines,
                    page.lines.len() + enums_len(items.take(i)),
                    items[i],
                )
        }),
    decreases items.len(),
{
    let after = add_enums(page, items);
    if items.len() == 0 {
        assert(page.lines =~= after.lines.subrange(0, page.lines.len() as int));
    } else {
        let before = items.drop_last();
        let last = items.last();
        let so_far = add_enums(page, before);
        lemma_enums_stand(page, before);
        lemma_enum_extends(so_far, last);
        lemma_enum_stands(so_far, last);
        lemma_prefix_transitive(page.lines, so_far.lines, after.lines);
        assert forall|i: int|
            #![trigger items[i]]
            0 <= i < items.len() implies enum_stands(
            after.lines,
            page.lines.len() + enums_len(items.take(i)),
            items[i],
        ) by {
            if i < before.len() {
                assert(before[i] == items[i]);
                assert(before.take(i) =~= items.take(i));
                lemma_enum_stays(
                    so_far.lines,
                    after.lines,
                    page.lines.len() + enums_len(items.take(i)),
                    items[i],
                );
            } else {
                assert(items.take(i) =~= before);
            }
        }
    }
}

/// How many lines stand before the class header: the brief description, the long one where it is
/// another text, and a bare comment line between the two.
pub open spec fn intro_len(brief: Seq<char>, description: Seq<char>) -> int {
    let more = description.len() > 0 && description != brief;
    text::lines_of(brief).len() + (if more {
        text::lines_of(description).len()
    } else {
        0
    }) + (if more && brief.len() > 0 {
        1int
    } else {
        0int
    })
}

/// Whether a page begins with what is said of the class, then its header: every line of the brief
/// description, and where the long one is another text a bare comment line, if there is a brief one,
/// and every line of the long one.
pub open spec fn intro_stands(
    lines: Seq<Seq<char>>,
    brief: Seq<char>,
    description: Seq<char>,
    name: Seq<char>,
) -> bool {
    let more = description.len() > 0 && description != brief;
    let count = text::lines_of(brief).len() as int;
    &&& intro_len(brief, description) < lines.len()
    &&& doc_stands(lines, 0, brief)
    &&& more && brief.len() > 0 ==> lines[count] == "##"@ && doc_stands(
        lines,
        count + 1,
        description,
    )
    &&& more && brief.len() == 0 ==> doc_stands(lines, count, description)
    &&& lines[intro_len(brief, description)] == "class_name "@ + name
}

proof fn lemma_intro_stands(
    brief: Seq<char>,
    description: Seq<char>,
    name: Seq<char>,
    parent: Option<Seq<char>>,
)
    ensures
        ({
            let head = page_head(brief, description, name, parent);
            let count = intro_len(brief, description);
            &&& head_lines(brief, description).len() == count
            &&& intro_stands(head.lines, brief, description, name)
            &&& parent matches Some(parent) ==> head.lines.len() == count + 2 && head.lines[count
                + 1] == "extends "@ + parent
            &&& parent is None ==> head.lines.len() == count + 1
        }),
{
    let head = page_head(brief, description, name, parent);
    let start = head_lines(brief, description);
    let more = description.len() > 0 && description != brief;
    let short = doc_comment(brief);
    let nothing = PageView { lines: Seq::empty(), anchors: Map::empty() };
    lemma_doc_stands(nothing, brief);
    assert(add_lines(nothing, short).lines =~= short);
    assert(start =~= head.lines.subrange(0, start.len() as int));
    assert(short =~= head.lines.subrange(0, short.len() as int));
    lemma_doc_stays(short, head.lines, 0, brief);
    if more {
        let gap = if brief.len() > 0 {
            seq!["##"@]
        } else {
            Seq::<Seq<char>>::empty()
        };
        let upper = PageView { lines: short + gap, anchors: Map::empty() };
        lemma_doc_stands(upper, description);
        assert(add_lines(upper, doc_comment(description)).lines =~= start);
        lemma_doc_stays(start, head.lines, upper.lines.len() as int, description);
        if brief.len() > 0 {
            assert(start[short.len() as int] == "##"@);
            assert(head.lines[short.len() as int] == start[short.len() as int]);
        }
    }
}

proof fn lemma_intro_stays(
    lines: Seq<Seq<char>>,
    longer: Seq<Seq<char>>,
    brief: Seq<char>,
    description: Seq<char>,
    name: Seq<char>,
)
    requires
        lines.is_prefix_of(longer),
        intro_stands(lines, brief, description, name),
    ensures
        intro_stands(longer, brief, description, name),
{
    let cut = longer.subrange(0, lines.len() as int);
    let count = text::lines_of(brief).len() as int;
    let more = description.len() > 0 && description != brief;
    lemma_doc_stays(lines, longer, 0, brief);
    assert(lines[intro_len(brief, description)] == cut[intro_len(brief, description)]);
    if more && brief.len() > 0 {
        assert(lines[count] == cut[count]);
        lemma_doc_stays(lines, longer, count + 1, description);
    }
    if more && brief.len() == 0 {
        lemma_doc_stays(lines, longer, count, description);
    }
}

/// What stands on the page of a class, line by line: what is said of the class, its header, and
/// behind these its constants, enums, properties, signals and methods, all of each and in their
/// order, every member with its own docstring right above it. Nothing else stands there.
#[verifier::spinoff_prover]
#[verifier::rlimit(60)]
pub proof fn lemma_class_page_layout(class: ClassDoc)
    ensures
        ({
            let lines = class_page(class).lines;
            let header = intro_len(class.brief_description@, class.description@);
            let constants = header + 1 + (if class.parent is Some {
                1int
            } else {
                0int
            });
            let enums = constants + members_len(class.constants@);
            let properties = enums + enums_len(class.enums@);
            let signals = properties + members_len(class.properties@);
            let methods = signals + members_len(class.signals@);
            &&& intro_stands(lines, class.brief_description@, class.description@, class.name@)
            &&& class.parent matches Some(parent) ==> lines[header + 1] == "extends "@ + parent@
            &&& forall|i: int|
                #![trigger class.constants@[i]]
                0 <= i < class.constants@.len() ==> member_stands(
                    lines,
                    constants + members_len(class.constants@.take(i)),
                    class.constants@[i],
                )
            &&& forall|i: int|
                #![trigger class.enums@[i]]
                0 <= i < class.enums@.len() ==> enum_stands(
                    lines,
                    enums + enums_len(class.enums@.take(i)),
                    class.enums@[i],
                )
            &&& forall|i: int|
                #![trigger class.properties@[i]]
                0 <= i < class.properties@.len() ==> member_stands(
                    lines,
                    properties + members_len(class.properties@.take(i)),
                    class.properties@[i],
                )
            &&& forall|i: int|
                #![trigger class.signals@[i]]
                0 <= i < class.signals@.len() ==> member_stands(
                    lines,
                    signals + members_len(class.signals@.take(i)),
                    class.signals@[i],
                )
            &&& forall|i: int|
                #![trigger class.methods@[i]]
                0 <= i < class.methods@.len() ==> member_stands(
                    lines,
                    methods + members_len(class.methods@.take(i)),
                    class.methods@[i],
                )
            &&& lines.len() == methods + members_len(class.methods@)
        }),
{
    let brief = class.brief_description@;
    let description = class.description@;
    let head = page_head(brief, description, class.name@, text::opt_string(class.parent));
    let constants = add_members(head, "const "@, class.constants@);
    let enums = add_enums(constants, class.enums@);
    let properties = add_members(enums, "var "@, class.properties@);
    let signals = add_members(properties, "signal "@, class.signals@);
    let page = class_page(class);
    lemma_intro_stands(brief, description, class.name@, text::opt_string(class.parent));
    lemma_members_stand(head, "const "@, class.constants@);
    lemma_enums_stand(constants, class.enums@);
    lemma_members_stand(enums, "var "@, class.properties@);
    lemma_members_stand(properties, "signal "@, class.signals@);
    lemma_members_stand(signals, "func "@, class.methods@);
    lemma_prefix_transitive(properties.lines, signals.lines, page.lines);
    lemma_prefix_transitive(enums.lines, properties.lines, page.lines);
    lemma_prefix_transitive(constants.lines, enums.lines, page.lines);
    lemma_prefix_transitive(head.lines, constants.lines, page.lines);
    lemma_intro_stays(head.lines, page.lines, brief, description, class.name@);
    if class.parent is Some {
        let at = intro_len(brief, description) + 1;
        assert(head.lines[at] == page.lines.subrange(0, head.lines.len() as int)[at]);
    }
    assert forall|i: int|
        #![trigger class.constants@[i]]
        0 <= i < class.constants@.len() implies member_stands(
        page.lines,
        head.lines.len() + members_len(class.constants@.take(i)),
        class.constants@[i],
    ) by {
        lemma_member_stays(
            constants.lines,
            page.lines,
            head.lines.len() + members_len(class.constants@.take(i)),
            class.constants@[i],
        );
    }
    assert forall|i: int|
        #![trigger class.enums@[i]]
        0 <= i < class.enums@.len() implies enum_stands(
        page.lines,
        constants.lines.len() + enums_len(class.enums@.take(i)),
        class.enums@[i],
    ) by {
        lemma_enum_stays(
            enums.lines,
            page.lines,
            constants.lines.len() + enums_len(class.enums@.take(i)),
            class.enums@[i],
        );
    }
    assert forall|i: int|
        #![trigger class.properties@[i]]
        0 <= i < class.properties@.len() implies member_stands(
        page.lines,
        enums.lines.len() + members_len(class.properties@.take(i)),
        class.properties@[i],
    ) by {
        lemma_member_stays(
            properties.lines,
            page.lines,
            enums.lines.len() + members_len(class.properties@.take(i)),
            class.properties@[i],
        );
    }
    assert forall|i: int|
        #![trigger class.signals@[i]]
        0 <= i < class.signals@.len() implies member_stands(
        page.lines,
        properties.lines.len() + members_len(class.signals@.take(i)),
        class.signals@[i],
    ) by {
        lemma_member_stays(
            signals.lines,
            page.lines,
            properties.lines.len() + members_len(class.signals@.take(i)),
            class.signals@[i],
        );
    }
}

/// What stands on the page of a built-in type, line by line: what is said of the type, its header
/// without a parent, and behind these its constants, enums, members and methods.
#[verifier::spinoff_prover]
#[verifier::rlimit(60)]
pub proof fn lemma_builtin_page_layout(builtin: BuiltinDoc)
    ensures
        ({
            let lines = builtin_page(builtin).lines;
            let constants = intro_len(builtin.brief_description@, builtin.description@) + 1;
            let enums = constants + members_len(builtin.constants@);
            let members = enums + enums_len(builtin.enums@);
            let methods = members + members_len(builtin.members@);
            &&& intro_stands(
                lines,
                builtin.brief_description@,
                builtin.description@,
                builtin.name@,
            )
            &&& forall|i: int|
                #![trigger builtin.constants@[i]]
                0 <= i < builtin.constants@.len() ==> member_stands(
                    lines,
                    constants + members_len(builtin.constants@.take(i)),
                    builtin.constants@[i],
                )
            &&& forall|i: int|
                #![trigger builtin.enums@[i]]
                0 <= i < builtin.enums@.len() ==> enum_stands(
                    lines,
                    enums + enums_len(builtin.enums@.take(i)),
                    builtin.enums@[i],
                )
            &&& forall|i: int|
                #![trigger builtin.members@[i]]
                0 <= i < builtin.members@.len() ==> member_stands(
                    lines,
                    members + members_len(builtin.members@.take(i)),
                    builtin.members@[i],
                )
            &&& forall|i: int|
                #![trigger builtin.methods@[i]]
                0 <= i < builtin.methods@.len() ==> member_stands(
                    lines,
                    methods + members_len(builtin.methods@.take(i)),
                    builtin.methods@[i],
                )
            &&& lines.len() == methods + members_len(builtin.methods@)
        }),
{
    let brief = builtin.brief_description@;
    let description = builtin.description@;
    let head = page_head(brief, description, builtin.name@, None);
    let constants = add_members(head, "const "@, builtin.constants@);
    let enums = add_enums(constants, builtin.enums@);
    let members = add_members(enums, "var "@, builtin.members@);
    let page = builtin_page(builtin);
    lemma_intro_stands(brief, description, builtin.name@, None);
    lemma_members_stand(head, "const "@, builtin.constants@);
    lemma_enums_stand(constants, builtin.enums@);
    lemma_members_stand(enums, "var "@, builtin.members@);
    lemma_members_stand(members, "func "@, builtin.methods@);
    lemma_prefix_transitive(enums.lines, members.lines, page.lines);
    lemma_prefix_transitive(constants.lines, enums.lines, page.lines);
    lemma_prefix_transitive(head.lines, constants.lines, page.lines);
    lemma_intro_stays(head.lines, page.lines, brief, description, builtin.name@);
    assert forall|i: int|
        #![trigger builtin.constants@[i]]
        0 <= i < builtin.constants@.len() implies member_stands(
        page.lines,
        head.lines.len() + members_len(builtin.constants@.take(i)),
        builtin.constants@[i],
    ) by {
        lemma_member_stays(
            constants.lines,
            page.lines,
            head.lines.len() + members_len(builtin.constants@.take(i)),
            builtin.constants@[i],
        );
    }
    assert forall|i: int|
        #![trigger builtin.enums@[i]]
        0 <= i < builtin.enums@.len() implies enum_stands(
        page.lines,
        constants.lines.len() + enums_len(builtin.enums@.take(i)),
        builtin.enums@[i],
    ) by {
        lemma_enum_stays(
            enums.lines,
            page.lines,
            constants.lines.len() + enums_len(builtin.enums@.take(i)),
            builtin.enums@[i],
        );
    }
    assert forall|i: int|
        #![trigger builtin.members@[i]]
        0 <= i < builtin.members@.len() implies member_stands(
        page.lines,
        enums.lines.len() + members_len(builtin.members@.take(i)),
        builtin.members@[i],
    ) by {
        lemma_member_stays(
            members.lines,
            page.lines,
            enums.lines.len() + members_len(builtin.members@.take(i)),
            builtin.members@[i],
        );
    }
}

proof fn lemma_first_lines_of_text(lines: Seq<Seq<char>>, n: int)
    requires
        0 <= n <= lines.len(),
        forall|i: int| 0 <= i < n ==> plain_line(#[trigger] lines[i]),
    ensures
        text::lines_of(joined(lines)).len() >= n,
        forall|i: int| 0 <= i < n ==> #[trigger] text::lines_of(joined(lines))[i] == lines[i],
    decreases n,
{
    if n > 0 {
        let rest = lines.drop_first();
        assert forall|i: int| 0 <= i < n - 1 implies plain_line(#[trigger] rest[i]) by {
            assert(rest[i] == lines[i + 1]);
        }
        lemma_first_lines_of_text(rest, n - 1);
        lemma_joined_front(lines);
        reveal_strlit("\n");
        let all = joined(lines);
        let first = lines[0];
        assert(plain_line(first));
        assert(all[first.len() as int] == '\n');
        assert forall|j: int| 0 <= j < first.len() implies all[j] != '\n' by {
            assert(all[j] == first[j]);
        }
        text::lemma_index_of_is(all, '\n', first.len() as int);
        assert(all.take(first.len() as int) =~= first);
        assert(all.skip(first.len() as int + 1) =~= joined(rest));
        assert(text::lines_of(all) == seq![first] + text::lines_of(joined(rest)));
        assert forall|i: int| 0 <= i < n implies #[trigger] text::lines_of(all)[i] == lines[i] by {
            if i > 0 {
                assert(text::lines_of(all)[i] == text::lines_of(joined(rest))[i - 1]);
                assert(rest[i - 1] == lines[i]);
            }
        }
    }
}

proof fn lemma_doc_lines_are_plain(doc: Seq<char>)
    ensures
        forall|i: int, j: int|
            0 <= i < text::lines_of(doc).len() && 0 <= j < text::lines_of(doc)[i].len()
                ==> #[trigger] text::lines_of(doc)[i][j] != '\n',
    decreases doc.len(),
{
    text::lemma_index_of(doc, '\n');
    let feed = text::index_of(doc, '\n');
    if doc.len() > 0 && feed < doc.len() {
        let rest = doc.skip(feed + 1);
        lemma_doc_lines_are_plain(rest);
        let first = text::without_return(doc.take(feed));
        let all = text::lines_of(doc);
        assert forall|i: int, j: int|
            0 <= i < all.len() && 0 <= j < all[i].len() implies #[trigger] all[i][j] != '\n' by {
            if i == 0 {
                assert(all[0] == first);
                assert(first[j] == doc[j]);
            } else {
                assert(all[i] == text::lines_of(rest)[i - 1]);
                assert(text::lines_of(rest)[i - 1][j] != '\n');
            }
        }
    }
}

/// The text of the page of a class opens with every line of its brief description, commented out,
/// and, where the long description is another text, with a bare comment line between the two and
/// every line of the long one. The class header follows, at the line that the page gives for it.
/// Said of descriptions without a carriage return and of names without a line end.
#[verifier::spinoff_prover]
#[verifier::rlimit(60)]
pub proof fn lemma_page_text_opens_with_descriptions(class: ClassDoc, stub: RenderedStub)
    requires
        renders_source(stub, StubSource::Class(class)),
        forall|i: int|
            0 <= i < class.brief_description@.len() ==> #[trigger] class.brief_description@[i]
                != '\r',
        forall|i: int|
            0 <= i < class.description@.len() ==> #[trigger] class.description@[i] != '\r',
        forall|i: int|
            0 <= i < class.name@.len() ==> #[trigger] class.name@[i] != '\n' && class.name@[i]
                != '\r',
    ensures
        ({
            let shown = text::lines_of(stub.text@);
            let brief = text::lines_of(class.brief_description@);
            let long = text::lines_of(class.description@);
            let both = class.brief_description@.len() > 0;
            let more = class.description@.len() > 0 && class.description@
                != class.brief_description@;
            let behind = brief.len() + if both {
                1int
            } else {
                0int
            };
            let header = if more {
                behind + long.len()
            } else {
                brief.len() as int
            };
            &&& header < shown.len()
            &&& forall|i: int|
                0 <= i < brief.len() ==> #[trigger] shown[i] == (if brief[i].len() == 0 {
                    "##"@
                } else {
                    "## "@ + brief[i]
                })
            &&& more && both ==> shown[brief.len() as int] == "##"@
            &&& more ==> forall|i: int|
                #![trigger long[i]]
                0 <= i < long.len() ==> shown[behind + i] == (if long[i].len() == 0 {
                    "##"@
                } else {
                    "## "@ + long[i]
                })
            &&& shown[header] == "class_name "@ + class.name@
            &&& stub.class_line == header
            &&& stub.class_name_col == 11
        }),
{
    let lines = class_page(class).lines;
    let header = intro_len(class.brief_description@, class.description@);
    lemma_class_page_layout(class);
    lemma_intro_stands(
        class.brief_description@,
        class.description@,
        class.name@,
        text::opt_string(class.parent),
    );
    lemma_intro_is_plain(lines, class.brief_description@, class.description@, class.name@);
    lemma_first_lines_of_text(lines, header + 1);
    reveal_strlit("class_name ");
    let brief = text::lines_of(class.brief_description@);
    let long = text::lines_of(class.description@);
    let shown = text::lines_of(stub.text@);
    assert forall|i: int| 0 <= i < brief.len() implies #[trigger] shown[i] == (
    if brief[i].len() == 0 {
        "##"@
    } else {
        "## "@ + brief[i]
    }) by {
        assert(lines[0 + i] == commented(brief[i]));
        assert(shown[i] == lines[i]);
    }
    let more = class.description@.len() > 0 && class.description@ != class.brief_description@;
    if more {
        let behind = brief.len() + if class.brief_description@.len() > 0 {
            1int
        } else {
            0int
        };
        assert(doc_stands(lines, behind, class.description@));
        if class.brief_description@.len() > 0 {
            assert(shown[brief.len() as int] == lines[brief.len() as int]);
        }
        assert forall|i: int|
            #![trigger long[i]]
            0 <= i < long.len() implies shown[behind + i] == (if long[i].len() == 0 {
            "##"@
        } else {
            "## "@ + long[i]
        }) by {
            assert(lines[behind + i] == commented(long[i]));
            assert(shown[behind + i] == lines[behind + i]);
        }
    }
    assert(shown[header] == lines[header]);
}

/// The same of the page of a built-in type.
#[verifier::spinoff_prover]
#[verifier::rlimit(60)]
pub proof fn lemma_builtin_text_opens_with_descriptions(builtin: BuiltinDoc, stub: RenderedStub)
    requires
        renders_source(stub, StubSource::Builtin(builtin)),
        forall|i: int|
            0 <= i < builtin.brief_description@.len() ==> #[trigger] builtin.brief_description@[i]
                != '\r',
        forall|i: int|
            0 <= i < builtin.description@.len() ==> #[trigger] builtin.description@[i] != '\r',
        forall|i: int|
            0 <= i < builtin.name@.len() ==> #[trigger] builtin.name@[i] != '\n'
                && builtin.name@[i] != '\r',
    ensures
        ({
            let shown = text::lines_of(stub.text@);
            let header = intro_len(builtin.brief_description@, builtin.description@);
            &&& intro_stands(
                shown,
                builtin.brief_description@,
                builtin.description@,
                builtin.name@,
            )
            &&& stub.class_line == header
            &&& stub.class_name_col == 11
        }),
{
    let lines = builtin_page(builtin).lines;
    let brief = builtin.brief_description@;
    let description = builtin.description@;
    let header = intro_len(brief, description);
    lemma_builtin_page_layout(builtin);
    lemma_intro_stands(brief, description, builtin.name@, None);
    lemma_intro_is_plain(lines, brief, description, builtin.name@);
    lemma_first_lines_of_text(lines, header + 1);
    reveal_strlit("class_name ");
    let shown = text::lines_of(stub.text@);
    let head = lines.take(header + 1);
    assert(head =~= shown.subrange(0, header + 1)) by {
        assert forall|i: int| 0 <= i < header + 1 implies head[i] == shown[i] by {
            assert(shown[i] == lines[i]);
        }
    }
    let count = text::lines_of(brief).len() as int;
    assert(doc_stands(head, 0, brief)) by {
        assert forall|i: int|
            #![trigger text::lines_of(brief)[i]]
            0 <= i < count implies head[0 + i] == commented(text::lines_of(brief)[i]) by {
            assert(lines[0 + i] == commented(text::lines_of(brief)[i]));
        }
    }
    if description.len() > 0 && description != brief {
        let behind = count + if brief.len() > 0 {
            1int
        } else {
            0int
        };
        assert(doc_stands(lines, behind, description));
        assert(doc_stands(head, behind, description)) by {
            assert forall|i: int|
                #![trigger text::lines_of(description)[i]]
                0 <= i < text::lines_of(description).len() implies head[behind + i] == commented(
                text::lines_of(description)[i],
            ) by {
                assert(lines[behind + i] == commented(text::lines_of(description)[i]));
            }
        }
    }
    assert(intro_stands(head, brief, description, builtin.name@));
    lemma_intro_stays(head, shown, brief, description, builtin.name@);
}

proof fn lemma_comment_is_plain(doc: Seq<char>, i: int)
    requires
        0 <= i < text::lines_of(doc).len(),
        forall|k: int| 0 <= k < doc.len() ==> #[trigger] doc[k] != '\r',
    ensures
        plain_line(commented(text::lines_of(doc)[i])),
{
    reveal_strlit("##");
    reveal_strlit("## ");
    let line = text::lines_of(doc)[i];
    let shown = commented(line);
    lemma_doc_lines_are_plain(doc);
    lemma_lines_keep_chars(doc, i);
    assert forall|j: int| 0 <= j < shown.len() implies #[trigger] shown[j] != '\n' by {
        if line.len() > 0 && j >= 3 {
            assert(shown[j] == line[j - 3]);
            assert(text::lines_of(doc)[i][j - 3] != '\n');
        }
    }
    if line.len() > 0 {
        assert(shown.last() == line[line.len() - 1]);
    }
}

proof fn lemma_lines_keep_chars(doc: Seq<char>, i: int)
    requires
        0 <= i < text::lines_of(doc).len(),
    ensures
        forall|j: int|
            0 <= j < text::lines_of(doc)[i].len() ==> exists|k: int|
                0 <= k < doc.len() && #[trigger] doc[k] == #[trigger] text::lines_of(doc)[i][j],
    decreases doc.len(),
{
    text::lemma_index_of(doc, '\n');
    let feed = text::index_of(doc, '\n');
    let line = text::lines_of(doc)[i];
    if feed >= doc.len() {
        assert(line == doc);
        assert forall|j: int| 0 <= j < line.len() implies exists|k: int|
            0 <= k < doc.len() && #[trigger] doc[k] == #[trigger] line[j] by {
            assert(doc[j] == line[j]);
        }
    } else if i == 0 {
        let first = text::without_return(doc.take(feed));
        assert(line == first);
        assert forall|j: int| 0 <= j < line.len() implies exists|k: int|
            0 <= k < doc.len() && #[trigger] doc[k] == #[trigger] line[j] by {
            assert(doc[j] == line[j]);
        }
    } else {
        let rest = doc.skip(feed + 1);
        assert(line == text::lines_of(rest)[i - 1]);
        lemma_lines_keep_chars(rest, i - 1);
        assert forall|j: int| 0 <= j < line.len() implies exists|k: int|
            0 <= k < doc.len() && #[trigger] doc[k] == #[trigger] line[j] by {
            let k = choose|k: int|
                0 <= k < rest.len() && #[trigger] rest[k] == #[trigger] text::lines_of(rest)[i
                    - 1][j];
            assert(doc[feed + 1 + k] == line[j]);
        }
    }
}

proof fn lemma_intro_is_plain(
    lines: Seq<Seq<char>>,
    brief: Seq<char>,
    description: Seq<char>,
    name: Seq<char>,
)
    requires
        intro_stands(lines, brief, description, name),
        forall|i: int| 0 <= i < brief.len() ==> #[trigger] brief[i] != '\r',
        forall|i: int| 0 <= i < description.len() ==> #[trigger] description[i] != '\r',
        forall|i: int|
            0 <= i < name.len() ==> #[trigger] name[i] != '\n' && name[i] != '\r',
    ensures
        forall|i: int|
            0 <= i < intro_len(brief, description) + 1 ==> plain_line(#[trigger] lines[i]),
{
    reveal_strlit("##");
    reveal_strlit("class_name ");
    let count = text::lines_of(brief).len() as int;
    let header = intro_len(brief, description);
    let more = description.len() > 0 && description != brief;
    let behind = count + if brief.len() > 0 {
        1int
    } else {
        0int
    };
    assert forall|i: int| 0 <= i < header + 1 implies plain_line(#[trigger] lines[i]) by {
        if i < count {
            lemma_comment_is_plain(brief, i);
            assert(lines[0 + i] == commented(text::lines_of(brief)[i]));
        } else if i == header {
            let shown = "class_name "@ + name;
            assert forall|j: int| 0 <= j < shown.len() implies #[trigger] shown[j] != '\n' by {
                if j >= 11 {
                    assert(shown[j] == name[j - 11]);
                }
            }
            if name.len() > 0 {
                assert(shown.last() == name[name.len() - 1]);
            }
        } else if more && brief.len() > 0 && i == count {
        } else {
            assert(more);
            lemma_comment_is_plain(description, i - behind);
            assert(lines[behind + (i - behind)] == commented(
                text::lines_of(description)[i - behind],
            ));
        }
    }
}

/// A name may become a file name exactly where it is not empty, is made of ASCII letters, digits and
/// underscores, and does not begin with a digit.
pub proof fn lemma_identifier(name: Seq<char>)
    ensures
        identifier(name) <==> name.len() > 0 && !('0' <= name[0] <= '9') && forall|i: int|
            0 <= i < name.len() ==> 'a' <= #[trigger] name[i] <= 'z' || 'A' <= name[i] <= 'Z'
                || '0' <= name[i] <= '9' || name[i] == '_',
{
    if identifier(name) {
        assert forall|i: int| 0 <= i < name.len() implies 'a' <= #[trigger] name[i] <= 'z' || 'A'
            <= name[i] <= 'Z' || '0' <= name[i] <= '9' || name[i] == '_' by {
            assert(identifier_part(name[i]));
        }
    }
    if name.len() > 0 && !('0' <= name[0] <= '9') && forall|i: int|
        0 <= i < name.len() ==> 'a' <= #[trigger] name[i] <= 'z' || 'A' <= name[i] <= 'Z' || '0'
            <= name[i] <= '9' || name[i] == '_' {
        assert(identifier_start(name[0]));
        assert forall|i: int| 0 <= i < name.len() implies identifier_part(#[trigger] name[i]) by {}
    }
}

/// A page has a place exactly where its class has a name that can be a file name, the dump has the
/// class, and there is a base directory: the file with the name of the class, in the directory of
/// the dump.
pub proof fn lemma_place_of_a_page(
    location: Option<StubLocation>,
    class_name: Seq<char>,
    known: bool,
    hash: u64,
    base: Option<Seq<char>>,
)
    requires
        located(location, class_name, known, hash, base),
    ensures
        location is Some <==> identifier(class_name) && known && base is Some,
        location is Some && !path::drive_alone(base->0) ==> {
            let parts = path::parts(location->0.page@);
            &&& parts.len() == path::parts(base->0).len() + 2
            &&& parts.last() == class_name + ".gd"@
            &&& parts[parts.len() - 2] == "v1-"@ + numbers::hex_text(hash as nat, 16)
            &&& path::parts(base->0) =~= parts.take(parts.len() - 2)
            &&& path::parts(location->0.temporary@).drop_last() == path::parts(location->0.dir@)
            &&& parts.drop_last() == path::parts(location->0.dir@)
            &&& path::parts(location->0.temporary@).last() != parts.last()
        },
{
    if location is Some && !path::drive_alone(base->0) {
        reveal_strlit(".");
        reveal_strlit(".gd");
        reveal_strlit(".gd.tmp");
        let dir = path::parts(base->0).push(stub_dir_name(hash));
        let page = dir.push(class_name + ".gd"@);
        assert(page.take(page.len() - 2) =~= path::parts(base->0));
        assert(page.drop_last() =~= dir);
        let temporary = "."@ + class_name + ".gd.tmp"@;
        assert(dir.push(temporary).drop_last() =~= dir);
        assert(temporary.len() == class_name.len() + 8);
        assert((class_name + ".gd"@).len() == class_name.len() + 3);
    }
}

/// A directory of pages begins with `v`, the number of its layout and a hyphen; any other name is of
/// no layout.
pub proof fn lemma_layout_of_a_directory(name: Seq<char>, dash: int)
    requires
        1 <= dash < name.len(),
        name[0] == 'v',
        name[dash] == '-',
        forall|i: int| 1 <= i < dash ==> #[trigger] name[i] != '-',
    ensures
        dir_version(name) == numbers::parsed_u32(name.subrange(1, dash)),
{
    let rest = name.skip(1);
    assert forall|j: int| 0 <= j < dash - 1 implies rest[j] != '-' by {
        assert(name[j + 1] != '-');
    }
    text::lemma_index_of_is(rest, '-', dash - 1);
    assert(rest.take(dash - 1) =~= name.subrange(1, dash));
}

/// A name that does not begin so has no layout.
pub proof fn lemma_no_layout(name: Seq<char>)
    requires
        name.len() == 0 || name[0] != 'v' || forall|i: int| 1 <= i < name.len() ==> #[trigger] name[i]
            != '-',
    ensures
        dir_version(name) is None,
{
    if name.len() > 0 && name[0] == 'v' {
        let rest = name.skip(1);
        text::lemma_index_of(rest, '-');
        let dash = text::index_of(rest, '-');
        if dash < rest.len() {
            assert(name[dash + 1] == '-');
        }
    }
}

/// The sign of life of a directory is the later of its two times; without any it has none. It is old
/// exactly where more than thirty days went by since.
pub proof fn lemma_age_of_a_directory(
    dir_mtime: Option<i128>,
    touch_mtime: Option<i128>,
    now: i128,
)
    ensures
        ({
            let old = stale_by_age(freshness(dir_mtime, touch_mtime), now);
            let aged = |at: Option<i128>| at is Some && now - at->0 > 30 * 24 * 3600 * 1_000_000_000int;
            &&& dir_mtime is None && touch_mtime is None ==> !old
            &&& dir_mtime is Some && touch_mtime is None ==> old == aged(dir_mtime)
            &&& dir_mtime is None && touch_mtime is Some ==> old == aged(touch_mtime)
            &&& dir_mtime is Some && touch_mtime is Some ==> old == (aged(dir_mtime) && aged(
                touch_mtime,
            ))
        }),
{
    assert(30 * 24 * 3600 * 1_000_000_000int == STALE_AFTER_NANOS);
}

/// A path under the base directory is told as such however it is spelled on Windows; elsewhere the
/// case of letters counts.
pub proof fn lemma_under_base(path: Seq<char>, base: Seq<char>, windows: bool)
    ensures
        path::within(path, base) ==> under_base(path, base, windows),
        !windows ==> under_base(path, base, windows) == path::within(path, base),
        windows && path::within(text::lowered(path), text::lowered(base)) ==> under_base(
            path,
            base,
            windows,
        ),
        windows && !path::within(path, base) && !path::within(
            text::lowered(path),
            text::lowered(base),
        ) ==> !under_base(path, base, windows),
{
}

/// A page that is on disk is left as it is, and where none is, it is the page's text that comes there.
pub proof fn lemma_page_on_disk_stays(there: Option<Seq<char>>, stub: RenderedStub)
    ensures
        there matches Some(content) ==> file_after(there, stub) == content,
        there is None ==> file_after(there, stub) == stub.text@,
{
}

/// Other members leave the anchor of a name alone.
proof fn lemma_members_keep_anchor(
    page: PageView,
    prefix: Seq<char>,
    members: Seq<MemberDoc>,
    name: Seq<char>,
)
    requires
        forall|i: int| 0 <= i < members.len() ==> (#[trigger] members[i]).name@ != name,
    ensures
        add_members(page, prefix, members).anchors.dom().contains(name)
            == page.anchors.dom().contains(name),
        page.anchors.dom().contains(name) ==> add_members(page, prefix, members).anchors[name]
            == page.anchors[name],
    decreases members.len(),
{
    if members.len() > 0 {
        let before = members.drop_last();
        assert forall|i: int| 0 <= i < before.len() implies (#[trigger] before[i]).name@ != name by {
            assert(before[i] == members[i]);
        }
        lemma_members_keep_anchor(page, prefix, before, name);
        assert(members[members.len() - 1] == members.last());
    }
}

proof fn lemma_member_anchor(page: PageView, prefix: Seq<char>, members: Seq<MemberDoc>, i: int)
    requires
        0 <= i < members.len(),
        forall|j: int|
            i < j < members.len() ==> (#[trigger] members[j]).name@ != members[i].name@,
    ensures
        ({
            let after = add_members(page, prefix, members);
            let name = members[i].name@;
            &&& after.anchors.dom().contains(name)
            &&& after.anchors[name] == (MemberAnchor {
                line: (page.lines.len() + members_len(members.take(i)) + 1 + text::lines_of(
                    members[i].doc@,
                ).len()) as u32,
                name_col: prefix.len() as u32,
                name_len: encode_utf8(name).len() as u32,
            })
        }),
    decreases members.len(),
{
    let before = members.drop_last();
    lemma_members_stand(page, prefix, before);
    if i < before.len() {
        assert forall|j: int| i < j < before.len() implies (#[trigger] before[j]).name@
            != before[i].name@ by {
            assert(before[j] == members[j]);
        }
        assert(before[i] == members[i]);
        assert(before.take(i) =~= members.take(i));
        lemma_member_anchor(page, prefix, before, i);
        assert(members[members.len() - 1].name@ != members[i].name@);
    } else {
        assert(members.take(i) =~= before);
    }
}

/// A method is found on the page of its class at the very line of its declaration, its name behind
/// `func `; of several of one name the last. Said of names that no later member bears.
pub proof fn lemma_method_is_anchored(class: ClassDoc, i: int)
    requires
        0 <= i < class.methods@.len(),
        class_page(class).lines.len() <= u32::MAX,
        forall|j: int|
            i < j < class.methods@.len() ==> (#[trigger] class.methods@[j]).name@
                != class.methods@[i].name@,
    ensures
        ({
            let page = class_page(class);
            let member = class.methods@[i];
            &&& page.anchors.dom().contains(member.name@)
            &&& page.lines[page.anchors[member.name@].line as int] == member.decl@
            &&& page.anchors[member.name@].name_col == 5
            &&& page.anchors[member.name@].name_len == encode_utf8(member.name@).len() as u32
        }),
{
    let head = page_head(
        class.brief_description@,
        class.description@,
        class.name@,
        text::opt_string(class.parent),
    );
    let constants = add_members(head, "const "@, class.constants@);
    let enums = add_enums(constants, class.enums@);
    let properties = add_members(enums, "var "@, class.properties@);
    let signals = add_members(properties, "signal "@, class.signals@);
    reveal_strlit("func ");
    lemma_member_anchor(signals, "func "@, class.methods@, i);
    lemma_members_stand(signals, "func "@, class.methods@);
}

/// The same of a signal, whose name stands behind `signal `, where no method bears it.
pub proof fn lemma_signal_is_anchored(class: ClassDoc, i: int)
    requires
        0 <= i < class.signals@.len(),
        class_page(class).lines.len() <= u32::MAX,
        forall|j: int|
            i < j < class.signals@.len() ==> (#[trigger] class.signals@[j]).name@
                != class.signals@[i].name@,
        forall|j: int|
            0 <= j < class.methods@.len() ==> (#[trigger] class.methods@[j]).name@
                != class.signals@[i].name@,
    ensures
        ({
            let page = class_page(class);
            let member = class.signals@[i];
            &&& page.anchors.dom().contains(member.name@)
            &&& page.lines[page.anchors[member.name@].line as int] == member.decl@
            &&& page.anchors[member.name@].name_col == 7
            &&& page.anchors[member.name@].name_len == encode_utf8(member.name@).len() as u32
        }),
{
    let head = page_head(
        class.brief_description@,
        class.description@,
        class.name@,
        text::opt_string(class.parent),
    );
    let constants = add_members(head, "const "@, class.constants@);
    let enums = add_enums(constants, class.enums@);
    let properties = add_members(enums, "var "@, class.properties@);
    let signals = add_members(properties, "signal "@, class.signals@);
    reveal_strlit("signal ");
    lemma_member_anchor(properties, "signal "@, class.signals@, i);
    lemma_members_stand(properties, "signal "@, class.signals@);
    lemma_members_stand(signals, "func "@, class.methods@);
    lemma_members_keep_anchor(signals, "func "@, class.methods@, class.signals@[i].name@);
    let at = properties.lines.len() + members_len(class.signals@.take(i));
    lemma_member_stays(signals.lines, class_page(class).lines, at, class.signals@[i]);
}

/// The same of a property, whose name stands behind `var `, where no signal and no method bears it.
pub proof fn lemma_property_is_anchored(class: ClassDoc, i: int)
    requires
        0 <= i < class.properties@.len(),
        class_page(class).lines.len() <= u32::MAX,
        forall|j: int|
            i < j < class.properties@.len() ==> (#[trigger] class.properties@[j]).name@
                != class.properties@[i].name@,
        forall|j: int|
            0 <= j < class.signals@.len() ==> (#[trigger] class.signals@[j]).name@
                != class.properties@[i].name@,
        forall|j: int|
            0 <= j < class.methods@.len() ==> (#[trigger] class.methods@[j]).name@
                != class.properties@[i].name@,
    ensures
        ({
            let page = class_page(class);
            let member = class.properties@[i];
            &&& page.anchors.dom().contains(member.name@)
            &&& page.lines[page.anchors[member.name@].line as int] == member.decl@
            &&& page.anchors[member.name@].name_col == 4
            &&& page.anchors[member.name@].name_len == encode_utf8(member.name@).len() as u32
        }),
{
    let head = page_head(
        class.brief_description@,
        class.description@,
        class.name@,
        text::opt_string(class.parent),
    );
    let constants = add_members(head, "const "@, class.constants@);
    let enums = add_enums(constants, class.enums@);
    let properties = add_members(enums, "var "@, class.properties@);
    let signals = add_members(properties, "signal "@, class.signals@);
    let page = class_page(class);
    reveal_strlit("var ");
    lemma_member_anchor(enums, "var "@, class.properties@, i);
    lemma_members_stand(enums, "var "@, class.properties@);
    lemma_members_stand(properties, "signal "@, class.signals@);
    lemma_members_stand(signals, "func "@, class.methods@);
    lemma_members_keep_anchor(properties, "signal "@, class.signals@, class.properties@[i].name@);
    lemma_members_keep_anchor(signals, "func "@, class.methods@, class.properties@[i].name@);
    lemma_prefix_transitive(properties.lines, signals.lines, page.lines);
    let at = enums.lines.len() + members_len(class.properties@.take(i));
    lemma_member_stays(properties.lines, page.lines, at, class.properties@[i]);
}

/// A page is written exactly where none is there, and then with its own text.
pub proof fn lemma_page_is_written_once(page: Seq<char>)
    ensures
        written_text(true, page) is None,
        written_text(false, page) == Some(page),
{
}

/// A page can be served exactly where it is there after all: it was, it was put there, or another
/// session put it there first.
pub proof fn lemma_when_a_page_is_served(outcome: PageWrite)
    ensures
        outcome is Present || outcome is Moved ==> can_be_served(outcome),
        outcome is WriteFailed ==> !can_be_served(outcome),
        outcome matches PageWrite::MoveFailed { present_now } ==> can_be_served(outcome)
            == present_now,
{
}

/// The directory in use is never collected, nor is anything that is no directory. Any other goes
/// exactly where its layout is an earlier one or it was not used for long.
pub proof fn lemma_what_is_collected(
    name: Seq<char>,
    is_dir: bool,
    is_current: bool,
    dir_mtime: Option<i128>,
    touch_mtime: Option<i128>,
    now: i128,
)
    ensures
        ({
            let gone = collected(name, is_dir, is_current, dir_mtime, touch_mtime, now);
            let earlier = dir_version(name) is Some && dir_version(name)->0 < 1;
            &&& is_current || !is_dir ==> !gone
            &&& is_dir && !is_current ==> (gone <==> earlier || stale_by_age(
                freshness(dir_mtime, touch_mtime),
                now,
            ))
        }),
{
}

/// A variable counts as set exactly where it holds something.
pub proof fn lemma_set_variables(value: Option<&str>)
    ensures
        value is None ==> !is_set(value),
        value matches Some(text) ==> (is_set(value) <==> text@.len() > 0),
{
}

/// A page is made where none of the class is kept from the present dump, and is the one that was kept
/// where there is. Either way it is kept from then on; pages of another dump go, and other pages of
/// the present one stay.
pub proof fn lemma_page_is_made_once_per_dump(
    before: Map<Seq<char>, (u64, Rc<RenderedStub>)>,
    after: Map<Seq<char>, (u64, Rc<RenderedStub>)>,
    class_name: Seq<char>,
    hash: u64,
    source: StubSource,
    page: Rc<RenderedStub>,
    other: Seq<char>,
)
    requires
        requested(before, after, class_name, hash, source, page),
        other != class_name,
    ensures
        after.dom().contains(class_name),
        after[class_name].0 == hash,
        after[class_name].1 == page,
        before.dom().contains(class_name) && before[class_name].0 == hash ==> page
            == before[class_name].1 && after == before,
        !before.dom().contains(class_name) || before[class_name].0 != hash ==> renders_source(
            *page,
            source,
        ),
        before.dom().contains(other) && before[other].0 == hash ==> after.dom().contains(other)
            && after[other] == before[other],
        (!before.dom().contains(class_name) || before[class_name].0 != hash) && before.dom().contains(
            other,
        ) && before[other].0 != hash ==> !after.dom().contains(other),
        !before.dom().contains(other) ==> !after.dom().contains(other),
{
}

} // verus!
