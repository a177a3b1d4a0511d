//! Tokens and syntax trees, as far as the queries of the server read them.

use vstd::prelude::*;
use vstd::string::*;

use crate::text;
use crate::text::{chars_of, same_text, text_of};

verus! {

/// A range of bytes of a source text; the end is not part of it.
#[derive(Debug, Clone, Copy, PartialEq, Eq, Structural)]
pub struct ByteSpan {
    pub start: usize,
    pub end: usize,
}

/// The kinds of tokens that are told apart here.
#[derive(Debug, Clone, Copy, PartialEq, Eq, Structural)]
pub enum TokenKind {
    Identifier,
    /// A keyword that may also be used as a name.
    NameKeyword,
    Annotation,
    Func,
    Period,
    Comma,
    ParenthesisOpen,
    ParenthesisClose,
    BracketOpen,
    BracketClose,
    BraceOpen,
    BraceClose,
    Newline,
    Indent,
    Dedent,
    Eof,
    Error,
    Other,
}

impl TokenKind {
    /// Whether the token can stand for a name.
    pub open spec fn names(self) -> bool {
        self == TokenKind::Identifier || self == TokenKind::NameKeyword
    }

    /// Whether the token can stand for a name.
    pub fn is_name(self) -> (r: bool)
        ensures
            r == self.names(),
    {
        self == TokenKind::Identifier || self == TokenKind::NameKeyword
    }

    /// Whether the token opens a bracket.
    pub open spec fn opens(self) -> bool {
        self == TokenKind::ParenthesisOpen || self == TokenKind::BracketOpen || self
            == TokenKind::BraceOpen
    }

    /// Whether the token closes a bracket.
    pub open spec fn closes(self) -> bool {
        self == TokenKind::ParenthesisClose || self == TokenKind::BracketClose || self
            == TokenKind::BraceClose
    }

    /// Whether the token opens a bracket.
    pub fn is_opener(self) -> (r: bool)
        ensures
            r == self.opens(),
    {
        self == TokenKind::ParenthesisOpen || self == TokenKind::BracketOpen || self
            == TokenKind::BraceOpen
    }

    /// Whether the token closes a bracket.
    pub fn is_closer(self) -> (r: bool)
        ensures
            r == self.closes(),
    {
        self == TokenKind::ParenthesisClose || self == TokenKind::BracketClose || self
            == TokenKind::BraceClose
    }
}

/// A token of a source text.
pub struct Token {
    pub kind: TokenKind,
    pub span: ByteSpan,
    pub source: String,
}

/// The number of a node in its tree.
pub type NodeId = usize;

/// A function, or the function of a lambda.
pub struct FunctionNode {
    pub identifier: Option<NodeId>,
    pub parameters: Vec<NodeId>,
    pub rest_parameter: Option<NodeId>,
    pub return_type: Option<NodeId>,
}

/// A parameter of a function.
pub struct ParameterNode {
    pub identifier: Option<NodeId>,
    pub datatype_specifier: Option<NodeId>,
    pub initializer: Option<NodeId>,
}

/// What a node is.
pub enum NodeKind {
    Identifier(String),
    Function(FunctionNode),
    Parameter(ParameterNode),
    Variable { identifier: Option<NodeId>, initializer: Option<NodeId> },
    Lambda { function: Option<NodeId> },
    Assignment { assignee: Option<NodeId> },
    /// An access to an attribute, by its name.
    Attribute { name: Option<NodeId> },
    Other,
}

/// A node of a syntax tree.
pub struct Node {
    pub span: ByteSpan,
    pub kind: NodeKind,
}

/// A syntax tree. A number that no node has stands for nothing.
pub struct ParseTree {
    pub nodes: Vec<Node>,
}

impl ParseTree {
    /// The node with a number.
    pub open spec fn node(self, id: NodeId) -> Option<Node> {
        if id < self.nodes@.len() {
            Some(self.nodes@[id as int])
        } else {
            None
        }
    }

    /// The node with a number.
    pub fn get(&self, id: NodeId) -> (r: Option<&Node>)
        ensures
            match r {
                Some(node) => self.node(id) == Some(*node),
                None => self.node(id) is None,
            },
    {
        if id < self.nodes.len() {
            Some(&self.nodes[id])
        } else {
            None
        }
    }
}

/// The text of an identifier; nothing for any other node.
pub open spec fn ident_of(tree: ParseTree, id: NodeId) -> Seq<char> {
    match tree.node(id) {
        Some(node) => match node.kind {
            NodeKind::Identifier(name) => name@,
            _ => Seq::empty(),
        },
        None => Seq::empty(),
    }
}

/// The text of an identifier; nothing for any other node.
pub fn ident_text(tree: &ParseTree, id: NodeId) -> (r: String)
    ensures
        r@ == ident_of(*tree, id),
{
    match tree.get(id) {
        Some(node) => match &node.kind {
            NodeKind::Identifier(name) => name.clone(),
            _ => empty_text(),
        },
        None => empty_text(),
    }
}

/// The empty text.
pub fn empty_text() -> (r: String)
    ensures
        r@ == Seq::<char>::empty(),
{
    proof {
        reveal_strlit("");
        assert(""@ =~= Seq::<char>::empty());
    }
    "".to_owned()
}

// ---------------------------------------------------------------------------
// Source texts.
// ---------------------------------------------------------------------------

/// How many bytes a character takes in UTF-8.
pub open spec fn utf8_width(c: char) -> int {
    if c as u32 <= 0x7f {
        1
    } else if c as u32 <= 0x7ff {
        2
    } else if c as u32 <= 0xffff {
        3
    } else {
        4
    }
}

fn char_width(c: char) -> (r: usize)
    ensures
        r == utf8_width(c),
{
    let code: u32 = c as u32;
    if code <= 0x7f {
        1
    } else if code <= 0x7ff {
        2
    } else if code <= 0xffff {
        3
    } else {
        4
    }
}

/// The number of characters before a byte of a text. A byte beyond the text counts as its end; a
/// byte inside a character has no such number.
pub open spec fn chars_before(s: Seq<char>, byte: int) -> Option<int>
    decreases s.len(),
{
    if byte <= 0 || s.len() == 0 {
        Some(0)
    } else if byte < utf8_width(s[0]) {
        None
    } else {
        match chars_before(s.skip(1), byte - utf8_width(s[0])) {
            Some(n) => Some(n + 1),
            None => None,
        }
    }
}

/// The part of a text in a range of bytes, as far as the text goes. A range that cuts through a
/// character, or that ends before it starts, holds nothing.
pub open spec fn span_text(s: Seq<char>, span: ByteSpan) -> Seq<char> {
    match (chars_before(s, span.start as int), chars_before(s, span.end as int)) {
        (Some(from), Some(to)) => if from <= to {
            s.subrange(from, to)
        } else {
            Seq::empty()
        },
        _ => Seq::empty(),
    }
}

/// The characters before a byte are some of the text's.
pub proof fn lemma_chars_before(s: Seq<char>, byte: int)
    ensures
        chars_before(s, byte) matches Some(n) ==> 0 <= n <= s.len(),
    decreases s.len(),
{
    if byte > 0 && s.len() > 0 && byte >= utf8_width(s[0]) {
        lemma_chars_before(s.skip(1), byte - utf8_width(s[0]));
    }
}

fn count_chars_before(chars: &Vec<char>, byte: usize) -> (r: Option<usize>)
    ensures
        match r {
            Some(n) => chars_before(chars@, byte as int) == Some(n as int) && n <= chars@.len(),
            None => chars_before(chars@, byte as int) is None,
        },
{
    let mut i: usize = 0;
    let mut left: usize = byte;
    proof {
        assert(chars@.skip(0) =~= chars@);
    }
    while i < chars.len() && left > 0
        invariant
            0 <= i <= chars@.len(),
            chars_before(chars@, byte as int) == (match chars_before(
                chars@.skip(i as int),
                left as int,
            ) {
                Some(n) => Some(n + i),
                None => None,
            }),
        decreases chars@.len() - i,
    {
        let width: usize = char_width(chars[i]);
        proof {
            assert(chars@.skip(i as int)[0] == chars@[i as int]);
            assert(chars@.skip(i as int).skip(1) =~= chars@.skip(i as int + 1));
        }
        if left < width {
            return None;
        }
        left = left - width;
        i = i + 1;
    }
    Some(i)
}

/// The part of a text in a range of bytes.
pub fn text_in_span(s: &str, span: ByteSpan) -> (r: String)
    ensures
        r@ == span_text(s@, span),
{
    let chars = chars_of(s);
    match (count_chars_before(&chars, span.start), count_chars_before(&chars, span.end)) {
        (Some(from), Some(to)) => if from <= to {
            text_of(&chars, from, to)
        } else {
            empty_text()
        },
        _ => empty_text(),
    }
}

/// The source of a node.
pub open spec fn source_of(tree: ParseTree, src: Seq<char>, id: NodeId) -> Seq<char> {
    match tree.node(id) {
        Some(node) => span_text(src, node.span),
        None => Seq::empty(),
    }
}

/// The source of a node.
pub fn node_source(tree: &ParseTree, src: &str, id: NodeId) -> (r: String)
    ensures
        r@ == source_of(*tree, src@, id),
{
    match tree.get(id) {
        Some(node) => text_in_span(src, node.span),
        None => empty_text(),
    }
}

// ---------------------------------------------------------------------------
// Names and declarations.
// ---------------------------------------------------------------------------

/// The function of a node.
pub open spec fn function_of(node: Node) -> Option<FunctionNode> {
    match node.kind {
        NodeKind::Function(function) => Some(function),
        _ => None,
    }
}

/// Whether a node is a function whose name stands at a place and reads as given.
pub open spec fn named_at(
    tree: ParseTree,
    node: Node,
    name_span: ByteSpan,
    name: Seq<char>,
) -> bool {
    match function_of(node) {
        Some(function) => match function.identifier {
            Some(id) => match tree.node(id) {
                Some(ident) => ident.span == name_span && ident_of(tree, id) == name,
                None => false,
            },
            None => false,
        },
        None => false,
    }
}

/// Whether a position is in a function.
pub open spec fn in_function(tree: ParseTree, byte: usize) -> bool {
    exists|i: int|
        0 <= i < tree.nodes@.len() && function_of(#[trigger] tree.nodes@[i]) is Some
            && tree.nodes@[i].span.start <= byte < tree.nodes@[i].span.end
}

/// The first function, from a node on, whose name stands at a place and reads as given.
pub open spec fn named_from(tree: ParseTree, i: int, name_span: ByteSpan, name: Seq<char>) -> Option<
    FunctionNode,
>
    decreases tree.nodes@.len() - i,
{
    if i >= tree.nodes@.len() {
        None
    } else if named_at(tree, tree.nodes@[i], name_span, name) {
        function_of(tree.nodes@[i])
    } else {
        named_from(tree, i + 1, name_span, name)
    }
}

/// The function whose name stands at a place and reads as given: the first in the tree. Both are
/// looked at, for the place may be that of an earlier text.
pub fn function_at_name_span<'a>(tree: &'a ParseTree, name_span: ByteSpan, name: &str) -> (r: Option<
    &'a FunctionNode,
>)
    ensures
        match r {
            Some(function) => named_from(*tree, 0, name_span, name@) == Some(*function),
            None => named_from(*tree, 0, name_span, name@) is None,
        },
{
    let mut i: usize = 0;
    while i < tree.nodes.len()
        invariant
            0 <= i <= tree.nodes@.len(),
            named_from(*tree, 0, name_span, name@) == named_from(
                *tree,
                i as int,
                name_span,
                name@,
            ),
        decreases tree.nodes@.len() - i,
    {
        if let NodeKind::Function(function) = &tree.nodes[i].kind {
            if let Some(id) = function.identifier {
                if let Some(ident) = tree.get(id) {
                    if ident.span == name_span && same_text(ident_text(tree, id).as_str(), name) {
                        return Some(function);
                    }
                }
            }
        }
        i = i + 1;
    }
    None
}

/// Whether a position is in a function.
pub fn is_in_function(tree: &ParseTree, byte: usize) -> (r: bool)
    ensures
        r == in_function(*tree, byte),
{
    let mut i: usize = 0;
    while i < tree.nodes.len()
        invariant
            0 <= i <= tree.nodes@.len(),
            forall|j: int|
                0 <= j < i ==> !(function_of(#[trigger] tree.nodes@[j]) is Some
                    && tree.nodes@[j].span.start <= byte < tree.nodes@[j].span.end),
        decreases tree.nodes@.len() - i,
    {
        let span: ByteSpan = tree.nodes[i].span;
        if let NodeKind::Function(_) = &tree.nodes[i].kind {
            if span.start <= byte && byte < span.end {
                proof {
                    assert(function_of(tree.nodes@[i as int]) is Some);
                }
                return true;
            }
        }
        i = i + 1;
    }
    false
}

/// The bare name that an assignment to a node writes: that of an identifier, or that of an
/// attribute.
pub open spec fn written_name(tree: ParseTree, assignee: Option<NodeId>) -> Option<Seq<char>> {
    match assignee {
        Some(id) => match tree.node(id) {
            Some(node) => match node.kind {
                NodeKind::Identifier(name) => Some(name@),
                NodeKind::Attribute { name: Some(attribute) } => Some(ident_of(tree, attribute)),
                _ => None,
            },
            None => None,
        },
        None => None,
    }
}

/// The bare name that an assignment to a node writes.
pub fn assignee_name(tree: &ParseTree, assignee: Option<NodeId>) -> (r: Option<String>)
    ensures
        text::opt_string(r) == written_name(*tree, assignee),
{
    let id: NodeId = match assignee {
        Some(id) => id,
        None => return None,
    };
    match tree.get(id) {
        Some(node) => match &node.kind {
            NodeKind::Identifier(name) => Some(name.clone()),
            NodeKind::Attribute { name: Some(attribute) } => Some(ident_text(tree, *attribute)),
            _ => None,
        },
        None => None,
    }
}

/// Whether a node is an assignment to what stands at a place.
pub open spec fn assigns_at(tree: ParseTree, node: Node, span: ByteSpan) -> bool {
    match node.kind {
        NodeKind::Assignment { assignee: Some(id) } => match tree.node(id) {
            Some(target) => target.span == span,
            None => false,
        },
        _ => false,
    }
}

/// Whether some assignment writes to what stands at a place.
pub fn is_assignment_target(tree: &ParseTree, span: ByteSpan) -> (r: bool)
    ensures
        r == exists|i: int|
            0 <= i < tree.nodes@.len() && assigns_at(*tree, #[trigger] tree.nodes@[i], span),
{
    let mut i: usize = 0;
    while i < tree.nodes.len()
        invariant
            0 <= i <= tree.nodes@.len(),
            forall|j: int|
                0 <= j < i ==> !assigns_at(*tree, #[trigger] tree.nodes@[j], span),
        decreases tree.nodes@.len() - i,
    {
        if let NodeKind::Assignment { assignee: Some(id) } = &tree.nodes[i].kind {
            if let Some(target) = tree.get(*id) {
                if target.span == span {
                    proof {
                        assert(assigns_at(*tree, tree.nodes@[i as int], span));
                    }
                    return true;
                }
            }
        }
        i = i + 1;
    }
    false
}

/// Whether a node declares a variable with a name.
pub open spec fn declares(tree: ParseTree, node: Node, name: Seq<char>) -> bool {
    match node.kind {
        NodeKind::Variable { identifier: Some(id), initializer: _ } => ident_of(tree, id) == name,
        _ => false,
    }
}

/// Whether a node writes to a name.
pub open spec fn rebinds(tree: ParseTree, node: Node, name: Seq<char>) -> bool {
    match node.kind {
        NodeKind::Assignment { assignee } => written_name(tree, assignee) == Some(name),
        _ => false,
    }
}

/// The identifier of a declaration.
pub open spec fn declared_ident(node: Node) -> Option<NodeId> {
    match node.kind {
        NodeKind::Variable { identifier, initializer: _ } => identifier,
        _ => None,
    }
}

/// Whether a name is that of one variable of the file, which no function declares and no assignment
/// writes to.
pub open spec fn sole_class_var(tree: ParseTree, name: Seq<char>, i: int) -> bool {
    &&& 0 <= i < tree.nodes@.len()
    &&& declares(tree, tree.nodes@[i], name)
    &&& forall|j: int|
        0 <= j < tree.nodes@.len() ==> {
            &&& declares(tree, #[trigger] tree.nodes@[j], name) ==> j == i && !in_function(
                tree,
                tree.nodes@[j].span.start,
            )
            &&& !rebinds(tree, tree.nodes@[j], name)
        }
}

/// The identifier of the one class-level variable with a name, as long as nothing else declares the
/// name and nothing writes to it.
pub open spec fn class_var(tree: ParseTree, name: Seq<char>) -> Option<NodeId> {
    if exists|i: int| sole_class_var(tree, name, i) {
        declared_ident(tree.nodes@[choose|i: int| sole_class_var(tree, name, i)])
    } else {
        None
    }
}

/// The identifier of the one class-level variable with a name.
pub fn class_level_var_ident(tree: &ParseTree, name: &str) -> (r: Option<NodeId>)
    ensures
        r == class_var(*tree, name@),
{
    let mut found: Option<usize> = None;
    let mut i: usize = 0;
    while i < tree.nodes.len()
        invariant
            0 <= i <= tree.nodes@.len(),
            match found {
                Some(k) => k < i && declares(*tree, tree.nodes@[k as int], name@),
                None => true,
            },
            forall|j: int|
                0 <= j < i ==> {
                    &&& declares(*tree, #[trigger] tree.nodes@[j], name@) ==> found == Some(
                        j as usize,
                    ) && !in_function(*tree, tree.nodes@[j].span.start)
                    &&& !rebinds(*tree, tree.nodes@[j], name@)
                },
        decreases tree.nodes@.len() - i,
    {
        match &tree.nodes[i].kind {
            NodeKind::Variable { identifier: Some(id), initializer: _ } => {
                if same_text(ident_text(tree, *id).as_str(), name) {
                    proof {
                        assert(declares(*tree, tree.nodes@[i as int], name@));
                    }
                    if is_in_function(tree, tree.nodes[i].span.start) {
                        return None;
                    }
                    if found.is_some() {
                        return None;
                    }
                    found = Some(i);
                }
            },
            NodeKind::Assignment { assignee } => {
                if text::opt_is(&assignee_name(tree, *assignee), name) {
                    proof {
                        assert(rebinds(*tree, tree.nodes@[i as int], name@));
                    }
                    return None;
                }
            },
            _ => {},
        }
        i = i + 1;
    }
    match found {
        Some(k) => {
            proof {
                assert(sole_class_var(*tree, name@, k as int));
            }
            match &tree.nodes[k].kind {
                NodeKind::Variable { identifier, initializer: _ } => *identifier,
                _ => None,
            }
        },
        None => None,
    }
}

/// The initializer of the first variable, from a node on, that an identifier declares.
pub open spec fn initializer_from(tree: ParseTree, i: int, ident: NodeId) -> Option<NodeId>
    decreases tree.nodes@.len() - i,
{
    if i >= tree.nodes@.len() {
        None
    } else {
        match tree.nodes@[i].kind {
            NodeKind::Variable { identifier, initializer } => if identifier == Some(ident) {
                initializer
            } else {
                initializer_from(tree, i + 1, ident)
            },
            _ => initializer_from(tree, i + 1, ident),
        }
    }
}

/// The initializer of the variable that an identifier declares. What else may introduce a name has
/// none.
pub fn variable_initializer(tree: &ParseTree, ident: NodeId) -> (r: Option<NodeId>)
    ensures
        r == initializer_from(*tree, 0, ident),
{
    let mut i: usize = 0;
    while i < tree.nodes.len()
        invariant
            0 <= i <= tree.nodes@.len(),
            initializer_from(*tree, 0, ident) == initializer_from(*tree, i as int, ident),
        decreases tree.nodes@.len() - i,
    {
        if let NodeKind::Variable { identifier: Some(id), initializer } = &tree.nodes[i].kind {
            if *id == ident {
                return *initializer;
            }
        }
        i = i + 1;
    }
    None
}

/// The function of a lambda node.
pub open spec fn lambda_function(tree: ParseTree, id: NodeId) -> Option<FunctionNode> {
    match tree.node(id) {
        Some(node) => match node.kind {
            NodeKind::Lambda { function: Some(function) } => match tree.node(function) {
                Some(body) => function_of(body),
                None => None,
            },
            _ => None,
        },
        None => None,
    }
}

/// The function of a lambda node.
pub fn function_of_lambda<'a>(tree: &'a ParseTree, id: NodeId) -> (r: Option<&'a FunctionNode>)
    ensures
        match r {
            Some(function) => lambda_function(*tree, id) == Some(*function),
            None => lambda_function(*tree, id) is None,
        },
{
    match tree.get(id) {
        Some(node) => match &node.kind {
            NodeKind::Lambda { function: Some(function) } => match tree.get(*function) {
                Some(body) => match &body.kind {
                    NodeKind::Function(function) => Some(function),
                    _ => None,
                },
                None => None,
            },
            _ => None,
        },
        None => None,
    }
}

// ---------------------------------------------------------------------------
// Laws.
// ---------------------------------------------------------------------------

/// A bracket is opened by one of three tokens and closed by one of three others, and a name is an
/// identifier or a keyword that may be one.
pub proof fn lemma_token_kinds(kind: TokenKind)
    ensures
        kind.opens() <==> kind is ParenthesisOpen || kind is BracketOpen || kind is BraceOpen,
        kind.closes() <==> kind is ParenthesisClose || kind is BracketClose || kind is BraceClose,
        kind.names() <==> kind is Identifier || kind is NameKeyword,
{
}

/// A function is found by the place and by the text of its name, and it is the first such one: where
/// some function of the tree has both, one is found, and it has both.
pub proof fn lemma_function_by_its_name(
    tree: ParseTree,
    i: int,
    name_span: ByteSpan,
    name: Seq<char>,
    k: int,
)
    requires
        0 <= i <= k < tree.nodes@.len(),
        tree.nodes@[k].kind matches NodeKind::Function(function) && (
        function.identifier matches Some(id) && id < tree.nodes@.len() && tree.nodes@[id as int].span
            == name_span && (tree.nodes@[id as int].kind matches NodeKind::Identifier(text) && text@
            == name)),
        forall|j: int|
            i <= j < k ==> !((#[trigger] tree.nodes@[j]).kind matches NodeKind::Function(function)
                && (function.identifier matches Some(id) && id < tree.nodes@.len()
                && tree.nodes@[id as int].span == name_span && ident_of(tree, id) == name)),
    ensures
        tree.nodes@[k].kind matches NodeKind::Function(function) && named_from(
            tree,
            i,
            name_span,
            name,
        ) == Some(function),
    decreases k - i,
{
    if i < k {
        assert(!named_at(tree, tree.nodes@[i], name_span, name));
        lemma_function_by_its_name(tree, i + 1, name_span, name, k);
    }
}

/// No function is found where none has the place and the text of the name.
pub proof fn lemma_no_function_by_that_name(
    tree: ParseTree,
    i: int,
    name_span: ByteSpan,
    name: Seq<char>,
)
    requires
        0 <= i,
        forall|j: int|
            i <= j < tree.nodes@.len() ==> ((#[trigger] tree.nodes@[j]).kind
                matches NodeKind::Function(function) ==> (function.identifier matches Some(id) ==> (id
                < tree.nodes@.len() ==> tree.nodes@[id as int].span != name_span || ident_of(
                tree,
                id,
            ) != name))),
    ensures
        named_from(tree, i, name_span, name) is None,
    decreases tree.nodes@.len() - i,
{
    if i < tree.nodes@.len() {
        assert(!named_at(tree, tree.nodes@[i], name_span, name));
        lemma_no_function_by_that_name(tree, i + 1, name_span, name);
    }
}

/// The text of an identifier is its own; no other node has one.
pub proof fn lemma_identifier_text(tree: ParseTree, id: NodeId)
    ensures
        id < tree.nodes@.len() ==> (tree.nodes@[id as int].kind matches NodeKind::Identifier(name)
            ==> ident_of(tree, id) == name@),
        id < tree.nodes@.len() ==> (!(tree.nodes@[id as int].kind is Identifier) ==> ident_of(
            tree,
            id,
        ).len() == 0),
        id >= tree.nodes@.len() ==> ident_of(tree, id).len() == 0,
{
}

/// A variable has the initializer that it is declared with: that of the first declaration with the
/// identifier.
pub proof fn lemma_initializer_of_declaration(tree: ParseTree, i: int, ident: NodeId, k: int)
    requires
        0 <= i <= k < tree.nodes@.len(),
        tree.nodes@[k].kind matches NodeKind::Variable { identifier, .. } && identifier == Some(
            ident,
        ),
        forall|j: int|
            i <= j < k ==> !((#[trigger] tree.nodes@[j]).kind matches NodeKind::Variable {
                identifier,
                ..
            } && identifier == Some(ident)),
    ensures
        tree.nodes@[k].kind matches NodeKind::Variable { identifier: _, initializer }
            && initializer_from(tree, i, ident) == initializer,
    decreases k - i,
{
    if i < k {
        assert(!(tree.nodes@[i].kind matches NodeKind::Variable { identifier, .. } && identifier
            == Some(ident)));
        lemma_initializer_of_declaration(tree, i + 1, ident, k);
    }
}

/// What no variable declares has no initializer.
pub proof fn lemma_no_initializer(tree: ParseTree, i: int, ident: NodeId)
    requires
        0 <= i,
        forall|j: int|
            i <= j < tree.nodes@.len() ==> !((#[trigger] tree.nodes@[j]).kind
                matches NodeKind::Variable { identifier, .. } && identifier == Some(ident)),
    ensures
        initializer_from(tree, i, ident) is None,
    decreases tree.nodes@.len() - i,
{
    if i < tree.nodes@.len() {
        assert(!(tree.nodes@[i].kind matches NodeKind::Variable { identifier, .. } && identifier
            == Some(ident)));
        lemma_no_initializer(tree, i + 1, ident);
    }
}

/// A class-level variable is told by its name only where it is the one declaration of the name in
/// the whole file, stands in no function, and nothing assigns to the name.
pub proof fn lemma_sole_class_variable(tree: ParseTree, name: Seq<char>, ident: NodeId)
    requires
        class_var(tree, name) == Some(ident),
    ensures
        ident_of(tree, ident) == name,
        exists|i: int|
            0 <= i < tree.nodes@.len() && ((#[trigger] tree.nodes@[i]).kind
                matches NodeKind::Variable { identifier, .. } && identifier == Some(ident)),
        forall|j: int, f: int|
            #![trigger tree.nodes@[j], tree.nodes@[f]]
            0 <= j < tree.nodes@.len() && 0 <= f < tree.nodes@.len() && (tree.nodes@[j].kind
                matches NodeKind::Variable { identifier: Some(id), .. } && ident_of(tree, id) == name)
                && tree.nodes@[f].kind is Function ==> !(tree.nodes@[f].span.start
                <= tree.nodes@[j].span.start < tree.nodes@[f].span.end),
        forall|j: int|
            0 <= j < tree.nodes@.len() ==> ((#[trigger] tree.nodes@[j]).kind
                matches NodeKind::Variable { identifier: Some(id), .. } ==> (ident_of(tree, id) == name
                ==> id == ident)),
        forall|j: int|
            0 <= j < tree.nodes@.len() ==> ((#[trigger] tree.nodes@[j]).kind
                matches NodeKind::Assignment { assignee: Some(target) } ==> target
                < tree.nodes@.len() ==> {
                &&& tree.nodes@[target as int].kind matches NodeKind::Identifier(text) ==> text@
                    != name
                &&& tree.nodes@[target as int].kind matches NodeKind::Attribute { name: Some(a) }
                    ==> ident_of(tree, a) != name
            }),
{
    let i = choose|i: int| sole_class_var(tree, name, i);
    assert(sole_class_var(tree, name, i));
    assert(declares(tree, tree.nodes@[i], name));
    assert forall|j: int| 0 <= j < tree.nodes@.len() implies ((#[trigger] tree.nodes@[j]).kind
        matches NodeKind::Assignment { assignee: Some(target) } ==> target < tree.nodes@.len() ==> {
        &&& tree.nodes@[target as int].kind matches NodeKind::Identifier(text) ==> text@ != name
        &&& tree.nodes@[target as int].kind matches NodeKind::Attribute { name: Some(a) }
            ==> ident_of(tree, a) != name
    }) by {
        assert(!rebinds(tree, tree.nodes@[j], name));
    }
    assert forall|j: int| 0 <= j < tree.nodes@.len() implies ((#[trigger] tree.nodes@[j]).kind
        matches NodeKind::Variable { identifier: Some(id), .. } ==> ident_of(tree, id) == name ==> id
        == ident) by {
        assert(declares(tree, tree.nodes@[j], name) ==> j == i);
    }
    assert forall|j: int, f: int|
        #![trigger tree.nodes@[j], tree.nodes@[f]]
        0 <= j < tree.nodes@.len() && 0 <= f < tree.nodes@.len() && (tree.nodes@[j].kind
            matches NodeKind::Variable { identifier: Some(id), .. } && ident_of(tree, id) == name)
            && tree.nodes@[f].kind is Function implies !(tree.nodes@[f].span.start
        <= tree.nodes@[j].span.start < tree.nodes@[f].span.end) by {
        assert(declares(tree, tree.nodes@[j], name));
        assert(!in_function(tree, tree.nodes@[j].span.start));
        assert(function_of(tree.nodes@[f]) is Some);
    }
}

/// A class-level variable is told by its name wherever it is the one declaration of the name, in no
/// function, and nothing assigns to the name.
pub proof fn lemma_class_variable_is_found(tree: ParseTree, name: Seq<char>, i: int, ident: NodeId)
    requires
        0 <= i < tree.nodes@.len(),
        tree.nodes@[i].kind matches NodeKind::Variable { identifier, .. } && identifier == Some(
            ident,
        ) && ident_of(tree, ident) == name,
        forall|j: int|
            0 <= j < tree.nodes@.len() && j != i ==> !((#[trigger] tree.nodes@[j]).kind
                matches NodeKind::Variable { identifier: Some(id), .. } && ident_of(tree, id)
                == name),
        forall|f: int|
            0 <= f < tree.nodes@.len() ==> ((#[trigger] tree.nodes@[f]).kind is Function ==> !(
            tree.nodes@[f].span.start <= tree.nodes@[i].span.start < tree.nodes@[f].span.end)),
        forall|j: int|
            0 <= j < tree.nodes@.len() ==> !((#[trigger] tree.nodes@[j]).kind is Assignment),
    ensures
        class_var(tree, name) == Some(ident),
{
    assert(declares(tree, tree.nodes@[i], name));
    assert(!in_function(tree, tree.nodes@[i].span.start));
    assert forall|j: int| 0 <= j < tree.nodes@.len() implies {
        &&& declares(tree, #[trigger] tree.nodes@[j], name) ==> j == i && !in_function(
            tree,
            tree.nodes@[j].span.start,
        )
        &&& !rebinds(tree, tree.nodes@[j], name)
    } by {}
    assert(sole_class_var(tree, name, i));
    let k = choose|k: int| sole_class_var(tree, name, k);
    assert(sole_class_var(tree, name, k));
    assert(declares(tree, tree.nodes@[k], name));
    assert(k == i);
}

/// A character is as wide as its UTF-8 form.
pub proof fn lemma_width_of_a_character(c: char)
    ensures
        utf8_width(c) == vstd::utf8::encode_scalar(c as u32).len(),
{
}

/// A byte offset that ends a character has that many characters before it.
pub proof fn lemma_characters_before_a_byte(s: Seq<char>, i: int)
    requires
        0 <= i <= s.len(),
    ensures
        chars_before(s, vstd::utf8::encode_utf8(s.take(i)).len() as int) == Some(i),
    decreases i,
{
    if i > 0 {
        let rest = s.skip(1);
        assert(s.drop_first() =~= rest);
        assert(s.take(i).drop_first() =~= rest.take(i - 1));
        assert(s.take(i)[0] == s[0]);
        lemma_width_of_a_character(s[0]);
        lemma_characters_before_a_byte(rest, i - 1);
    } else {
        assert(s.take(0) =~= Seq::<char>::empty());
    }
}

/// The text of a span is what stands between its two ends, which are counted in bytes.
pub proof fn lemma_text_of_a_span(
    before: Seq<char>,
    inner: Seq<char>,
    after: Seq<char>,
    span: ByteSpan,
)
    requires
        span.start == vstd::utf8::encode_utf8(before).len(),
        span.end == vstd::utf8::encode_utf8(before + inner).len(),
    ensures
        span_text(before + inner + after, span) == inner,
{
    let s = before + inner + after;
    assert(s.take(before.len() as int) =~= before);
    assert(s.take((before + inner).len() as int) =~= before + inner);
    lemma_characters_before_a_byte(s, before.len() as int);
    lemma_characters_before_a_byte(s, (before + inner).len() as int);
    assert(s.subrange(before.len() as int, (before + inner).len() as int) =~= inner);
}

} // verus!
