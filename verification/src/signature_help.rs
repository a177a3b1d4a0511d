//! Signature help: which call the cursor is in, and what can be said of its callee.
//!
//! The call is found among the tokens, where a string literal is one token whatever it holds. What
//! the callee offers comes from the native surface, or from the syntax tree of the declaring file.
//! Where the callee is not known for certain there is no signature.

use vstd::prelude::*;
use vstd::string::*;

use crate::signature;
use crate::signature::{
    NativeFn, NativeParam, Sig, SigView, SignatureHelpCaps, SignatureInformation,
};
use crate::syntax;
use crate::syntax::{
    class_level_var_ident, function_at_name_span, function_of_lambda, is_assignment_target,
    variable_initializer, ByteSpan, FunctionNode, NodeId, ParseTree, Token, TokenKind,
};
use crate::text;
use crate::text::{chars_of, opt_is, same_text};

verus! {

// ---------------------------------------------------------------------------
// The call around the cursor.
// ---------------------------------------------------------------------------

/// Whether a token is looked through: layout, and the marker of a lexical error.
pub open spec fn skippable(kind: TokenKind) -> bool {
    kind == TokenKind::Newline || kind == TokenKind::Indent || kind == TokenKind::Dedent || kind
        == TokenKind::Eof || kind == TokenKind::Error
}

/// Whether a token is looked through.
pub fn is_skippable(kind: TokenKind) -> (r: bool)
    ensures
        r == skippable(kind),
{
    kind == TokenKind::Newline || kind == TokenKind::Indent || kind == TokenKind::Dedent || kind
        == TokenKind::Eof || kind == TokenKind::Error
}

/// The last token that is not looked through.
pub open spec fn last_meaningful(tokens: Seq<Token>) -> Option<int>
    decreases tokens.len(),
{
    if tokens.len() == 0 {
        None
    } else if !skippable(tokens.last().kind) {
        Some(tokens.len() - 1)
    } else {
        last_meaningful(tokens.drop_last())
    }
}

/// The last token, not looked through, that ends at or before a byte.
pub open spec fn anchor(tokens: Seq<Token>, byte: usize) -> Option<int>
    decreases tokens.len(),
{
    if tokens.len() == 0 {
        None
    } else if !skippable(tokens.last().kind) && tokens.last().span.end <= byte {
        Some(tokens.len() - 1)
    } else {
        anchor(tokens.drop_last(), byte)
    }
}

/// The last bracket that is open behind a list of tokens, `depth` brackets further out.
pub open spec fn open_bracket(tokens: Seq<Token>, depth: nat) -> Option<int>
    decreases tokens.len(),
{
    if tokens.len() == 0 {
        None
    } else if tokens.last().kind.closes() {
        open_bracket(tokens.drop_last(), depth + 1)
    } else if tokens.last().kind.opens() {
        if depth == 0 {
            Some(tokens.len() - 1)
        } else {
            open_bracket(tokens.drop_last(), (depth - 1) as nat)
        }
    } else {
        open_bracket(tokens.drop_last(), depth)
    }
}

/// How deep in brackets the end of a list of tokens is, and how many commas stand outside of them,
/// of the tokens that end at or before a byte.
pub open spec fn commas(tokens: Seq<Token>, byte: usize) -> (nat, nat)
    decreases tokens.len(),
{
    if tokens.len() == 0 {
        (0, 0)
    } else {
        let (depth, count) = commas(tokens.drop_last(), byte);
        let last = tokens.last();
        if last.span.end > byte {
            (depth, count)
        } else if last.kind.opens() {
            (depth + 1, count)
        } else if last.kind.closes() {
            (if depth > 0 {
                (depth - 1) as nat
            } else {
                0
            }, count)
        } else if last.kind == TokenKind::Comma && depth == 0 {
            (depth, count + 1)
        } else {
            (depth, count)
        }
    }
}

/// The open parenthesis of the call around a byte, and the number of the argument that the byte is
/// in. Another bracket around it is no call.
pub open spec fn call_around(tokens: Seq<Token>, byte: usize) -> Option<(int, nat)> {
    match anchor(tokens, byte) {
        Some(at) => match open_bracket(tokens.take(at + 1), 0) {
            Some(open) => if tokens[open].kind == TokenKind::ParenthesisOpen {
                Some((open, commas(tokens.skip(open + 1), byte).1))
            } else {
                None
            },
            None => None,
        },
        None => None,
    }
}

fn anchor_index(tokens: &Vec<Token>, byte: usize) -> (r: Option<usize>)
    ensures
        match r {
            Some(i) => anchor(tokens@, byte) == Some(i as int) && i < tokens@.len(),
            None => anchor(tokens@, byte) is None,
        },
{
    let mut n: usize = tokens.len();
    proof {
        assert(tokens@.take(n as int) =~= tokens@);
    }
    while n > 0
        invariant
            n <= tokens@.len(),
            anchor(tokens@, byte) == anchor(tokens@.take(n as int), byte),
        decreases n,
    {
        proof {
            assert(tokens@.take(n as int).drop_last() =~= tokens@.take(n - 1));
            assert(tokens@.take(n as int).last() == tokens@[n - 1]);
        }
        if !is_skippable(tokens[n - 1].kind) && tokens[n - 1].span.end <= byte {
            return Some(n - 1);
        }
        n = n - 1;
    }
    None
}

fn prev_meaningful(tokens: &Vec<Token>, i: usize) -> (r: Option<usize>)
    requires
        i <= tokens@.len(),
    ensures
        match r {
            Some(j) => last_meaningful(tokens@.take(i as int)) == Some(j as int) && j < i,
            None => last_meaningful(tokens@.take(i as int)) is None,
        },
{
    let mut n: usize = i;
    while n > 0
        invariant
            n <= i <= tokens@.len(),
            last_meaningful(tokens@.take(i as int)) == last_meaningful(tokens@.take(n as int)),
        decreases n,
    {
        proof {
            assert(tokens@.take(n as int).drop_last() =~= tokens@.take(n - 1));
            assert(tokens@.take(n as int).last() == tokens@[n - 1]);
        }
        if !is_skippable(tokens[n - 1].kind) {
            return Some(n - 1);
        }
        n = n - 1;
    }
    None
}

/// The last bracket that is open behind the first `n` tokens.
pub fn enclosing_open_bracket(tokens: &Vec<Token>, n: usize) -> (r: Option<usize>)
    requires
        n <= tokens@.len(),
    ensures
        match r {
            Some(i) => open_bracket(tokens@.take(n as int), 0) == Some(i as int) && i < n,
            None => open_bracket(tokens@.take(n as int), 0) is None,
        },
{
    let mut k: usize = n;
    let mut depth: usize = 0;
    while k > 0
        invariant
            k <= n <= tokens@.len(),
            depth <= n - k,
            open_bracket(tokens@.take(n as int), 0) == open_bracket(
                tokens@.take(k as int),
                depth as nat,
            ),
        decreases k,
    {
        proof {
            assert(tokens@.take(k as int).drop_last() =~= tokens@.take(k - 1));
            assert(tokens@.take(k as int).last() == tokens@[k - 1]);
        }
        let kind: TokenKind = tokens[k - 1].kind;
        if kind.is_closer() {
            depth = depth + 1;
        } else if kind.is_opener() {
            if depth == 0 {
                return Some(k - 1);
            }
            depth = depth - 1;
        }
        k = k - 1;
    }
    None
}

/// The number of the argument that a byte is in, behind the open parenthesis of its call.
pub fn arg_index_after(tokens: &Vec<Token>, open: usize, byte: usize) -> (r: usize)
    requires
        open < tokens@.len(),
    ensures
        r == commas(tokens@.skip(open + 1), byte).1,
{
    let ghost rest = tokens@.skip(open + 1);
    let n: usize = tokens.len();
    let mut k: usize = open + 1;
    let mut depth: usize = 0;
    let mut count: usize = 0;
    proof {
        assert(rest.take(0) =~= Seq::<Token>::empty());
    }
    while k < n
        invariant
            open < k <= n == tokens@.len(),
            rest == tokens@.skip(open + 1),
            depth <= k,
            count <= k,
            commas(rest.take(k - open - 1), byte) == (depth as nat, count as nat),
        decreases n - k,
    {
        proof {
            let more = rest.take(k - open);
            assert(more.drop_last() =~= rest.take(k - open - 1));
            assert(more.last() == tokens@[k as int]);
        }
        let kind: TokenKind = tokens[k].kind;
        if tokens[k].span.end <= byte {
            if kind.is_opener() {
                depth = depth + 1;
            } else if kind.is_closer() {
                if depth > 0 {
                    depth = depth - 1;
                }
            } else if kind == TokenKind::Comma && depth == 0 {
                count = count + 1;
            }
        }
        k = k + 1;
    }
    proof {
        assert(rest.take(k - open - 1) =~= rest);
    }
    count
}

/// The call around a byte.
pub fn enclosing_call(tokens: &Vec<Token>, byte: usize) -> (r: Option<(usize, usize)>)
    ensures
        match r {
            Some((open, arg)) => call_around(tokens@, byte) == Some((open as int, arg as nat))
                && open < tokens@.len(),
            None => call_around(tokens@, byte) is None,
        },
{
    let n: usize = tokens.len();
    let at: usize = match anchor_index(tokens, byte) {
        Some(at) => at,
        None => return None,
    };
    proof {
        assert(at < n);
    }
    let open: usize = match enclosing_open_bracket(tokens, at + 1) {
        Some(open) => open,
        None => return None,
    };
    if tokens[open].kind != TokenKind::ParenthesisOpen {
        return None;
    }
    Some((open, arg_index_after(tokens, open, byte)))
}

// ---------------------------------------------------------------------------
// The callee.
// ---------------------------------------------------------------------------

/// What stands before the parenthesis.
pub enum CallShape {
    /// No callee: a grouping, a parameter list, an annotation, or a callee without a name.
    NotACall,
    /// `base.name(`; the base where it is a plain name, and the number of the dot.
    Attribute { dot: usize, name: String, base: Option<String> },
    /// `name(`.
    Bare { name: String },
}

pub enum CallShapeView {
    NotACall,
    Attribute { dot: int, name: Seq<char>, base: Option<Seq<char>> },
    Bare { name: Seq<char> },
}

impl View for CallShape {
    type V = CallShapeView;

    open spec fn view(&self) -> CallShapeView {
        match self {
            CallShape::NotACall => CallShapeView::NotACall,
            CallShape::Attribute { dot, name, base } => CallShapeView::Attribute {
                dot: *dot as int,
                name: name@,
                base: text::opt_string(*base),
            },
            CallShape::Bare { name } => CallShapeView::Bare { name: name@ },
        }
    }
}

/// The name that a token stands for.
pub open spec fn token_name(token: Token) -> Option<Seq<char>> {
    if token.kind.names() {
        Some(token.source@)
    } else {
        None
    }
}

/// The name before a dot.
pub open spec fn base_name(tokens: Seq<Token>, dot: int) -> Option<Seq<char>> {
    match last_meaningful(tokens.take(dot)) {
        Some(base) => token_name(tokens[base]),
        None => None,
    }
}

/// What stands before a parenthesis.
pub open spec fn call_shape(tokens: Seq<Token>, open: int) -> CallShapeView {
    match last_meaningful(tokens.take(open)) {
        None => CallShapeView::NotACall,
        Some(callee) => {
            let before = last_meaningful(tokens.take(callee));
            match token_name(tokens[callee]) {
                None => CallShapeView::NotACall,
                Some(name) => match before {
                    None => CallShapeView::Bare { name },
                    Some(p) => if tokens[p].kind == TokenKind::Func {
                        CallShapeView::NotACall
                    } else if tokens[p].kind == TokenKind::Period {
                        CallShapeView::Attribute { dot: p, name, base: base_name(tokens, p) }
                    } else {
                        CallShapeView::Bare { name }
                    },
                },
            }
        },
    }
}

/// The parameter list of a function is no call, also where the function bears a keyword for a name.
pub proof fn lemma_parameter_list_is_no_call(tokens: Seq<Token>, open: int, callee: int, before: int)
    requires
        last_meaningful(tokens.take(open)) == Some(callee),
        last_meaningful(tokens.take(callee)) == Some(before),
        tokens[before].kind == TokenKind::Func,
    ensures
        call_shape(tokens, open) is NotACall,
{
}

fn base_token_name_before(tokens: &Vec<Token>, dot: usize) -> (r: Option<String>)
    requires
        dot < tokens@.len(),
    ensures
        text::opt_string(r) == base_name(tokens@, dot as int),
{
    match prev_meaningful(tokens, dot) {
        Some(base) => callee_token_name(&tokens[base]),
        None => None,
    }
}

fn callee_token_name(callee: &Token) -> (r: Option<String>)
    ensures
        text::opt_string(r) == token_name(*callee),
{
    if callee.kind.is_name() {
        Some(callee.source.clone())
    } else {
        None
    }
}

/// What stands before the parenthesis `open`.
pub fn callee_shape(tokens: &Vec<Token>, open: usize) -> (r: CallShape)
    requires
        open < tokens@.len(),
    ensures
        r@ == call_shape(tokens@, open as int),
{
    let callee: usize = match prev_meaningful(tokens, open) {
        Some(callee) => callee,
        None => return CallShape::NotACall,
    };
    let before = prev_meaningful(tokens, callee);
    let name = match callee_token_name(&tokens[callee]) {
        Some(name) => name,
        None => return CallShape::NotACall,
    };
    match before {
        None => CallShape::Bare { name },
        Some(p) => {
            if tokens[p].kind == TokenKind::Func {
                CallShape::NotACall
            } else if tokens[p].kind == TokenKind::Period {
                CallShape::Attribute { dot: p, name, base: base_token_name_before(tokens, p) }
            } else {
                CallShape::Bare { name }
            }
        },
    }
}

/// A call that the analyzer resolved.
pub struct CallBinding {
    pub call_site: ByteSpan,
}

/// Whether a call's site has a parenthesis in it, or ends at it.
pub open spec fn brackets_paren(site: ByteSpan, paren: usize) -> bool {
    site.start < paren && paren <= site.end
}

/// The innermost call that has the parenthesis in it: the one that starts last, and of those that
/// start at one place the last.
pub open spec fn innermost_call(bindings: Seq<CallBinding>, paren: usize) -> Option<int>
    decreases bindings.len(),
{
    if bindings.len() == 0 {
        None
    } else {
        let best = innermost_call(bindings.drop_last(), paren);
        let last = bindings.last().call_site;
        if !brackets_paren(last, paren) {
            best
        } else {
            match best {
                Some(k) => if bindings[k].call_site.start > last.start {
                    Some(k)
                } else {
                    Some(bindings.len() - 1)
                },
                None => Some(bindings.len() - 1),
            }
        }
    }
}

/// The innermost resolved call that has the parenthesis in it. The call may be incomplete, and its
/// site end at the parenthesis.
pub fn call_target_at_open_paren(bindings: &Vec<CallBinding>, paren: usize) -> (r: Option<usize>)
    ensures
        match r {
            Some(i) => innermost_call(bindings@, paren) == Some(i as int) && i < bindings@.len(),
            None => innermost_call(bindings@, paren) is None,
        },
{
    let mut best: Option<usize> = None;
    let mut i: usize = 0;
    proof {
        assert(bindings@.take(0) =~= Seq::<CallBinding>::empty());
    }
    while i < bindings.len()
        invariant
            0 <= i <= bindings@.len(),
            match best {
                Some(k) => innermost_call(bindings@.take(i as int), paren) == Some(k as int) && k
                    < i,
                None => innermost_call(bindings@.take(i as int), paren) is None,
            },
        decreases bindings@.len() - i,
    {
        proof {
            let more = bindings@.take(i as int + 1);
            assert(more.drop_last() =~= bindings@.take(i as int));
            assert(more.last() == bindings@[i as int]);
        }
        let site: ByteSpan = bindings[i].call_site;
        if site.start < paren && paren <= site.end {
            match best {
                Some(k) => {
                    if bindings[k].call_site.start <= site.start {
                        best = Some(i);
                    }
                },
                None => {
                    best = Some(i);
                },
            }
        }
        i = i + 1;
    }
    proof {
        assert(bindings@.take(i as int) =~= bindings@);
    }
    best
}

/// The narrowest node with a type that ends at a byte: the one that starts last, and of those that
/// start at one place the last.
pub open spec fn narrowest_typed(nodes: Seq<syntax::Node>, typed: Seq<bool>, end: usize) -> Option<
    int,
>
    decreases nodes.len(),
{
    if nodes.len() == 0 {
        None
    } else {
        let best = narrowest_typed(nodes.drop_last(), typed, end);
        let n = nodes.len() - 1;
        if nodes.last().span.end != end || n >= typed.len() || !typed[n] {
            best
        } else {
            match best {
                Some(k) => if nodes[k].span.start > nodes.last().span.start {
                    Some(k)
                } else {
                    Some(n)
                },
                None => Some(n),
            }
        }
    }
}

/// The node of the expression that ends at a byte, such as the base of `base.method(`. `typed` says
/// of each node whether its type is known.
pub fn smallest_typed_ending_at(tree: &ParseTree, typed: &Vec<bool>, end: usize) -> (r: Option<
    NodeId,
>)
    ensures
        match r {
            Some(i) => narrowest_typed(tree.nodes@, typed@, end) == Some(i as int) && i
                < tree.nodes@.len(),
            None => narrowest_typed(tree.nodes@, typed@, end) is None,
        },
{
    let mut best: Option<usize> = None;
    let mut i: usize = 0;
    proof {
        assert(tree.nodes@.take(0) =~= Seq::<syntax::Node>::empty());
    }
    while i < tree.nodes.len()
        invariant
            0 <= i <= tree.nodes@.len(),
            match best {
                Some(k) => narrowest_typed(tree.nodes@.take(i as int), typed@, end) == Some(
                    k as int,
                ) && k < i,
                None => narrowest_typed(tree.nodes@.take(i as int), typed@, end) is None,
            },
        decreases tree.nodes@.len() - i,
    {
        proof {
            let more = tree.nodes@.take(i as int + 1);
            assert(more.drop_last() =~= tree.nodes@.take(i as int));
            assert(more.last() == tree.nodes@[i as int]);
        }
        let span: ByteSpan = tree.nodes[i].span;
        if span.end == end && i < typed.len() && typed[i] {
            match best {
                Some(k) => {
                    if tree.nodes[k].span.start <= span.start {
                        best = Some(i);
                    }
                },
                None => {
                    best = Some(i);
                },
            }
        }
        i = i + 1;
    }
    proof {
        assert(tree.nodes@.take(i as int) =~= tree.nodes@);
    }
    best
}

// ---------------------------------------------------------------------------
// Lambdas.
// ---------------------------------------------------------------------------

/// A local name that is in scope where it is used.
pub struct LocalBinding {
    /// The identifier that declares it.
    pub decl: NodeId,
    /// Whether the function that it belongs to is known.
    pub has_scope: bool,
    /// Where it is used, as far as it is this name and no other of the same text.
    pub occurrences: Vec<ByteSpan>,
}

/// Whether some assignment writes to one of several places.
pub open spec fn written_at(tree: ParseTree, places: Seq<ByteSpan>) -> bool {
    exists|k: int, i: int|
        0 <= k < places.len() && 0 <= i < tree.nodes@.len() && syntax::assigns_at(
            tree,
            #[trigger] tree.nodes@[i],
            #[trigger] places[k],
        )
}

/// The identifier that declares the name where it is used, as long as nothing ever rebinds it.
pub open spec fn pinned_decl(
    tree: ParseTree,
    name: Seq<char>,
    local: Option<LocalBinding>,
) -> Option<NodeId> {
    match local {
        Some(binding) => if binding.has_scope && !written_at(tree, binding.occurrences@) {
            Some(binding.decl)
        } else {
            None
        },
        None => syntax::class_var(tree, name),
    }
}

/// The lambda that a name is pinned to.
pub open spec fn bound_lambda(
    tree: ParseTree,
    name: Seq<char>,
    local: Option<LocalBinding>,
) -> Option<FunctionNode> {
    match pinned_decl(tree, name, local) {
        Some(decl) => match syntax::initializer_from(tree, 0, decl) {
            Some(init) => syntax::lambda_function(tree, init),
            None => None,
        },
        None => None,
    }
}

fn any_written(tree: &ParseTree, places: &Vec<ByteSpan>) -> (r: bool)
    ensures
        r == written_at(*tree, places@),
{
    let mut k: usize = 0;
    while k < places.len()
        invariant
            0 <= k <= places@.len(),
            forall|m: int, i: int|
                0 <= m < k && 0 <= i < tree.nodes@.len() ==> !syntax::assigns_at(
                    *tree,
                    #[trigger] tree.nodes@[i],
                    #[trigger] places@[m],
                ),
        decreases places@.len() - k,
    {
        if is_assignment_target(tree, places[k]) {
            return true;
        }
        k = k + 1;
    }
    false
}

/// The lambda that a name holds where it is used: a variable that is initialized with a lambda and
/// that no assignment rebinds. `local` is the local name in scope; without one the name is that of
/// a class-level variable.
pub fn lambda_bound_to<'a>(tree: &'a ParseTree, name: &str, local: &Option<LocalBinding>) -> (r: Option<
    &'a FunctionNode,
>)
    ensures
        match r {
            Some(function) => bound_lambda(*tree, name@, *local) == Some(*function),
            None => bound_lambda(*tree, name@, *local) is None,
        },
{
    let decl: NodeId = match local {
        Some(binding) => {
            if !binding.has_scope || any_written(tree, &binding.occurrences) {
                return None;
            }
            binding.decl
        },
        None => match class_level_var_ident(tree, name) {
            Some(decl) => decl,
            None => return None,
        },
    };
    match variable_initializer(tree, decl) {
        Some(init) => function_of_lambda(tree, init),
        None => None,
    }
}

/// Whether a method of a callable hands its arguments on as they are.
pub open spec fn forwards_arguments(method: Seq<char>) -> bool {
    method == "call"@ || method == "call_deferred"@
}

/// The signature of a lambda that is called through a name.
pub open spec fn lambda_signature(
    tree: ParseTree,
    src: Seq<char>,
    base: Option<Seq<char>>,
    method: Seq<char>,
    local: Option<LocalBinding>,
) -> Option<SigView> {
    match base {
        Some(base) => if forwards_arguments(method) {
            match bound_lambda(tree, base, local) {
                Some(function) => Some(
                    signature::function_signature(
                        tree,
                        src,
                        signature::lambda_return(tree, src, function),
                        method,
                        function,
                        None,
                    ),
                ),
                None => None,
            }
        } else {
            None
        },
        None => None,
    }
}

/// The signature of a lambda that is called through a name, by `call` or `call_deferred`. Which
/// parameters `bind` fills depends on arguments not written yet, so it has no such signature.
pub fn lambda_call_sig(
    tree: &ParseTree,
    src: &str,
    base: &Option<String>,
    method: &str,
    local: &Option<LocalBinding>,
) -> (r: Option<Sig>)
    ensures
        sig_view(r) == lambda_signature(*tree, src@, text::opt_string(*base), method@, *local),
{
    let base = match base {
        Some(base) => base,
        None => return None,
    };
    if !same_text(method, "call") && !same_text(method, "call_deferred") {
        return None;
    }
    match lambda_bound_to(tree, base.as_str(), local) {
        Some(function) => Some(Sig::from_lambda(tree, src, method, function)),
        None => None,
    }
}

// ---------------------------------------------------------------------------
// Methods of scripts.
// ---------------------------------------------------------------------------

/// A member that a class declares.
pub struct MemberDecl {
    pub name: String,
    pub is_func: bool,
    /// Where its name stands.
    pub name_span: ByteSpan,
    /// Its documentation, in BBCode.
    pub doc: Option<String>,
}

/// What a class of a script declares.
pub struct Interface {
    pub class_name: Option<String>,
    pub members: Vec<MemberDecl>,
    pub inner: Vec<Interface>,
}

/// A script: what its classes declare, and its text with the tree of it.
pub struct ScriptSource {
    pub interface: Interface,
    pub tree: ParseTree,
    pub text: String,
}

/// A native member.
pub enum NativeMember {
    Method(NativeFn),
    /// What cannot be called.
    Other,
}

/// A signature, as a plain value.
pub open spec fn sig_view(sig: Option<Sig>) -> Option<SigView> {
    match sig {
        Some(sig) => Some(sig@),
        None => None,
    }
}

/// Whether a member is a function with a name.
pub open spec fn is_method(member: MemberDecl, name: Seq<char>) -> bool {
    member.is_func && member.name@ == name
}

/// The first function with a name, from a member on.
pub open spec fn method_from(members: Seq<MemberDecl>, i: int, name: Seq<char>) -> Option<MemberDecl>
    decreases members.len() - i,
{
    if i >= members.len() {
        None
    } else if is_method(members[i], name) {
        Some(members[i])
    } else {
        method_from(members, i + 1, name)
    }
}

/// The first class with a name, from a class on.
pub open spec fn class_from(classes: Seq<Interface>, i: int, name: Seq<char>) -> Option<Interface>
    decreases classes.len() - i,
{
    if i >= classes.len() {
        None
    } else if text::opt_string(classes[i].class_name) == Some(name) {
        Some(classes[i])
    } else {
        class_from(classes, i + 1, name)
    }
}

/// The class that a path of inner classes leads to. A step that leads nowhere ends it.
pub open spec fn owner(root: Interface, path: Seq<String>, i: int) -> Option<Interface>
    decreases path.len() - i,
{
    if i >= path.len() {
        Some(root)
    } else {
        match class_from(root.inner@, 0, path[i]@) {
            Some(class) => owner(class, path, i + 1),
            None => None,
        }
    }
}

/// The documentation of a member, unless it is empty.
pub open spec fn member_doc(member: MemberDecl) -> Option<Seq<char>> {
    match member.doc {
        Some(doc) => signature::described(doc@),
        None => None,
    }
}

/// The signature of a method of a script, from the function that declares it in the class at the end
/// of a path.
pub open spec fn method_signature(
    source: ScriptSource,
    path: Seq<String>,
    name: Seq<char>,
) -> Option<SigView> {
    match owner(source.interface, path, 0) {
        None => None,
        Some(class) => match method_from(class.members@, 0, name) {
            None => None,
            Some(member) => match syntax::named_from(source.tree, 0, member.name_span, name) {
                None => None,
                Some(function) => Some(
                    signature::function_signature(
                        source.tree,
                        source.text@,
                        signature::annotation(
                            source.tree,
                            source.text@,
                            function.return_type,
                            "void"@,
                        ),
                        name,
                        function,
                        member_doc(member),
                    ),
                ),
            },
        },
    }
}

/// The signature of a script class' construction: of its `_init`, or without known parameters.
pub open spec fn init_signature(source: ScriptSource) -> SigView {
    match method_signature(source, Seq::empty(), "_init"@) {
        Some(sig) => sig,
        None => signature::bare_constructor(
            match source.interface.class_name {
                Some(name) => name@,
                None => "_init"@,
            },
        ),
    }
}

fn find_method<'a>(members: &'a Vec<MemberDecl>, name: &str) -> (r: Option<&'a MemberDecl>)
    ensures
        match r {
            Some(member) => method_from(members@, 0, name@) == Some(*member),
            None => method_from(members@, 0, name@) is None,
        },
{
    let mut i: usize = 0;
    while i < members.len()
        invariant
            0 <= i <= members@.len(),
            method_from(members@, 0, name@) == method_from(members@, i as int, name@),
        decreases members@.len() - i,
    {
        if members[i].is_func && same_text(members[i].name.as_str(), name) {
            return Some(&members[i]);
        }
        i = i + 1;
    }
    None
}

fn find_class<'a>(classes: &'a Vec<Interface>, name: &str) -> (r: Option<&'a Interface>)
    ensures
        match r {
            Some(class) => class_from(classes@, 0, name@) == Some(*class),
            None => class_from(classes@, 0, name@) is None,
        },
{
    let mut i: usize = 0;
    while i < classes.len()
        invariant
            0 <= i <= classes@.len(),
            class_from(classes@, 0, name@) == class_from(classes@, i as int, name@),
        decreases classes@.len() - i,
    {
        if opt_is(&classes[i].class_name, name) {
            return Some(&classes[i]);
        }
        i = i + 1;
    }
    None
}

fn find_owner<'a>(root: &'a Interface, path: &Vec<String>) -> (r: Option<&'a Interface>)
    ensures
        match r {
            Some(class) => owner(*root, path@, 0) == Some(*class),
            None => owner(*root, path@, 0) is None,
        },
{
    let mut class: &Interface = root;
    let mut i: usize = 0;
    while i < path.len()
        invariant
            0 <= i <= path@.len(),
            owner(*root, path@, 0) == owner(*class, path@, i as int),
        decreases path@.len() - i,
    {
        match find_class(&class.inner, path[i].as_str()) {
            Some(inner) => {
                class = inner;
            },
            None => return None,
        }
        i = i + 1;
    }
    Some(class)
}

/// The signature of a method of a script. The function is found by the place of its name, in the
/// class that the path leads to, so one of another class with the same name is never taken for it.
pub fn script_method_sig(source: &ScriptSource, path: &Vec<String>, name: &str) -> (r: Option<Sig>)
    ensures
        sig_view(r) == method_signature(*source, path@, name@),
{
    let class = match find_owner(&source.interface, path) {
        Some(class) => class,
        None => return None,
    };
    let member = match find_method(&class.members, name) {
        Some(member) => member,
        None => return None,
    };
    let doc: Option<String> = match &member.doc {
        Some(doc) => if chars_of(doc.as_str()).len() == 0 {
            None
        } else {
            Some(doc.clone())
        },
        None => None,
    };
    match function_at_name_span(&source.tree, member.name_span, name) {
        Some(function) => Some(
            Sig::from_function_node(&source.tree, source.text.as_str(), name, function, doc),
        ),
        None => None,
    }
}

/// The signature of a script class' construction.
pub fn script_init_sig(source: &ScriptSource) -> (r: Sig)
    ensures
        r@ == init_signature(*source),
{
    let no_path: Vec<String> = Vec::new();
    proof {
        assert(no_path@ =~= Seq::<String>::empty());
    }
    if let Some(sig) = script_method_sig(source, &no_path, "_init") {
        return sig;
    }
    match &source.interface.class_name {
        Some(name) => Sig::constructor(name.as_str()),
        None => Sig::constructor("_init"),
    }
}

// ---------------------------------------------------------------------------
// Which signatures a call has.
// ---------------------------------------------------------------------------

/// A list of signatures, as plain values.
pub open spec fn sigs_view(sigs: Option<Vec<Sig>>) -> Option<Seq<SigView>> {
    match sigs {
        Some(sigs) => Some(sigs@.map_values(|sig: Sig| sig@)),
        None => None,
    }
}

/// A list of one.
pub open spec fn one(sig: Option<SigView>) -> Option<Seq<SigView>> {
    match sig {
        Some(sig) => Some(seq![sig]),
        None => None,
    }
}

fn one_sig(sig: Option<Sig>) -> (r: Option<Vec<Sig>>)
    ensures
        sigs_view(r) == one(sig_view(sig)),
{
    match sig {
        Some(sig) => {
            let mut list: Vec<Sig> = Vec::new();
            list.push(sig);
            proof {
                assert(list@.map_values(|s: Sig| s@) =~= seq![sig@]);
            }
            Some(list)
        },
        None => None,
    }
}

/// The signature of a native method, where the member is one.
pub open spec fn native_signature(member: Option<NativeMember>, name: Seq<char>) -> Option<SigView> {
    match member {
        Some(NativeMember::Method(method)) => Some(signature::method_signature(name, method)),
        _ => None,
    }
}

/// The signature of a native method, where the member is one.
pub fn native_method_sig(member: &Option<NativeMember>, name: &str) -> (r: Option<Sig>)
    ensures
        sig_view(r) == native_signature(*member, name@),
{
    match member {
        Some(NativeMember::Method(method)) => Some(Sig::from_native_method(name, method)),
        _ => None,
    }
}

/// `Type.new(`: the construction of a native class has no known parameters, that of a script class
/// is its `_init`. Another name is no type.
pub open spec fn new_signature(
    base: Seq<char>,
    is_native_class: bool,
    class: Option<ScriptSource>,
) -> Option<SigView> {
    if is_native_class {
        Some(signature::bare_constructor(base))
    } else {
        match class {
            Some(source) => Some(init_signature(source)),
            None => None,
        }
    }
}

/// `Type.new(`.
pub fn resolve_typed_new(base: &str, is_native_class: bool, class: &Option<ScriptSource>) -> (r: Option<
    Sig,
>)
    ensures
        sig_view(r) == new_signature(base@, is_native_class, *class),
{
    if is_native_class {
        return Some(Sig::constructor(base));
    }
    match class {
        Some(source) => Some(script_init_sig(source)),
        None => None,
    }
}

/// The constructors that still have a parameter for an argument.
pub open spec fn fitting(
    builtin: Seq<char>,
    constructors: Seq<Vec<NativeParam>>,
    arg_index: usize,
) -> Seq<SigView>
    decreases constructors.len(),
{
    if constructors.len() == 0 {
        Seq::empty()
    } else {
        let rest = fitting(builtin, constructors.drop_last(), arg_index);
        if arg_index < constructors.last()@.len() {
            rest.push(signature::constructor_signature(builtin, constructors.last()@))
        } else {
            rest
        }
    }
}

/// Whether an order of constructors has each once, the widest first, and equally wide ones as they
/// were.
pub open spec fn widest_first(constructors: Seq<Vec<NativeParam>>, order: Seq<usize>) -> bool {
    &&& order.len() == constructors.len()
    &&& forall|k: int| 0 <= k < order.len() ==> (#[trigger] order[k]) < constructors.len()
    &&& forall|a: int, b: int|
        0 <= a < b < order.len() ==> comes_first(
            constructors,
            #[trigger] order[a],
            #[trigger] order[b],
        )
}

/// Whether a constructor is listed before another.
pub open spec fn comes_first(constructors: Seq<Vec<NativeParam>>, a: usize, b: usize) -> bool {
    constructors[a as int]@.len() > constructors[b as int]@.len() || (constructors[a as int]@.len()
        == constructors[b as int]@.len() && a < b)
}

/// Whether a list has the signatures of all constructors, the widest first.
pub open spec fn all_constructors(
    builtin: Seq<char>,
    constructors: Seq<Vec<NativeParam>>,
    sigs: Seq<SigView>,
) -> bool {
    exists|order: Seq<usize>| #[trigger]
        widest_first(constructors, order) && sigs.len() == order.len() && forall|k: int|
            0 <= k < sigs.len() ==> #[trigger] sigs[k] == signature::constructor_signature(
                builtin,
                constructors[order[k] as int]@,
            )
}

/// Whether a list is what is offered for a construction of a builtin type: the constructors that
/// still have a parameter for the argument, or all of them where none has.
pub open spec fn offers_constructors(
    builtin: Seq<char>,
    constructors: Seq<Vec<NativeParam>>,
    arg_index: usize,
    sigs: Option<Seq<SigView>>,
) -> bool {
    if constructors.len() == 0 {
        sigs is None
    } else if fitting(builtin, constructors, arg_index).len() > 0 {
        sigs == Some(fitting(builtin, constructors, arg_index))
    } else {
        sigs is Some && all_constructors(builtin, constructors, sigs->0)
    }
}

fn order_widest_first(constructors: &Vec<Vec<NativeParam>>) -> (r: Vec<usize>)
    ensures
        widest_first(constructors@, r@),
{
    let mut order: Vec<usize> = Vec::new();
    let mut i: usize = 0;
    while i < constructors.len()
        invariant
            0 <= i <= constructors@.len(),
            order@.len() == i,
            forall|k: int| 0 <= k < i ==> (#[trigger] order@[k]) < i,
            forall|a: int, b: int|
                0 <= a < b < i ==> comes_first(
                    constructors@,
                    #[trigger] order@[a],
                    #[trigger] order@[b],
                ),
        decreases constructors@.len() - i,
    {
        let width: usize = constructors[i].len();
        let mut at: usize = 0;
        while at < order.len() && constructors[order[at]].len() >= width
            invariant
                0 <= at <= order@.len() == i,
                i < constructors@.len(),
                width == constructors@[i as int]@.len(),
                forall|k: int| 0 <= k < i ==> (#[trigger] order@[k]) < i,
                forall|k: int|
                    0 <= k < at ==> comes_first(constructors@, #[trigger] order@[k], i),
            decreases order@.len() - at,
        {
            at = at + 1;
        }
        let ghost before = order@;
        proof {
            assert forall|k: int| at <= k < i implies comes_first(
                constructors@,
                i,
                #[trigger] before[k],
            ) by {
                if k > at {
                    assert(comes_first(constructors@, before[at as int], before[k]));
                }
            }
        }
        order.insert(at, i);
        proof {
            assert forall|a: int, b: int| 0 <= a < b < i + 1 implies comes_first(
                constructors@,
                #[trigger] order@[a],
                #[trigger] order@[b],
            ) by {
                if a < at {
                    assert(order@[a] == before[a]);
                } else if a > at {
                    assert(order@[a] == before[a - 1]);
                }
                if b < at {
                    assert(order@[b] == before[b]);
                } else if b > at {
                    assert(order@[b] == before[b - 1]);
                }
            }
            assert forall|k: int| 0 <= k < i + 1 implies (#[trigger] order@[k]) < i + 1 by {
                if k < at {
                    assert(order@[k] == before[k]);
                } else if k > at {
                    assert(order@[k] == before[k - 1]);
                }
            }
        }
        i = i + 1;
    }
    order
}

/// What is offered for a construction of a builtin type.
pub fn builtin_constructor_sigs(
    builtin: &str,
    constructors: &Vec<Vec<NativeParam>>,
    arg_index: usize,
) -> (r: Option<Vec<Sig>>)
    ensures
        offers_constructors(builtin@, constructors@, arg_index, sigs_view(r)),
{
    if constructors.len() == 0 {
        return None;
    }
    let mut sigs: Vec<Sig> = Vec::new();
    let mut i: usize = 0;
    proof {
        assert(constructors@.take(0) =~= Seq::<Vec<NativeParam>>::empty());
        assert(sigs@.map_values(|sig: Sig| sig@) =~= Seq::<SigView>::empty());
    }
    while i < constructors.len()
        invariant
            0 <= i <= constructors@.len(),
            sigs@.map_values(|sig: Sig| sig@) == fitting(
                builtin@,
                constructors@.take(i as int),
                arg_index,
            ),
        decreases constructors@.len() - i,
    {
        proof {
            let more = constructors@.take(i as int + 1);
            assert(more.drop_last() =~= constructors@.take(i as int));
            assert(more.last() == constructors@[i as int]);
        }
        if arg_index < constructors[i].len() {
            let ghost before = sigs@;
            let sig = Sig::from_builtin_constructor(builtin, &constructors[i]);
            sigs.push(sig);
            proof {
                assert(sigs@.map_values(|sig: Sig| sig@) =~= before.map_values(
                    |sig: Sig| sig@,
                ).push(sig@));
            }
        }
        i = i + 1;
    }
    proof {
        assert(constructors@.take(i as int) =~= constructors@);
        assert(sigs@.map_values(|sig: Sig| sig@).len() == sigs@.len());
    }
    if sigs.len() > 0 {
        return Some(sigs);
    }
    let order = order_widest_first(constructors);
    let mut all: Vec<Sig> = Vec::new();
    let mut k: usize = 0;
    while k < order.len()
        invariant
            0 <= k <= order@.len(),
            widest_first(constructors@, order@),
            all@.len() == k,
            forall|j: int|
                0 <= j < k ==> (#[trigger] all@[j])@ == signature::constructor_signature(
                    builtin@,
                    constructors@[order@[j] as int]@,
                ),
        decreases order@.len() - k,
    {
        all.push(Sig::from_builtin_constructor(builtin, &constructors[order[k]]));
        k = k + 1;
    }
    proof {
        let views = all@.map_values(|sig: Sig| sig@);
        assert(widest_first(constructors@, order@));
        assert forall|j: int| 0 <= j < views.len() implies #[trigger] views[j]
            == signature::constructor_signature(builtin@, constructors@[order@[j] as int]@) by {
            assert(views[j] == all@[j]@);
        }
        assert(all_constructors(builtin@, constructors@, views));
    }
    Some(all)
}

/// The signature of a method of the class that a script is: that of the nearest script of the chain
/// which declares it, and only where none does that of the native class at its end.
pub open spec fn self_method(
    chain: Seq<ScriptSource>,
    i: int,
    native: Option<NativeMember>,
    name: Seq<char>,
) -> Option<SigView>
    decreases chain.len() - i,
{
    if i >= chain.len() {
        native_signature(native, name)
    } else if method_from(chain[i].interface.members@, 0, name) is Some {
        method_signature(chain[i], Seq::empty(), name)
    } else {
        self_method(chain, i + 1, native, name)
    }
}

/// The signature of a method of the class that a script is. `chain` is the script and those that it
/// extends, `native` what the native class at the end of the chain has under the name.
pub fn resolve_self_method(
    chain: &Vec<ScriptSource>,
    native: &Option<NativeMember>,
    name: &str,
) -> (r: Option<Sig>)
    ensures
        sig_view(r) == self_method(chain@, 0, *native, name@),
{
    let no_path: Vec<String> = Vec::new();
    let mut i: usize = 0;
    while i < chain.len()
        invariant
            0 <= i <= chain@.len(),
            no_path@ == Seq::<String>::empty(),
            self_method(chain@, 0, *native, name@) == self_method(
                chain@,
                i as int,
                *native,
                name@,
            ),
        decreases chain@.len() - i,
    {
        if find_method(&chain[i].interface.members, name).is_some() {
            return script_method_sig(&chain[i], &no_path, name);
        }
        i = i + 1;
    }
    native_method_sig(native, name)
}

/// What a bare name may be called as.
pub struct BareCallee {
    /// The utility with the name.
    pub utility: Option<NativeFn>,
    /// The constructors of the builtin type with the name.
    pub constructors: Vec<Vec<NativeParam>>,
    /// The script and those that it extends; nothing for a text outside of the project.
    pub chain: Option<Vec<ScriptSource>>,
    /// What the native class at the end of the chain has under the name.
    pub native: Option<NativeMember>,
}

/// Whether a list is what a bare call has: a utility, else a construction of a builtin type, else a
/// method of the script's own class.
pub open spec fn resolves_bare(
    callee: BareCallee,
    name: Seq<char>,
    arg_index: usize,
    sigs: Option<Seq<SigView>>,
) -> bool {
    match callee.utility {
        Some(utility) => sigs == Some(seq![signature::utility_signature(name, utility)]),
        None => if callee.constructors@.len() > 0 {
            offers_constructors(name, callee.constructors@, arg_index, sigs)
        } else {
            sigs == (match callee.chain {
                Some(chain) => one(self_method(chain@, 0, callee.native, name)),
                None => None,
            })
        },
    }
}

/// The signatures of a bare call.
pub fn resolve_bare_call(callee: &BareCallee, name: &str, arg_index: usize) -> (r: Option<Vec<Sig>>)
    ensures
        resolves_bare(*callee, name@, arg_index, sigs_view(r)),
{
    if let Some(utility) = &callee.utility {
        return one_sig(Some(Sig::from_utility(name, utility)));
    }
    if callee.constructors.len() > 0 {
        return builtin_constructor_sigs(name, &callee.constructors, arg_index);
    }
    match &callee.chain {
        Some(chain) => one_sig(resolve_self_method(chain, &callee.native, name)),
        None => None,
    }
}

/// A class of a script: the script, and the path of inner classes to the class.
pub struct ScriptClass {
    pub source: ScriptSource,
    pub path: Vec<String>,
}

/// The type of the base of an attribute call.
pub enum BaseType {
    Native(String),
    Builtin(String),
    Script(ScriptClass),
    Other,
}

/// What is known of an attribute call.
pub struct AttributeCallee {
    /// The type of the base; nothing where there is no analysis, or where it does not know.
    pub base_type: Option<BaseType>,
    /// What the native or builtin type of the base has under the name.
    pub member: Option<NativeMember>,
    /// The script class whose method the analyzer resolved the call to.
    pub target: Option<ScriptClass>,
    /// The local name that the base is.
    pub local: Option<LocalBinding>,
}

/// The signature of an attribute call on a value.
pub open spec fn attribute_signature(
    tree: ParseTree,
    src: Seq<char>,
    callee: AttributeCallee,
    base: Option<Seq<char>>,
    method: Seq<char>,
) -> Option<SigView> {
    match callee.base_type {
        Some(BaseType::Native(class)) => if class@.len() > 0 {
            native_signature(callee.member, method)
        } else {
            None
        },
        Some(BaseType::Builtin(builtin)) => {
            let lambda = lambda_signature(tree, src, base, method, callee.local);
            if builtin@ == "Callable"@ && lambda is Some {
                lambda
            } else {
                native_signature(callee.member, method)
            }
        },
        Some(BaseType::Script(class)) => if method == "new"@ {
            Some(init_signature(class.source))
        } else {
            let targeted = match callee.target {
                Some(target) => method_signature(target.source, target.path@, method),
                None => None,
            };
            if targeted is Some {
                targeted
            } else {
                method_signature(class.source, class.path@, method)
            }
        },
        Some(BaseType::Other) => None,
        None => None,
    }
}

/// The signature of an attribute call on a value. `tree` and `src` are of the file with the call.
pub fn resolve_attribute_call(
    tree: &ParseTree,
    src: &str,
    callee: &AttributeCallee,
    base: &Option<String>,
    method: &str,
) -> (r: Option<Sig>)
    ensures
        sig_view(r) == attribute_signature(
            *tree,
            src@,
            *callee,
            text::opt_string(*base),
            method@,
        ),
{
    match &callee.base_type {
        Some(BaseType::Native(class)) => {
            if chars_of(class.as_str()).len() == 0 {
                return None;
            }
            native_method_sig(&callee.member, method)
        },
        Some(BaseType::Builtin(builtin)) => {
            if same_text(builtin.as_str(), "Callable") {
                let lambda = lambda_call_sig(tree, src, base, method, &callee.local);
                if lambda.is_some() {
                    return lambda;
                }
            }
            native_method_sig(&callee.member, method)
        },
        Some(BaseType::Script(class)) => {
            if same_text(method, "new") {
                return Some(script_init_sig(&class.source));
            }
            if let Some(target) = &callee.target {
                let sig = script_method_sig(&target.source, &target.path, method);
                if sig.is_some() {
                    return sig;
                }
            }
            script_method_sig(&class.source, &class.path, method)
        },
        Some(BaseType::Other) => None,
        None => None,
    }
}

/// What is known of the name before `.new(` as a type.
pub struct TypeName {
    pub is_native_class: bool,
    pub class: Option<ScriptSource>,
}

/// The signature of an attribute call: of a construction where the base names a type, else of a
/// method of the base's value.
pub open spec fn dotted_signature(
    tree: ParseTree,
    src: Seq<char>,
    callee: AttributeCallee,
    base_as_type: TypeName,
    base: Option<Seq<char>>,
    method: Seq<char>,
) -> Option<SigView> {
    let created = match base {
        Some(base) => if method == "new"@ {
            new_signature(base, base_as_type.is_native_class, base_as_type.class)
        } else {
            None
        },
        None => None,
    };
    if created is Some {
        created
    } else {
        attribute_signature(tree, src, callee, base, method)
    }
}

/// The signature of an attribute call.
pub fn resolve_dotted_call(
    tree: &ParseTree,
    src: &str,
    callee: &AttributeCallee,
    base_as_type: &TypeName,
    base: &Option<String>,
    method: &str,
) -> (r: Option<Sig>)
    ensures
        sig_view(r) == dotted_signature(
            *tree,
            src@,
            *callee,
            *base_as_type,
            text::opt_string(*base),
            method@,
        ),
{
    if same_text(method, "new") {
        if let Some(base) = base {
            let created = resolve_typed_new(
                base.as_str(),
                base_as_type.is_native_class,
                &base_as_type.class,
            );
            if created.is_some() {
                return created;
            }
        }
    }
    resolve_attribute_call(tree, src, callee, base, method)
}

/// Whether a list is what the call of a shape has.
pub open spec fn resolves(
    shape: CallShapeView,
    tree: ParseTree,
    src: Seq<char>,
    dotted: AttributeCallee,
    base_as_type: TypeName,
    bare: BareCallee,
    arg_index: usize,
    sigs: Option<Seq<SigView>>,
) -> bool {
    match shape {
        CallShapeView::NotACall => sigs is None,
        CallShapeView::Attribute { dot: _, name, base } => sigs == one(
            dotted_signature(tree, src, dotted, base_as_type, base, name),
        ),
        CallShapeView::Bare { name } => resolves_bare(bare, name, arg_index, sigs),
    }
}

/// The signatures of a call. Of what is known of the callee, `dotted` and `base_as_type` count for
/// a call of an attribute, `bare` for one of a bare name.
pub fn resolve_signatures(
    shape: &CallShape,
    tree: &ParseTree,
    src: &str,
    dotted: &AttributeCallee,
    base_as_type: &TypeName,
    bare: &BareCallee,
    arg_index: usize,
) -> (r: Option<Vec<Sig>>)
    ensures
        resolves(
            shape@,
            *tree,
            src@,
            *dotted,
            *base_as_type,
            *bare,
            arg_index,
            sigs_view(r),
        ),
{
    match shape {
        CallShape::NotACall => None,
        CallShape::Attribute { dot: _, name, base } => one_sig(
            resolve_dotted_call(tree, src, dotted, base_as_type, base, name.as_str()),
        ),
        CallShape::Bare { name } => resolve_bare_call(bare, name.as_str(), arg_index),
    }
}

// ---------------------------------------------------------------------------
// The answer.
// ---------------------------------------------------------------------------

/// What a client says of the help that it shows already.
#[derive(Debug, Clone, Copy, PartialEq, Eq, Structural)]
pub struct SignatureHelpContext {
    pub is_retrigger: bool,
    /// The active signature of the help shown, which follows the user's choice.
    pub active_signature: Option<u32>,
}

/// The signatures of the call at the cursor.
pub struct SignatureHelp {
    pub signatures: Vec<SignatureInformation>,
    pub active_signature: u32,
    pub active_parameter: u32,
}

/// The signature that stays active: the one that was, as long as there is one of that number.
pub open spec fn retained(context: Option<SignatureHelpContext>, count: nat) -> u32 {
    match context {
        Some(context) => match context.active_signature {
            Some(prior) => if context.is_retrigger && prior < count {
                prior
            } else {
                0
            },
            None => 0,
        },
        None => 0,
    }
}

/// The signature that stays active.
pub fn retained_active_signature(context: &Option<SignatureHelpContext>, count: usize) -> (r: u32)
    ensures
        r == retained(*context, count as nat),
{
    if let Some(context) = context {
        if let Some(prior) = context.active_signature {
            if context.is_retrigger && (prior as usize) < count {
                return prior;
            }
        }
    }
    0
}

/// The answer to a request: the signatures as the client can show them, the active one of them, and
/// the active parameter of that one. The client's abilities change how much is shown, never which
/// parameter is active.
pub fn signature_help(
    sigs: Option<Vec<Sig>>,
    arg_index: usize,
    context: &Option<SignatureHelpContext>,
    caps: &SignatureHelpCaps,
) -> (r: Option<SignatureHelp>)
    ensures
        match r {
            None => sigs_view(sigs) is None || sigs_view(sigs)->0.len() == 0,
            Some(help) => {
                let list = sigs_view(sigs)->0;
                let active = retained(*context, list.len());
                &&& sigs_view(sigs) is Some
                &&& help.signatures@.len() == list.len()
                &&& forall|i: int|
                    0 <= i < list.len() ==> signature::shows(
                        #[trigger] help.signatures@[i],
                        list[i],
                        arg_index,
                        *caps,
                    )
                &&& help.active_signature == active
                &&& active < list.len()
                &&& help.active_parameter == signature::active_of(
                    list[active as int],
                    arg_index,
                ) as u32
                &&& caps.active_parameter_support
                    ==> help.signatures@[active as int].active_parameter == Some(
                    help.active_parameter,
                )
            },
        },
{
    let mut sigs = match sigs {
        Some(sigs) => sigs,
        None => return None,
    };
    let n: usize = sigs.len();
    if n == 0 {
        return None;
    }
    let ghost list = sigs@;
    let active: u32 = retained_active_signature(context, n);
    let active_parameter: u32 = sigs[active as usize].active_parameter(arg_index);
    let mut signatures: Vec<SignatureInformation> = Vec::new();
    let mut k: usize = n;
    proof {
        assert(list.take(n as int) =~= list);
    }
    while k > 0
        invariant
            k <= n == list.len(),
            sigs@ == list.take(k as int),
            signatures@.len() == n - k,
            forall|i: int|
                0 <= i < n - k ==> signature::shows(
                    #[trigger] signatures@[i],
                    list[k + i]@,
                    arg_index,
                    *caps,
                ),
        decreases k,
    {
        let ghost later = signatures@;
        match sigs.pop() {
            Some(sig) => {
                proof {
                    assert(sig == list[k - 1]);
                    assert(list.take(k as int).drop_last() =~= list.take(k - 1));
                }
                signatures.insert(0, sig.into_lsp(arg_index, caps));
                proof {
                    assert forall|i: int| 0 <= i < n - k + 1 implies signature::shows(
                        #[trigger] signatures@[i],
                        list[k - 1 + i]@,
                        arg_index,
                        *caps,
                    ) by {
                        if i > 0 {
                            assert(signatures@[i] == later[i - 1]);
                        }
                    }
                }
            },
            None => {},
        }
        k = k - 1;
    }
    Some(SignatureHelp { signatures, active_signature: active, active_parameter })
}

// ---------------------------------------------------------------------------
// Laws.
// ---------------------------------------------------------------------------

/// The call around a byte is opened by a parenthesis that ends before it.
pub proof fn lemma_call_is_around_the_cursor(tokens: Seq<Token>, byte: usize)
    requires
        call_around(tokens, byte) is Some,
    ensures
        0 <= (call_around(tokens, byte)->0).0 < tokens.len(),
        tokens[(call_around(tokens, byte)->0).0].kind == TokenKind::ParenthesisOpen,
        (call_around(tokens, byte)->0).0 <= anchor(tokens, byte)->0,
{
    lemma_anchor_in_range(tokens, byte);
    let at = anchor(tokens, byte)->0;
    lemma_open_bracket_in_range(tokens.take(at + 1), 0);
}

proof fn lemma_anchor_in_range(tokens: Seq<Token>, byte: usize)
    ensures
        anchor(tokens, byte) matches Some(at) ==> 0 <= at < tokens.len(),
    decreases tokens.len(),
{
    if tokens.len() > 0 {
        lemma_anchor_in_range(tokens.drop_last(), byte);
    }
}

proof fn lemma_open_bracket_in_range(tokens: Seq<Token>, depth: nat)
    ensures
        open_bracket(tokens, depth) matches Some(i) ==> 0 <= i < tokens.len()
            && tokens[i].kind.opens(),
    decreases tokens.len(),
{
    if tokens.len() > 0 {
        let rest = tokens.drop_last();
        lemma_open_bracket_in_range(rest, depth + 1);
        lemma_open_bracket_in_range(rest, depth);
        if depth > 0 {
            lemma_open_bracket_in_range(rest, (depth - 1) as nat);
        }
    }
}

/// A construction of a builtin type always has something to show, whatever was typed.
pub proof fn lemma_constructors_never_vanish(
    builtin: Seq<char>,
    constructors: Seq<Vec<NativeParam>>,
    arg_index: usize,
    sigs: Option<Seq<SigView>>,
)
    requires
        constructors.len() > 0,
        offers_constructors(builtin, constructors, arg_index, sigs),
    ensures
        sigs is Some,
        sigs->0.len() > 0,
{
}

/// A function that is found by the place of its name bears that name.
pub proof fn lemma_found_function_bears_name(
    tree: ParseTree,
    i: int,
    name_span: ByteSpan,
    name: Seq<char>,
)
    requires
        0 <= i,
        syntax::named_from(tree, i, name_span, name) is Some,
    ensures
        ({
            let function = syntax::named_from(tree, i, name_span, name)->0;
            &&& function.identifier is Some
            &&& syntax::ident_of(tree, function.identifier->0) == name
            &&& tree.node(function.identifier->0) is Some
            &&& tree.node(function.identifier->0)->0.span == name_span
        }),
    decreases tree.nodes@.len() - i,
{
    if i < tree.nodes@.len() && !syntax::named_at(tree, tree.nodes@[i], name_span, name) {
        lemma_found_function_bears_name(tree, i + 1, name_span, name);
    }
}

/// A local name that some assignment writes to is not taken for the lambda it was declared with.
pub proof fn lemma_rebound_name_is_refused(
    tree: ParseTree,
    name: Seq<char>,
    binding: LocalBinding,
)
    requires
        written_at(tree, binding.occurrences@),
    ensures
        bound_lambda(tree, name, Some(binding)) is None,
{
}

/// Whether a token is one that means nothing to a call.
pub open spec fn meaningless(kind: TokenKind) -> bool {
    kind is Newline || kind is Indent || kind is Dedent || kind is Eof || kind is Error
}

/// Where the cursor is counted from: the last token before it that means something. No later one
/// does, unless it reaches behind the cursor.
pub proof fn lemma_anchor_is_last_before_cursor(tokens: Seq<Token>, byte: usize)
    ensures
        match anchor(tokens, byte) {
            Some(at) => {
                &&& 0 <= at < tokens.len()
                &&& tokens[at].span.end <= byte
                &&& !(tokens[at].kind is Newline || tokens[at].kind is Indent || tokens[at].kind
                    is Dedent || tokens[at].kind is Eof || tokens[at].kind is Error)
                &&& forall|j: int|
                    at < j < tokens.len() ==> (#[trigger] tokens[j]).span.end > byte
                        || tokens[j].kind is Newline || tokens[j].kind is Indent || tokens[j].kind
                        is Dedent || tokens[j].kind is Eof || tokens[j].kind is Error
            },
            None => forall|j: int|
                0 <= j < tokens.len() ==> (#[trigger] tokens[j]).span.end > byte || tokens[j].kind
                    is Newline || tokens[j].kind is Indent || tokens[j].kind is Dedent
                    || tokens[j].kind is Eof || tokens[j].kind is Error,
        },
    decreases tokens.len(),
{
    if tokens.len() > 0 {
        let rest = tokens.drop_last();
        lemma_anchor_is_last_before_cursor(rest, byte);
        assert forall|j: int| 0 <= j < rest.len() implies rest[j] == #[trigger] tokens[j] by {}
    }
}

/// The token before a place is the nearest that means something.
pub proof fn lemma_last_meaningful(tokens: Seq<Token>)
    ensures
        match last_meaningful(tokens) {
            Some(at) => {
                &&& 0 <= at < tokens.len()
                &&& !(tokens[at].kind is Newline || tokens[at].kind is Indent || tokens[at].kind
                    is Dedent || tokens[at].kind is Eof || tokens[at].kind is Error)
                &&& forall|j: int|
                    at < j < tokens.len() ==> (#[trigger] tokens[j]).kind is Newline
                        || tokens[j].kind is Indent || tokens[j].kind is Dedent || tokens[j].kind
                        is Eof || tokens[j].kind is Error
            },
            None => forall|j: int|
                0 <= j < tokens.len() ==> (#[trigger] tokens[j]).kind is Newline || tokens[j].kind
                    is Indent || tokens[j].kind is Dedent || tokens[j].kind is Eof
                    || tokens[j].kind is Error,
        },
    decreases tokens.len(),
{
    if tokens.len() > 0 {
        let rest = tokens.drop_last();
        lemma_last_meaningful(rest);
        assert forall|j: int| 0 <= j < rest.len() implies rest[j] == #[trigger] tokens[j] by {}
    }
}

/// How many more brackets a list of tokens opens than it closes.
pub open spec fn unclosed(tokens: Seq<Token>) -> int {
    tokens.filter(
        |t: Token|
            t.kind is ParenthesisOpen || t.kind is BracketOpen || t.kind is BraceOpen,
    ).len() - tokens.filter(
        |t: Token|
            t.kind is ParenthesisClose || t.kind is BracketClose || t.kind is BraceClose,
    ).len()
}

proof fn lemma_unclosed_last(tokens: Seq<Token>)
    requires
        tokens.len() > 0,
    ensures
        unclosed(tokens) == unclosed(tokens.drop_last()) + (if tokens.last().kind.opens() {
            1int
        } else if tokens.last().kind.closes() {
            -1int
        } else {
            0int
        }),
{
    reveal(Seq::filter);
}

proof fn lemma_unclosed_empty()
    ensures
        unclosed(Seq::<Token>::empty()) == 0,
{
    reveal(Seq::filter);
}

proof fn lemma_open_bracket_by_count(tokens: Seq<Token>, depth: nat)
    ensures
        match open_bracket(tokens, depth) {
            Some(i) => {
                &&& 0 <= i < tokens.len()
                &&& tokens[i].kind.opens()
                &&& unclosed(tokens.skip(i)) == depth + 1
                &&& forall|j: int| i < j <= tokens.len() ==> unclosed(#[trigger] tokens.skip(j))
                    <= depth
            },
            None => forall|j: int|
                0 <= j <= tokens.len() ==> unclosed(#[trigger] tokens.skip(j)) <= depth,
        },
    decreases tokens.len(),
{
    lemma_unclosed_empty();
    assert(tokens.skip(tokens.len() as int) =~= Seq::<Token>::empty());
    if tokens.len() > 0 {
        let rest = tokens.drop_last();
        assert forall|j: int| 0 <= j <= rest.len() implies unclosed(#[trigger] tokens.skip(j))
            == unclosed(rest.skip(j)) + (if tokens.last().kind.opens() {
            1int
        } else if tokens.last().kind.closes() {
            -1int
        } else {
            0int
        }) by {
            lemma_unclosed_last(tokens.skip(j));
            assert(tokens.skip(j).drop_last() =~= rest.skip(j));
            assert(tokens.skip(j).last() == tokens.last());
        }
        assert(rest.skip(rest.len() as int) =~= Seq::<Token>::empty());
        assert(unclosed(tokens.skip(rest.len() as int)) == unclosed(rest.skip(rest.len() as int)) + (
        if tokens.last().kind.opens() {
            1int
        } else if tokens.last().kind.closes() {
            -1int
        } else {
            0int
        }));
        let inner: nat = if tokens.last().kind.closes() {
            depth + 1
        } else if tokens.last().kind.opens() && depth > 0 {
            (depth - 1) as nat
        } else {
            depth
        };
        lemma_open_bracket_by_count(rest, inner);
        assert forall|j: int| 0 <= j < rest.len() implies rest[j] == #[trigger] tokens[j] by {}
    }
}

/// The bracket around a place is the last one that is opened and not closed before it: what follows
/// it closes all that it opens.
pub proof fn lemma_bracket_around(tokens: Seq<Token>)
    ensures
        match open_bracket(tokens, 0) {
            Some(i) => {
                &&& 0 <= i < tokens.len()
                &&& tokens[i].kind is ParenthesisOpen || tokens[i].kind is BracketOpen
                    || tokens[i].kind is BraceOpen
                &&& unclosed(tokens.skip(i)) == 1
                &&& forall|j: int| i < j <= tokens.len() ==> unclosed(#[trigger] tokens.skip(j)) <= 0
            },
            None => forall|j: int|
                0 <= j <= tokens.len() ==> unclosed(#[trigger] tokens.skip(j)) <= 0,
        },
{
    lemma_open_bracket_by_count(tokens, 0);
}

/// The commas among the first tokens that stand in no bracket of their own.
pub open spec fn top_commas(tokens: Seq<Token>, count: nat) -> nat
    decreases count,
{
    if count == 0 {
        0
    } else {
        let k = count - 1;
        top_commas(tokens, k as nat) + if tokens[k].kind is Comma && unclosed(tokens.take(k)) == 0 {
            1nat
        } else {
            0nat
        }
    }
}

proof fn lemma_commas_counted(tokens: Seq<Token>, byte: usize, count: nat)
    requires
        count <= tokens.len(),
        forall|i: int| 0 <= i < tokens.len() ==> (#[trigger] tokens[i]).span.end <= byte,
        forall|j: int| 0 <= j <= tokens.len() ==> unclosed(#[trigger] tokens.take(j)) >= 0,
    ensures
        commas(tokens.take(count as int), byte) == (
            unclosed(tokens.take(count as int)) as nat,
            top_commas(tokens, count),
        ),
    decreases count,
{
    let list = tokens.take(count as int);
    if count == 0 {
        lemma_unclosed_empty();
        assert(list =~= Seq::<Token>::empty());
    } else {
        lemma_commas_counted(tokens, byte, (count - 1) as nat);
        assert(list.drop_last() =~= tokens.take(count - 1));
        assert(list.last() == tokens[count - 1]);
        lemma_unclosed_last(list);
        assert(unclosed(tokens.take(count - 1)) >= 0);
        assert(unclosed(tokens.take(count as int)) >= 0);
    }
}

/// An argument is numbered by the commas before it that belong to the call itself: those in brackets
/// of their own do not count, nor does anything behind the cursor.
pub proof fn lemma_argument_number(tokens: Seq<Token>, byte: usize)
    requires
        forall|i: int| 0 <= i < tokens.len() ==> (#[trigger] tokens[i]).span.end <= byte,
        forall|j: int| 0 <= j <= tokens.len() ==> unclosed(#[trigger] tokens.take(j)) >= 0,
    ensures
        commas(tokens, byte).1 == top_commas(tokens, tokens.len()),
{
    lemma_commas_counted(tokens, byte, tokens.len());
    assert(tokens.take(tokens.len() as int) =~= tokens);
}

/// What ends behind the cursor is as if it were not there.
pub proof fn lemma_nothing_behind_cursor_counts(tokens: Seq<Token>, byte: usize)
    ensures
        commas(tokens, byte) == commas(tokens.filter(|t: Token| t.span.end <= byte), byte),
    decreases tokens.len(),
{
    reveal(Seq::filter);
    let seen = |t: Token| t.span.end <= byte;
    if tokens.len() > 0 {
        lemma_nothing_behind_cursor_counts(tokens.drop_last(), byte);
        if tokens.last().span.end <= byte {
            let shown = tokens.filter(seen);
            assert(shown.drop_last() =~= tokens.drop_last().filter(seen));
            assert(shown.last() == tokens.last());
        }
    }
}

/// The call around the cursor is the innermost bracket before it, where that is a parenthesis; in a
/// list or a dictionary there is no call to help with.
pub proof fn lemma_call_is_the_innermost_bracket(tokens: Seq<Token>, byte: usize, at: int)
    requires
        anchor(tokens, byte) == Some(at),
    ensures
        ({
            let before = tokens.take(at + 1);
            match call_around(tokens, byte) {
                Some((open, argument)) => {
                    &&& 0 <= open <= at
                    &&& tokens[open].kind is ParenthesisOpen
                    &&& unclosed(before.skip(open)) == 1
                    &&& forall|j: int|
                        open < j <= before.len() ==> unclosed(#[trigger] before.skip(j)) <= 0
                    &&& argument == commas(tokens.skip(open + 1), byte).1
                },
                None => forall|j: int|
                    0 <= j < before.len() && unclosed(#[trigger] before.skip(j)) == 1 && (forall|k: int|
                        j < k <= before.len() ==> unclosed(#[trigger] before.skip(k)) <= 0)
                        ==> !(tokens[j].kind is ParenthesisOpen),
            }
        }),
{
    lemma_anchor_is_last_before_cursor(tokens, byte);
    let before = tokens.take(at + 1);
    lemma_open_bracket_by_count(before, 0);
    if call_around(tokens, byte) is None {
        assert forall|j: int|
            0 <= j < before.len() && unclosed(#[trigger] before.skip(j)) == 1 && (forall|k: int|
                j < k <= before.len() ==> unclosed(#[trigger] before.skip(k)) <= 0) implies !(
        tokens[j].kind is ParenthesisOpen) by {
            let i = open_bracket(before, 0)->0;
            if j < i {
                assert(unclosed(before.skip(i)) <= 0);
            } else if i < j {
                assert(unclosed(before.skip(j)) <= 0);
            }
        }
    }
}

/// A call without any token before the cursor is no call.
pub proof fn lemma_no_call_before_first_token(tokens: Seq<Token>, byte: usize)
    requires
        forall|j: int| 0 <= j < tokens.len() ==> (#[trigger] tokens[j]).span.end > byte,
    ensures
        call_around(tokens, byte) is None,
{
    lemma_anchor_is_last_before_cursor(tokens, byte);
}

/// What is called is told by the tokens before the parenthesis: `name(` is a bare call, `.name(` one
/// of an attribute, `func name(` declares, and behind anything but a name nothing is called.
pub proof fn lemma_what_is_called(tokens: Seq<Token>, open: int, callee: int, before: int)
    requires
        0 <= before < callee < open <= tokens.len(),
        !meaningless(tokens[callee].kind),
        !meaningless(tokens[before].kind),
        forall|j: int| before < j < callee ==> meaningless((#[trigger] tokens[j]).kind),
        forall|j: int| callee < j < open ==> meaningless((#[trigger] tokens[j]).kind),
    ensures
        ({
            let shape = call_shape(tokens, open);
            let name = tokens[callee].source@;
            let named = tokens[callee].kind is Identifier || tokens[callee].kind is NameKeyword;
            let declares = tokens[before].kind is Func;
            let dotted = tokens[before].kind is Period;
            &&& !named || declares ==> shape is NotACall
            &&& named && dotted ==> shape == (CallShapeView::Attribute {
                dot: before,
                name,
                base: base_name(tokens, before),
            })
            &&& named && !declares && !dotted ==> shape == (CallShapeView::Bare { name })
        }),
{
    lemma_meaningful_is(tokens, open, callee);
    lemma_meaningful_is(tokens, callee, before);
}

/// A name that nothing stands before is called by itself, and what is no name is not called.
pub proof fn lemma_what_is_called_first(tokens: Seq<Token>, open: int, callee: int)
    requires
        0 <= callee < open <= tokens.len(),
        !meaningless(tokens[callee].kind),
        forall|j: int| 0 <= j < callee ==> meaningless((#[trigger] tokens[j]).kind),
        forall|j: int| callee < j < open ==> meaningless((#[trigger] tokens[j]).kind),
    ensures
        tokens[callee].kind is Identifier || tokens[callee].kind is NameKeyword ==> call_shape(
            tokens,
            open,
        ) == (CallShapeView::Bare { name: tokens[callee].source@ }),
        !(tokens[callee].kind is Identifier) && !(tokens[callee].kind is NameKeyword) ==> call_shape(
            tokens,
            open,
        ) is NotACall,
{
    lemma_meaningful_is(tokens, open, callee);
    lemma_last_meaningful(tokens.take(callee));
    if last_meaningful(tokens.take(callee)) is Some {
        let at = last_meaningful(tokens.take(callee))->0;
        assert(tokens.take(callee)[at] == tokens[at]);
        assert(meaningless(tokens[at].kind));
    }
}

proof fn lemma_meaningful_is(tokens: Seq<Token>, end: int, at: int)
    requires
        0 <= at < end <= tokens.len(),
        !meaningless(tokens[at].kind),
        forall|j: int| at < j < end ==> meaningless((#[trigger] tokens[j]).kind),
    ensures
        last_meaningful(tokens.take(end)) == Some(at),
{
    let list = tokens.take(end);
    lemma_last_meaningful(list);
    assert(list[at] == tokens[at]);
    match last_meaningful(list) {
        Some(found) => {
            assert(list[found] == tokens[found]);
            if at < found {
                assert(meaningless(tokens[found].kind));
            } else if found < at {
                assert(meaningless(list[at].kind));
            }
        },
        None => {
            assert(meaningless(list[at].kind));
        },
    }
}

/// The base of an attribute is the name right before the dot, and nothing where no name is there.
pub proof fn lemma_base_of_attribute(tokens: Seq<Token>, dot: int, base: int)
    requires
        0 <= base < dot <= tokens.len(),
        forall|j: int| base < j < dot ==> meaningless((#[trigger] tokens[j]).kind),
        !meaningless(tokens[base].kind),
    ensures
        tokens[base].kind is Identifier || tokens[base].kind is NameKeyword ==> base_name(
            tokens,
            dot,
        ) == Some(tokens[base].source@),
        !(tokens[base].kind is Identifier) && !(tokens[base].kind is NameKeyword) ==> base_name(
            tokens,
            dot,
        ) is None,
{
    lemma_meaningful_is(tokens, dot, base);
}

/// The resolved call at a parenthesis is one whose site has it, and no other such call starts later;
/// where some call's site has it, one is found.
pub proof fn lemma_innermost_call(bindings: Seq<CallBinding>, paren: usize)
    ensures
        match innermost_call(bindings, paren) {
            Some(k) => {
                &&& 0 <= k < bindings.len()
                &&& bindings[k].call_site.start < paren <= bindings[k].call_site.end
                &&& forall|j: int|
                    0 <= j < bindings.len() && (#[trigger] bindings[j]).call_site.start < paren
                        <= bindings[j].call_site.end ==> bindings[j].call_site.start
                        < bindings[k].call_site.start || (bindings[j].call_site.start
                        == bindings[k].call_site.start && j <= k)
            },
            None => forall|j: int|
                0 <= j < bindings.len() ==> !((#[trigger] bindings[j]).call_site.start < paren
                    <= bindings[j].call_site.end),
        },
    decreases bindings.len(),
{
    if bindings.len() > 0 {
        let rest = bindings.drop_last();
        lemma_innermost_call(rest, paren);
        assert forall|j: int| 0 <= j < rest.len() implies rest[j] == #[trigger] bindings[j] by {}
    }
}

/// The expression that ends at a byte is the narrowest node with a known type that does.
pub proof fn lemma_narrowest_typed(nodes: Seq<syntax::Node>, typed: Seq<bool>, end: usize)
    ensures
        match narrowest_typed(nodes, typed, end) {
            Some(k) => {
                &&& 0 <= k < nodes.len() && k < typed.len() && typed[k]
                &&& nodes[k].span.end == end
                &&& forall|j: int|
                    0 <= j < nodes.len() && j < typed.len() && typed[j] && (#[trigger]
                    nodes[j]).span.end == end ==> nodes[j].span.start < nodes[k].span.start || (
                    nodes[j].span.start == nodes[k].span.start && j <= k)
            },
            None => forall|j: int|
                0 <= j < nodes.len() && j < typed.len() && typed[j] ==> (#[trigger]
                nodes[j]).span.end != end,
        },
    decreases nodes.len(),
{
    if nodes.len() > 0 {
        let rest = nodes.drop_last();
        lemma_narrowest_typed(rest, typed, end);
        assert forall|j: int| 0 <= j < rest.len() implies rest[j] == #[trigger] nodes[j] by {}
    }
}

/// A method of a class is the first function with the name that the class declares; what is no
/// function is never taken for one.
pub proof fn lemma_first_method(members: Seq<MemberDecl>, i: int, name: Seq<char>)
    requires
        0 <= i,
    ensures
        match method_from(members, i, name) {
            Some(member) => exists|k: int|
                i <= k < members.len() && #[trigger] members[k] == member && member.is_func
                    && member.name@ == name && forall|j: int|
                    i <= j < k ==> !((#[trigger] members[j]).is_func && members[j].name@ == name),
            None => forall|j: int|
                i <= j < members.len() ==> !((#[trigger] members[j]).is_func && members[j].name@
                    == name),
        },
    decreases members.len() - i,
{
    if i < members.len() {
        if members[i].is_func && members[i].name@ == name {
            assert(members[i] == method_from(members, i, name)->0);
        } else {
            lemma_first_method(members, i + 1, name);
            if method_from(members, i + 1, name) is Some {
                let member = method_from(members, i + 1, name)->0;
                let k = choose|k: int|
                    i + 1 <= k < members.len() && #[trigger] members[k] == member && member.is_func
                        && member.name@ == name && forall|j: int|
                        i + 1 <= j < k ==> !((#[trigger] members[j]).is_func && members[j].name@
                            == name);
                assert(members[k] == member);
            }
        }
    }
}

/// A path of inner classes is followed step by step, each to the first class with the name.
pub proof fn lemma_first_class(classes: Seq<Interface>, i: int, name: Seq<char>)
    requires
        0 <= i,
    ensures
        match class_from(classes, i, name) {
            Some(class) => exists|k: int|
                i <= k < classes.len() && #[trigger] classes[k] == class && (class.class_name
                    matches Some(text) && text@ == name) && forall|j: int|
                    i <= j < k ==> !((#[trigger] classes[j]).class_name matches Some(text) && text@
                        == name),
            None => forall|j: int|
                i <= j < classes.len() ==> !((#[trigger] classes[j]).class_name matches Some(text)
                    && text@ == name),
        },
    decreases classes.len() - i,
{
    if i < classes.len() {
        if text::opt_string(classes[i].class_name) == Some(name) {
            assert(classes[i] == class_from(classes, i, name)->0);
        } else {
            lemma_first_class(classes, i + 1, name);
            if class_from(classes, i + 1, name) is Some {
                let class = class_from(classes, i + 1, name)->0;
                let k = choose|k: int|
                    i + 1 <= k < classes.len() && #[trigger] classes[k] == class && (
                    class.class_name matches Some(text) && text@ == name) && forall|j: int|
                        i + 1 <= j < k ==> !((#[trigger] classes[j]).class_name matches Some(text)
                            && text@ == name);
                assert(classes[k] == class);
            }
        }
    }
}

/// Without a path the class of a script is the script itself; a path leads through the first inner
/// class with its first name.
pub proof fn lemma_path_of_classes(root: Interface, path: Seq<String>, i: int)
    requires
        0 <= i,
    ensures
        i >= path.len() ==> owner(root, path, i) == Some(root),
        i < path.len() && class_from(root.inner@, 0, path[i]@) is None ==> owner(root, path, i)
            is None,
        i < path.len() && class_from(root.inner@, 0, path[i]@) is Some ==> owner(root, path, i)
            == owner(class_from(root.inner@, 0, path[i]@)->0, path, i + 1),
{
}

/// A method of a script is shown from its own declaration: the function whose name stands where the
/// class declares it, with its documentation. Without such a function nothing is shown.
pub proof fn lemma_script_method_is_its_declaration(
    source: ScriptSource,
    name: Seq<char>,
    k: int,
)
    requires
        0 <= k < source.interface.members@.len(),
        source.interface.members@[k].is_func,
        source.interface.members@[k].name@ == name,
        forall|j: int|
            0 <= j < k ==> !((#[trigger] source.interface.members@[j]).is_func
                && source.interface.members@[j].name@ == name),
    ensures
        ({
            let member = source.interface.members@[k];
            let sig = method_signature(source, Seq::empty(), name);
            let declared = syntax::named_from(source.tree, 0, member.name_span, name);
            &&& declared is None ==> sig is None
            &&& declared matches Some(function) ==> sig == Some(
                signature::function_signature(
                    source.tree,
                    source.text@,
                    signature::annotation(
                        source.tree,
                        source.text@,
                        function.return_type,
                        "void"@,
                    ),
                    name,
                    function,
                    match member.doc {
                        Some(doc) => if doc@.len() > 0 {
                            Some(doc@)
                        } else {
                            None
                        },
                        None => None,
                    },
                ),
            )
        }),
{
    lemma_method_is(source.interface.members@, 0, name, k);
}

proof fn lemma_method_is(members: Seq<MemberDecl>, i: int, name: Seq<char>, k: int)
    requires
        0 <= i <= k < members.len(),
        members[k].is_func && members[k].name@ == name,
        forall|j: int|
            i <= j < k ==> !((#[trigger] members[j]).is_func && members[j].name@ == name),
    ensures
        method_from(members, i, name) == Some(members[k]),
    decreases k - i,
{
    if i < k {
        assert(!(members[i].is_func && members[i].name@ == name));
        lemma_method_is(members, i + 1, name, k);
    }
}

/// A method of the script's own class is that of the nearest script which declares it: no script
/// behind that one and no native class hides it.
pub proof fn lemma_nearest_script_wins(
    chain: Seq<ScriptSource>,
    native: Option<NativeMember>,
    name: Seq<char>,
    k: int,
    m: int,
)
    requires
        0 <= k < chain.len(),
        0 <= m < chain[k].interface.members@.len(),
        chain[k].interface.members@[m].is_func,
        chain[k].interface.members@[m].name@ == name,
        forall|j: int, i: int|
            0 <= j < k && 0 <= i < chain[j].interface.members@.len() ==> !((#[trigger]
            chain[j].interface.members@[i]).is_func && chain[j].interface.members@[i].name@
                == name),
    ensures
        self_method(chain, 0, native, name) == method_signature(chain[k], Seq::empty(), name),
        forall|others: Seq<ScriptSource>, other: Option<NativeMember>|
            others.len() > k && others.take(k + 1) == chain.take(k + 1) ==> #[trigger] self_method(
                others,
                0,
                other,
                name,
            ) == self_method(chain, 0, native, name),
{
    lemma_nearest_from(chain, 0, native, name, k, m);
    assert forall|others: Seq<ScriptSource>, other: Option<NativeMember>|
        others.len() > k && others.take(k + 1) == chain.take(k + 1) implies #[trigger] self_method(
        others,
        0,
        other,
        name,
    ) == self_method(chain, 0, native, name) by {
        assert forall|j: int| 0 <= j <= k implies #[trigger] others[j] == chain[j] by {
            assert(others.take(k + 1)[j] == chain.take(k + 1)[j]);
        }
        lemma_nearest_from(others, 0, other, name, k, m);
    }
}

proof fn lemma_nearest_from(
    chain: Seq<ScriptSource>,
    i: int,
    native: Option<NativeMember>,
    name: Seq<char>,
    k: int,
    m: int,
)
    requires
        0 <= i <= k < chain.len(),
        0 <= m < chain[k].interface.members@.len(),
        chain[k].interface.members@[m].is_func,
        chain[k].interface.members@[m].name@ == name,
        forall|j: int, x: int|
            i <= j < k && 0 <= x < chain[j].interface.members@.len() ==> !((#[trigger]
            chain[j].interface.members@[x]).is_func && chain[j].interface.members@[x].name@
                == name),
    ensures
        self_method(chain, i, native, name) == method_signature(chain[k], Seq::empty(), name),
    decreases k - i,
{
    let members = chain[i].interface.members@;
    lemma_first_method(members, 0, name);
    if i < k {
        if method_from(members, 0, name) is Some {
            let member = method_from(members, 0, name)->0;
            let x = choose|x: int|
                0 <= x < members.len() && #[trigger] members[x] == member && member.is_func
                    && member.name@ == name && forall|j: int|
                    0 <= j < x ==> !((#[trigger] members[j]).is_func && members[j].name@ == name);
            assert(chain[i].interface.members@[x] == member);
        }
        lemma_nearest_from(chain, i + 1, native, name, k, m);
    } else {
        assert(members[m].is_func);
    }
}

/// Only where no script of the chain declares the method is it that of the native class, and only a
/// native method is one.
pub proof fn lemma_native_method_is_last_resort(
    chain: Seq<ScriptSource>,
    i: int,
    native: Option<NativeMember>,
    name: Seq<char>,
)
    requires
        0 <= i,
        forall|j: int, x: int|
            i <= j < chain.len() && 0 <= x < chain[j].interface.members@.len() ==> !((#[trigger]
            chain[j].interface.members@[x]).is_func && chain[j].interface.members@[x].name@
                == name),
    ensures
        native matches Some(NativeMember::Method(method)) ==> self_method(chain, i, native, name)
            == Some(signature::method_signature(name, method)),
        !(native matches Some(NativeMember::Method(_))) ==> self_method(chain, i, native, name)
            is None,
    decreases chain.len() - i,
{
    if i < chain.len() {
        let members = chain[i].interface.members@;
        lemma_first_method(members, 0, name);
        if method_from(members, 0, name) is Some {
            let member = method_from(members, 0, name)->0;
            let x = choose|x: int|
                0 <= x < members.len() && #[trigger] members[x] == member && member.is_func
                    && member.name@ == name && forall|j: int|
                    0 <= j < x ==> !((#[trigger] members[j]).is_func && members[j].name@ == name);
            assert(chain[i].interface.members@[x] == member);
        }
        lemma_native_method_is_last_resort(chain, i + 1, native, name);
    }
}

/// A bare name is a utility before anything else, then a type to construct, and only then a method
/// of the script's own class.
pub proof fn lemma_bare_name_precedence(
    callee: BareCallee,
    name: Seq<char>,
    arg_index: usize,
    sigs: Option<Seq<SigView>>,
)
    requires
        resolves_bare(callee, name, arg_index, sigs),
    ensures
        callee.utility matches Some(utility) ==> sigs matches Some(list) && list.len() == 1
            && list[0] == signature::utility_signature(name, utility),
        callee.utility is None && callee.constructors@.len() > 0 ==> offers_constructors(
            name,
            callee.constructors@,
            arg_index,
            sigs,
        ),
        callee.utility is None && callee.constructors@.len() == 0 ==> {
            let own = match callee.chain {
                Some(chain) => self_method(chain@, 0, callee.native, name),
                None => None,
            };
            &&& sigs is Some == own is Some
            &&& sigs matches Some(list) ==> list.len() == 1 && list[0] == own->0
        },
{
}

/// The constructors offered for an argument are those that have a parameter for it, as they are
/// listed; where none has, all of them, the widest first.
pub proof fn lemma_constructors_offered(
    builtin: Seq<char>,
    constructors: Seq<Vec<NativeParam>>,
    arg_index: usize,
    sigs: Seq<SigView>,
)
    requires
        offers_constructors(builtin, constructors, arg_index, Some(sigs)),
    ensures
        ({
            let wide = constructors.filter(|c: Vec<NativeParam>| arg_index < c@.len());
            &&& wide.len() > 0 ==> sigs.len() == wide.len() && forall|i: int|
                0 <= i < sigs.len() ==> #[trigger] sigs[i] == signature::constructor_signature(
                    builtin,
                    wide[i]@,
                )
            &&& wide.len() == 0 ==> sigs.len() == constructors.len() && forall|i: int|
                0 < i < sigs.len() ==> (#[trigger] sigs[i]).params.len() <= sigs[i
                    - 1].params.len()
            &&& wide.len() == 0 ==> forall|i: int|
                0 <= i < sigs.len() ==> exists|c: int|
                    0 <= c < constructors.len() && #[trigger] sigs[i]
                        == signature::constructor_signature(
                        builtin,
                        (#[trigger] constructors[c])@,
                    )
        }),
{
    lemma_fitting_are_the_wide_ones(builtin, constructors, arg_index);
    let wide = constructors.filter(|c: Vec<NativeParam>| arg_index < c@.len());
    if wide.len() == 0 {
        let order = choose|order: Seq<usize>| #[trigger]
            widest_first(constructors, order) && sigs.len() == order.len() && forall|k: int|
                0 <= k < sigs.len() ==> #[trigger] sigs[k] == signature::constructor_signature(
                    builtin,
                    constructors[order[k] as int]@,
                );
        assert forall|i: int| 0 < i < sigs.len() implies (#[trigger] sigs[i]).params.len() <= sigs[i
            - 1].params.len() by {
            assert(comes_first(constructors, order[i - 1], order[i]));
            signature::lemma_constructor_shown(builtin, constructors[order[i] as int]@);
            signature::lemma_constructor_shown(builtin, constructors[order[i - 1] as int]@);
            assert(sigs[i - 1] == signature::constructor_signature(
                builtin,
                constructors[order[i - 1] as int]@,
            ));
        }
        assert forall|i: int| 0 <= i < sigs.len() implies exists|c: int|
            0 <= c < constructors.len() && #[trigger] sigs[i] == signature::constructor_signature(
                builtin,
                (#[trigger] constructors[c])@,
            ) by {
            assert(order[i] < constructors.len());
            assert(sigs[i] == signature::constructor_signature(
                builtin,
                constructors[order[i] as int]@,
            ));
        }
    }
}

proof fn lemma_fitting_are_the_wide_ones(
    builtin: Seq<char>,
    constructors: Seq<Vec<NativeParam>>,
    arg_index: usize,
)
    ensures
        ({
            let wide = constructors.filter(|c: Vec<NativeParam>| arg_index < c@.len());
            let sigs = fitting(builtin, constructors, arg_index);
            &&& sigs.len() == wide.len()
            &&& forall|i: int|
                0 <= i < sigs.len() ==> #[trigger] sigs[i] == signature::constructor_signature(
                    builtin,
                    wide[i]@,
                )
        }),
    decreases constructors.len(),
{
    reveal(Seq::filter);
    if constructors.len() > 0 {
        lemma_fitting_are_the_wide_ones(builtin, constructors.drop_last(), arg_index);
    }
}

/// A construction of a script class is its own `_init`, and without one that could be found a call
/// of its name with unknown parameters.
pub proof fn lemma_construction_of_a_script(source: ScriptSource)
    ensures
        method_signature(source, Seq::empty(), "_init"@) matches Some(sig) ==> init_signature(source)
            == sig,
        method_signature(source, Seq::empty(), "_init"@) is None ==> (source.interface.class_name
            matches Some(name) ==> init_signature(source).label == name@ + "(...)"@),
        method_signature(source, Seq::empty(), "_init"@) is None && source.interface.class_name
            is None ==> init_signature(source).label == "_init"@ + "(...)"@,
{
    match source.interface.class_name {
        Some(name) => signature::lemma_bare_constructor_shown(name@),
        None => signature::lemma_bare_constructor_shown("_init"@),
    }
}

/// `Type.new(` constructs the type: a native class with unknown parameters, a script class through
/// its `_init`. Of a name that is no type, and for any other method, the base is a value.
pub proof fn lemma_new_constructs_the_type(
    tree: ParseTree,
    src: Seq<char>,
    callee: AttributeCallee,
    base_as_type: TypeName,
    base: Option<Seq<char>>,
    method: Seq<char>,
)
    ensures
        ({
            let sig = dotted_signature(tree, src, callee, base_as_type, base, method);
            let value = attribute_signature(tree, src, callee, base, method);
            &&& base matches Some(name) ==> method == "new"@ && base_as_type.is_native_class
                ==> sig is Some && sig->0.label == name + "(...)"@
            &&& base is Some && method == "new"@ && !base_as_type.is_native_class ==> (
            base_as_type.class matches Some(source) ==> sig == Some(init_signature(source)))
            &&& method != "new"@ || base is None ==> sig == value
            &&& !base_as_type.is_native_class && base_as_type.class is None ==> sig == value
        }),
{
    if base is Some {
        signature::lemma_bare_constructor_shown(base->0);
    }
}

/// What a method of a value is shown as follows the type of the value: a native or builtin type has
/// the method that it declares; a script class its `_init` for `new`, else the method that the
/// analyzer found, else the one that the class declares; a type that is not known has none.
pub proof fn lemma_method_of_a_value(
    tree: ParseTree,
    src: Seq<char>,
    callee: AttributeCallee,
    base: Option<Seq<char>>,
    method: Seq<char>,
)
    ensures
        ({
            let sig = attribute_signature(tree, src, callee, base, method);
            let declared = match callee.member {
                Some(NativeMember::Method(native)) => Some(
                    signature::method_signature(method, native),
                ),
                _ => None,
            };
            let found = match callee.target {
                Some(target) => method_signature(target.source, target.path@, method),
                None => None,
            };
            let lambda = lambda_signature(tree, src, base, method, callee.local);
            match callee.base_type {
                None => sig is None,
                Some(BaseType::Other) => sig is None,
                Some(BaseType::Native(class)) => sig == (if class@.len() == 0 {
                    None
                } else {
                    declared
                }),
                Some(BaseType::Builtin(builtin)) => {
                    &&& builtin@ != "Callable"@ ==> sig == declared
                    &&& builtin@ == "Callable"@ && lambda is None ==> sig == declared
                    &&& builtin@ == "Callable"@ && lambda is Some ==> sig == lambda
                },
                Some(BaseType::Script(class)) => {
                    &&& method == "new"@ ==> sig == Some(init_signature(class.source))
                    &&& method != "new"@ && found is Some ==> sig == found
                    &&& method != "new"@ && found is None ==> sig == method_signature(
                        class.source,
                        class.path@,
                        method,
                    )
                },
            }
        }),
{
}

/// Only `call` and `call_deferred` hand their arguments to a lambda as they are: no other method of
/// a callable is shown with the lambda's parameters.
pub proof fn lemma_lambda_is_called_directly(
    tree: ParseTree,
    src: Seq<char>,
    base: Option<Seq<char>>,
    method: Seq<char>,
    local: Option<LocalBinding>,
)
    ensures
        ({
            let sig = lambda_signature(tree, src, base, method, local);
            &&& sig is Some ==> base is Some && (method == "call"@ || method == "call_deferred"@)
            &&& base matches Some(name) ==> method == "call"@ || method == "call_deferred"@ ==> (
            bound_lambda(tree, name, local) matches Some(function) ==> sig == Some(
                signature::function_signature(
                    tree,
                    src,
                    signature::lambda_return(tree, src, function),
                    method,
                    function,
                    None,
                ),
            ))
            &&& base matches Some(name) ==> bound_lambda(tree, name, local) is None ==> sig is None
        }),
{
}

/// A local name is its lambda where its function is known and no assignment writes to any of its
/// occurrences: the function of the lambda that its declaration is initialized with.
pub proof fn lemma_local_lambda(
    tree: ParseTree,
    name: Seq<char>,
    binding: LocalBinding,
)
    ensures
        !binding.has_scope ==> bound_lambda(tree, name, Some(binding)) is None,
        (exists|k: int, i: int|
            #![trigger binding.occurrences@[k], tree.nodes@[i]]
            0 <= k < binding.occurrences@.len() && 0 <= i < tree.nodes@.len() && (tree.nodes@[i].kind
                matches syntax::NodeKind::Assignment { assignee: Some(id) } && id
                < tree.nodes@.len() && tree.nodes@[id as int].span == binding.occurrences@[k]))
            ==> bound_lambda(tree, name, Some(binding)) is None,
        binding.has_scope && (forall|i: int|
            0 <= i < tree.nodes@.len() ==> !((#[trigger] tree.nodes@[i]).kind is Assignment)) ==> (
        syntax::initializer_from(tree, 0, binding.decl) matches Some(init) ==> bound_lambda(
            tree,
            name,
            Some(binding),
        ) == syntax::lambda_function(tree, init)),
{
    if exists|k: int, i: int|
        #![trigger binding.occurrences@[k], tree.nodes@[i]]
        0 <= k < binding.occurrences@.len() && 0 <= i < tree.nodes@.len() && (tree.nodes@[i].kind
            matches syntax::NodeKind::Assignment { assignee: Some(id) } && id < tree.nodes@.len()
            && tree.nodes@[id as int].span == binding.occurrences@[k]) {
        let (k, i) = choose|k: int, i: int|
            #![trigger binding.occurrences@[k], tree.nodes@[i]]
            0 <= k < binding.occurrences@.len() && 0 <= i < tree.nodes@.len() && (
            tree.nodes@[i].kind matches syntax::NodeKind::Assignment { assignee: Some(id) } && id
                < tree.nodes@.len() && tree.nodes@[id as int].span == binding.occurrences@[k]);
        assert(syntax::assigns_at(tree, tree.nodes@[i], binding.occurrences@[k]));
        assert(written_at(tree, binding.occurrences@));
    }
}

/// The signature that the user chose stays the active one while the help is shown again, as long as
/// there is one of that number; else the first is.
pub proof fn lemma_choice_of_signature(context: Option<SignatureHelpContext>, count: nat)
    ensures
        context is None ==> retained(context, count) == 0,
        context matches Some(shown) ==> {
            &&& !shown.is_retrigger || shown.active_signature is None ==> retained(context, count)
                == 0
            &&& shown.active_signature matches Some(prior) ==> {
                &&& shown.is_retrigger && prior < count ==> retained(context, count) == prior
                &&& prior >= count ==> retained(context, count) == 0
            }
        },
{
}

/// A call of each shape is shown what belongs to it: nothing for what is no call, one signature at
/// most for an attribute, and what the bare name has for a bare name.
pub proof fn lemma_signatures_by_shape(
    shape: CallShapeView,
    tree: ParseTree,
    src: Seq<char>,
    dotted: AttributeCallee,
    base_as_type: TypeName,
    bare: BareCallee,
    arg_index: usize,
    sigs: Option<Seq<SigView>>,
)
    requires
        resolves(shape, tree, src, dotted, base_as_type, bare, arg_index, sigs),
    ensures
        shape is NotACall ==> sigs is None,
        shape matches CallShapeView::Bare { name } ==> resolves_bare(bare, name, arg_index, sigs),
        shape matches CallShapeView::Attribute { dot: _, name, base } ==> {
            let sig = dotted_signature(tree, src, dotted, base_as_type, base, name);
            &&& sigs is Some == sig is Some
            &&& sigs matches Some(list) ==> list.len() == 1 && list[0] == sig->0
        },
{
}

/// What is said of signatures, and of what is called, is said of the values themselves.
pub proof fn lemma_signatures_as_they_are(
    sig: Option<Sig>,
    sigs: Option<Vec<Sig>>,
    shape: CallShape,
)
    ensures
        sig is None <==> sig_view(sig) is None,
        sig matches Some(one) ==> sig_view(sig) == Some(one@),
        sigs is None <==> sigs_view(sigs) is None,
        sigs matches Some(list) ==> sigs_view(sigs)->0.len() == list@.len() && forall|i: int|
            0 <= i < list@.len() ==> #[trigger] sigs_view(sigs)->0[i] == list@[i]@,
        shape is NotACall <==> shape@ is NotACall,
        shape matches CallShape::Bare { name } ==> shape@ == (CallShapeView::Bare { name: name@ }),
        shape matches CallShape::Attribute { dot, name, base } ==> shape@
            == (CallShapeView::Attribute {
            dot: dot as int,
            name: name@,
            base: text::opt_string(base),
        }),
{
}

/// A method of any class of a script, however deep, is shown from its own declaration in that class;
/// one that the class does not declare is not shown.
pub proof fn lemma_method_of_an_inner_class(
    source: ScriptSource,
    path: Seq<String>,
    name: Seq<char>,
    class: Interface,
    k: int,
)
    requires
        owner(source.interface, path, 0) == Some(class),
        0 <= k < class.members@.len(),
        class.members@[k].is_func,
        class.members@[k].name@ == name,
        forall|j: int|
            0 <= j < k ==> !((#[trigger] class.members@[j]).is_func && class.members@[j].name@
                == name),
    ensures
        ({
            let sig = method_signature(source, path, name);
            let declared = syntax::named_from(source.tree, 0, class.members@[k].name_span, name);
            &&& declared is None ==> sig is None
            &&& declared matches Some(function) ==> sig == Some(
                signature::function_signature(
                    source.tree,
                    source.text@,
                    signature::annotation(
                        source.tree,
                        source.text@,
                        function.return_type,
                        "void"@,
                    ),
                    name,
                    function,
                    match class.members@[k].doc {
                        Some(doc) => if doc@.len() > 0 {
                            Some(doc@)
                        } else {
                            None
                        },
                        None => None,
                    },
                ),
            )
        }),
{
    lemma_first_method(class.members@, 0, name);
    assert(method_from(class.members@, 0, name) == Some(class.members@[k]));
}

/// Where there is no such class, or it has no such method, nothing is shown.
pub proof fn lemma_no_such_method(source: ScriptSource, path: Seq<String>, name: Seq<char>)
    ensures
        owner(source.interface, path, 0) is None ==> method_signature(source, path, name) is None,
        owner(source.interface, path, 0) matches Some(class) ==> (method_from(
            class.members@,
            0,
            name,
        ) is None ==> method_signature(source, path, name) is None),
{
}

} // verus!
