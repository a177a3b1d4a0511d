use gd_server::signature::{
    clean_type_text, utf16_len, LabelBuilder, NativeFn, NativeParam, ParameterLabel, Sig,
    SignatureHelpCaps, SignatureInformation,
};
use gd_server::signature_help::{
    arg_index_after, builtin_constructor_sigs, call_target_at_open_paren, callee_shape,
    enclosing_call, lambda_bound_to, lambda_call_sig, native_method_sig, resolve_bare_call,
    resolve_self_method, resolve_signatures, resolve_typed_new, retained_active_signature,
    script_init_sig, script_method_sig, signature_help, smallest_typed_ending_at,
    AttributeCallee, BareCallee, BaseType, CallBinding, CallShape, Interface, LocalBinding,
    MemberDecl, NativeMember, ScriptClass, ScriptSource, SignatureHelpContext, TypeName,
};
use gd_server::syntax::{
    assignee_name, class_level_var_ident, function_at_name_span, ident_text, is_in_function,
    node_source, text_in_span, ByteSpan, FunctionNode, Node, NodeKind, ParameterNode, ParseTree,
    Token, TokenKind,
};

const FULL: SignatureHelpCaps =
    SignatureHelpCaps { label_offset_support: true, active_parameter_support: true };
const BARE: SignatureHelpCaps =
    SignatureHelpCaps { label_offset_support: false, active_parameter_support: false };

fn span(start: usize, end: usize) -> ByteSpan {
    ByteSpan { start, end }
}

/// Where the `n`th occurrence of a text lies.
fn at(src: &str, part: &str, n: usize) -> ByteSpan {
    let (start, _) = src.match_indices(part).nth(n).expect("the text occurs");
    span(start, start + part.len())
}

fn ident(src: &str, name: &str, n: usize) -> Node {
    Node { span: at(src, name, n), kind: NodeKind::Identifier(name.to_string()) }
}

fn other(span: ByteSpan) -> Node {
    Node { span, kind: NodeKind::Other }
}

const TWO_FUNCTIONS: &str = "func alpha(a: int):\n\tpass\nfunc bravo(b: int):\n\tpass\n";

/// `func alpha(a: int)` and `func bravo(b: int)`.
fn two_functions() -> ParseTree {
    let src = TWO_FUNCTIONS;
    let function = |identifier: usize, parameter: usize| {
        NodeKind::Function(FunctionNode {
            identifier: Some(identifier),
            parameters: vec![parameter],
            rest_parameter: None,
            return_type: None,
        })
    };
    let parameter = |identifier: usize, ty: usize| {
        NodeKind::Parameter(ParameterNode {
            identifier: Some(identifier),
            datatype_specifier: Some(ty),
            initializer: None,
        })
    };
    ParseTree {
        nodes: vec![
            Node { span: span(0, 25), kind: function(1, 2) },
            ident(src, "alpha", 0),
            Node { span: at(src, "a: int", 0), kind: parameter(3, 4) },
            Node { span: span(11, 12), kind: NodeKind::Identifier("a".to_string()) },
            other(at(src, "int", 0)),
            Node { span: span(26, 51), kind: function(6, 7) },
            ident(src, "bravo", 0),
            Node { span: at(src, "b: int", 0), kind: parameter(8, 9) },
            Node { span: span(37, 38), kind: NodeKind::Identifier("b".to_string()) },
            other(at(src, "int", 1)),
        ],
    }
}

fn label(sig: Sig) -> String {
    sig.into_lsp(0, &FULL).label
}

#[test]
fn function_at_name_span_rejects_span_match_with_wrong_name() {
    let tree = two_functions();
    let alpha_span = tree.get(1).unwrap().span;
    assert_eq!(ident_text(&tree, 1), "alpha");
    assert!(function_at_name_span(&tree, alpha_span, "bravo").is_none());
    assert!(function_at_name_span(&tree, alpha_span, "alpha").is_some());
}

#[test]
fn source_is_cut_at_whole_characters() {
    let src = "a\u{e9}b";
    assert_eq!(text_in_span(src, span(1, 3)), "\u{e9}");
    assert_eq!(text_in_span(src, span(2, 3)), "");
    assert_eq!(text_in_span(src, span(3, 9)), "b", "a range ends with the text");
    assert_eq!(text_in_span(src, span(3, 1)), "");
    let tree = two_functions();
    assert_eq!(node_source(&tree, TWO_FUNCTIONS, 2), "a: int");
    assert_eq!(node_source(&tree, TWO_FUNCTIONS, 99), "");
    assert!(is_in_function(&tree, 12));
    assert!(!is_in_function(&tree, 60));
}

#[test]
fn a_function_is_labelled_by_its_source() {
    let tree = two_functions();
    let function = function_at_name_span(&tree, tree.get(6).unwrap().span, "bravo").unwrap();
    let sig = Sig::from_function_node(&tree, TWO_FUNCTIONS, "bravo", function, None);
    assert_eq!(label(sig), "void bravo(b: int)");
    let sig = Sig::from_lambda(&tree, TWO_FUNCTIONS, "call", function);
    assert_eq!(label(sig), "Variant call(b: int)");
    assert_eq!(clean_type_text(" -> int "), "int");
    assert_eq!(clean_type_text("->: int"), "int");
    assert_eq!(clean_type_text(": Array[int]"), "Array[int]");
}

fn param(name: &str, ty: &str, default_value: Option<&str>) -> NativeParam {
    NativeParam {
        name: name.to_string(),
        ty: ty.to_string(),
        default_value: default_value.map(|d| d.to_string()),
    }
}

fn native(params: Vec<NativeParam>, is_vararg: bool) -> NativeFn {
    NativeFn {
        return_type: "void".to_string(),
        params,
        is_vararg,
        description: "Grows.".to_string(),
    }
}

fn shown(sig: Sig, arg_index: usize, caps: &SignatureHelpCaps) -> SignatureInformation {
    sig.into_lsp(arg_index, caps)
}

#[test]
fn native_callables_show_defaults_and_the_rest() {
    let method = native(vec![param("by", "int", Some("1"))], true);
    let info = shown(Sig::from_native_method("grow", &method), 0, &FULL);
    assert_eq!(info.label, "void grow(by: int = 1, ...args: Array)");
    assert_eq!(info.documentation.as_deref(), Some("Grows."));
    assert_eq!(info.parameters[0], ParameterLabel::Offsets(10, 21));
    assert_eq!(info.parameters[1], ParameterLabel::Offsets(23, 37));
    let utility = shown(Sig::from_utility("grow", &method), 0, &FULL);
    assert!(utility.documentation.is_none());
    let constructor = Sig::from_builtin_constructor("Vector2", &vec![param("x", "float", None)]);
    assert_eq!(label(constructor), "Vector2 Vector2(x: float)");
    assert_eq!(label(Sig::constructor("Node")), "Node(...)");
}

#[test]
fn offsets_are_counted_in_utf16() {
    let mut builder = LabelBuilder::new("\u{1f600}(".to_string());
    builder.sep(0);
    builder.param("a");
    builder.sep(1);
    builder.param("b");
    builder.vararg();
    let info = builder.finish(None).into_lsp(1, &FULL);
    assert_eq!(info.label, "\u{1f600}(a, b, ...args: Array)");
    assert_eq!(info.parameters[0], ParameterLabel::Offsets(3, 4));
    assert_eq!(info.parameters[1], ParameterLabel::Offsets(6, 7));
    assert_eq!(info.active_parameter, Some(1));
    assert_eq!(utf16_len("a\u{1f600}"), 3);
}

#[test]
fn the_active_parameter_is_one_of_them() {
    let two = || Sig::from_native_method("f", &native(vec![param("a", "int", None), param("b", "int", None)], false));
    assert_eq!(two().active_parameter(0), 0);
    assert_eq!(two().active_parameter(1), 1);
    assert_eq!(two().active_parameter(9), 1);
    let none = Sig::from_native_method("f", &native(vec![], false));
    assert_eq!(none.active_parameter(3), 0);
    let info = shown(two(), 1, &BARE);
    assert_eq!(info.parameters[1], ParameterLabel::Simple("b: int".to_string()));
    assert_eq!(info.active_parameter, None);
}

/// The tokens of a line: names, dots, commas, brackets.
fn tokens(src: &str) -> Vec<Token> {
    let mut list: Vec<Token> = Vec::new();
    let mut name: Option<usize> = None;
    let bytes: Vec<char> = src.chars().collect();
    for i in 0..=bytes.len() {
        let c = if i < bytes.len() { bytes[i] } else { ' ' };
        if c.is_alphanumeric() || c == '_' {
            if name.is_none() {
                name = Some(i);
            }
            continue;
        }
        if let Some(start) = name.take() {
            list.push(Token {
                kind: TokenKind::Identifier,
                span: span(start, i),
                source: src[start..i].to_string(),
            });
        }
        let kind = match c {
            '.' => TokenKind::Period,
            ',' => TokenKind::Comma,
            '(' => TokenKind::ParenthesisOpen,
            ')' => TokenKind::ParenthesisClose,
            '[' => TokenKind::BracketOpen,
            ']' => TokenKind::BracketClose,
            _ => continue,
        };
        list.push(Token { kind, span: span(i, i + 1), source: c.to_string() });
    }
    list
}

#[test]
fn the_call_around_the_cursor_is_found() {
    let src = "f(a, g(b, c), [1, 2], d";
    let list = tokens(src);
    let (open, arg) = enclosing_call(&list, src.len()).unwrap();
    assert_eq!((list[open].span.start, arg), (1, 3));
    let inside_g = src.find("c)").unwrap();
    let (open, arg) = enclosing_call(&list, inside_g).unwrap();
    assert_eq!((list[open].span.start, arg), (6, 1));
    assert!(enclosing_call(&list, 0).is_none());
    let closed = tokens("f(a)");
    assert!(enclosing_call(&closed, 4).is_none());
    assert_eq!(arg_index_after(&list, open, inside_g), 1);
}

#[test]
fn a_bracket_that_is_no_call_hides_the_call() {
    let src = "f([a, b";
    let list = tokens(src);
    assert!(enclosing_call(&list, src.len()).is_none());
}

#[test]
fn callees_are_bare_or_dotted() {
    let list = tokens("hero.walk(");
    match callee_shape(&list, 3) {
        CallShape::Attribute { name, base, .. } => {
            assert_eq!(name, "walk");
            assert_eq!(base.as_deref(), Some("hero"));
        }
        _ => panic!("a dotted call"),
    }
    match callee_shape(&tokens("print("), 1) {
        CallShape::Bare { name } => assert_eq!(name, "print"),
        _ => panic!("a bare call"),
    }
    assert!(matches!(callee_shape(&tokens("("), 0), CallShape::NotACall));
}

#[test]
fn the_innermost_call_holds_the_bracket() {
    let binding = |start: usize, end: usize| CallBinding { call_site: span(start, end) };
    let bindings = vec![binding(0, 40), binding(4, 20), binding(30, 35)];
    assert_eq!(call_target_at_open_paren(&bindings, 10), Some(1));
    assert_eq!(call_target_at_open_paren(&bindings, 25), Some(0));
    assert_eq!(call_target_at_open_paren(&bindings, 50), None);
}

#[test]
fn the_narrowest_typed_expression_is_taken() {
    let tree = ParseTree { nodes: vec![other(span(0, 9)), other(span(4, 9)), other(span(6, 9))] };
    assert_eq!(smallest_typed_ending_at(&tree, &vec![true, true, false], 9), Some(1));
    assert_eq!(smallest_typed_ending_at(&tree, &vec![true, true, true], 8), None);
}

/// `var cb = func(a: int): pass`, and an assignment to `cb` where asked.
fn lambda_tree(rebound: bool) -> (&'static str, ParseTree) {
    let src = "var cb = func(a: int): pass\nfunc f():\n\tcb = null\n";
    let mut nodes = vec![
        Node {
            span: span(0, 27),
            kind: NodeKind::Variable { identifier: Some(1), initializer: Some(2) },
        },
        Node { span: span(4, 6), kind: NodeKind::Identifier("cb".to_string()) },
        Node { span: span(9, 27), kind: NodeKind::Lambda { function: Some(3) } },
        Node {
            span: span(9, 27),
            kind: NodeKind::Function(FunctionNode {
                identifier: None,
                parameters: vec![4],
                rest_parameter: None,
                return_type: None,
            }),
        },
        Node {
            span: span(14, 20),
            kind: NodeKind::Parameter(ParameterNode {
                identifier: Some(5),
                datatype_specifier: Some(6),
                initializer: None,
            }),
        },
        Node { span: span(14, 15), kind: NodeKind::Identifier("a".to_string()) },
        other(span(17, 20)),
        Node { span: span(39, 41), kind: NodeKind::Identifier("cb".to_string()) },
    ];
    if rebound {
        nodes.push(Node {
            span: span(39, 48),
            kind: NodeKind::Assignment { assignee: Some(7) },
        });
    }
    (src, ParseTree { nodes })
}

#[test]
fn a_lambda_is_called_through_its_name() {
    let (src, tree) = lambda_tree(false);
    assert_eq!(class_level_var_ident(&tree, "cb"), Some(1));
    assert!(lambda_bound_to(&tree, "cb", &None).is_some());
    let base = Some("cb".to_string());
    let sig = lambda_call_sig(&tree, src, &base, "call", &None).unwrap();
    assert_eq!(label(sig), "Variant call(a: int)");
    assert!(lambda_call_sig(&tree, src, &base, "bind", &None).is_none());
    assert!(lambda_call_sig(&tree, src, &None, "call", &None).is_none());
}

#[test]
fn a_name_that_is_rebound_is_refused() {
    let (_, tree) = lambda_tree(true);
    assert_eq!(assignee_name(&tree, Some(7)), Some("cb".to_string()));
    assert!(lambda_bound_to(&tree, "cb", &None).is_none());
    let local = |has_scope: bool, occurrences: Vec<ByteSpan>| {
        Some(LocalBinding { decl: 1, has_scope, occurrences })
    };
    assert!(lambda_bound_to(&tree, "cb", &local(true, vec![])).is_some());
    assert!(lambda_bound_to(&tree, "cb", &local(true, vec![span(39, 41)])).is_none());
    assert!(lambda_bound_to(&tree, "cb", &local(false, vec![])).is_none());
}

fn member(name: &str, name_span: ByteSpan, doc: Option<&str>) -> MemberDecl {
    MemberDecl {
        name: name.to_string(),
        is_func: true,
        name_span,
        doc: doc.map(|d| d.to_string()),
    }
}

fn script(class_name: Option<&str>) -> ScriptSource {
    let tree = two_functions();
    let members = vec![
        member("alpha", tree.get(1).unwrap().span, Some("The first.")),
        member("bravo", tree.get(6).unwrap().span, None),
    ];
    ScriptSource {
        interface: Interface {
            class_name: class_name.map(|n| n.to_string()),
            members,
            inner: vec![],
        },
        tree,
        text: TWO_FUNCTIONS.to_string(),
    }
}

#[test]
fn methods_of_scripts_are_found_by_name() {
    let source = script(Some("Hero"));
    let info = shown(script_method_sig(&source, &vec![], "alpha").unwrap(), 0, &FULL);
    assert_eq!(info.label, "void alpha(a: int)");
    assert_eq!(info.documentation.as_deref(), Some("The first."));
    assert!(script_method_sig(&source, &vec![], "gone").is_none());
    assert!(script_method_sig(&source, &vec!["Inner".to_string()], "alpha").is_none());
    let chain = vec![script(None), source];
    assert!(resolve_self_method(&chain, &None, "bravo").is_some());
    assert!(resolve_self_method(&chain, &None, "gone").is_none());
}

#[test]
fn a_construction_has_always_a_signature() {
    assert_eq!(label(script_init_sig(&script(Some("Hero")))), "Hero(...)");
    assert_eq!(label(script_init_sig(&script(None))), "_init(...)");
    assert_eq!(label(resolve_typed_new("Node", true, &None).unwrap()), "Node(...)");
    assert!(resolve_typed_new("Odd", false, &None).is_none());
}

#[test]
fn native_members_that_are_methods_have_signatures() {
    let method = || Some(NativeMember::Method(native(vec![], false)));
    assert_eq!(label(native_method_sig(&method(), "grow").unwrap()), "void grow()");
    assert!(native_method_sig(&Some(NativeMember::Other), "grow").is_none());
    assert!(native_method_sig(&None, "grow").is_none());
}

#[test]
fn constructors_that_still_fit_are_offered() {
    let constructors = || {
        vec![
            vec![],
            vec![param("from", "Vector2", None)],
            vec![param("x", "float", None), param("y", "float", None)],
        ]
    };
    let labels = |arg_index: usize| -> Vec<String> {
        builtin_constructor_sigs("Vector2", &constructors(), arg_index)
            .unwrap()
            .into_iter()
            .map(label)
            .collect()
    };
    assert_eq!(labels(0).len(), 2);
    assert_eq!(labels(1), ["Vector2 Vector2(x: float, y: float)"]);
    assert_eq!(
        labels(5),
        [
            "Vector2 Vector2(x: float, y: float)",
            "Vector2 Vector2(from: Vector2)",
            "Vector2 Vector2()"
        ],
        "where none fits, all are shown, the widest first"
    );
    assert!(builtin_constructor_sigs("Odd", &vec![], 0).is_none());
}

fn nothing() -> BareCallee {
    BareCallee { utility: None, constructors: vec![], chain: None, native: None }
}

#[test]
fn a_bare_call_is_resolved_in_order() {
    let utility = || Some(native(vec![param("x", "int", None)], false));
    let callee = BareCallee { utility: utility(), ..nothing() };
    let sigs = resolve_bare_call(&callee, "absi", 0).unwrap();
    assert_eq!(sigs.len(), 1);
    let callee = BareCallee { chain: Some(vec![script(None)]), ..nothing() };
    assert!(resolve_bare_call(&callee, "alpha", 0).is_some());
    assert!(resolve_bare_call(&nothing(), "alpha", 0).is_none());
}

#[test]
fn a_dotted_call_is_resolved_by_its_base() {
    let (src, tree) = lambda_tree(false);
    let callee = AttributeCallee {
        base_type: Some(BaseType::Script(ScriptClass {
            source: script(Some("Hero")),
            path: vec![],
        })),
        member: None,
        target: None,
        local: None,
    };
    let no_type = TypeName { is_native_class: false, class: None };
    let shape = |name: &str| CallShape::Attribute {
        dot: 1,
        name: name.to_string(),
        base: Some("hero".to_string()),
    };
    let sigs =
        resolve_signatures(&shape("alpha"), &tree, src, &callee, &no_type, &nothing(), 0).unwrap();
    assert_eq!(sigs.len(), 1);
    let native_type = TypeName { is_native_class: true, class: None };
    let sigs =
        resolve_signatures(&shape("new"), &tree, src, &callee, &native_type, &nothing(), 0).unwrap();
    assert_eq!(sigs.len(), 1);
    let none =
        resolve_signatures(&CallShape::NotACall, &tree, src, &callee, &no_type, &nothing(), 0);
    assert!(none.is_none());
}

#[test]
fn the_active_signature_is_kept_while_typing() {
    let context = |is_retrigger: bool, active: Option<u32>| {
        Some(SignatureHelpContext { is_retrigger, active_signature: active })
    };
    assert_eq!(retained_active_signature(&context(true, Some(1)), 2), 1);
    assert_eq!(retained_active_signature(&context(true, Some(2)), 2), 0);
    assert_eq!(retained_active_signature(&context(false, Some(1)), 2), 0);
    assert_eq!(retained_active_signature(&None, 2), 0);
    let sigs = || {
        builtin_constructor_sigs(
            "Vector2",
            &vec![vec![param("a", "int", None)], vec![param("x", "float", None), param("y", "float", None)]],
            0,
        )
    };
    let help = signature_help(sigs(), 1, &context(true, Some(1)), &FULL).unwrap();
    assert_eq!((help.active_signature, help.active_parameter), (1, 1));
    assert_eq!(help.signatures.len(), 2);
    assert_eq!(help.signatures[0].active_parameter, Some(0));
    assert!(signature_help(None, 0, &None, &FULL).is_none());
    assert!(signature_help(Some(vec![]), 0, &None, &FULL).is_none());
}

#[test]
fn a_parameter_list_is_no_call_whatever_the_name() {
    for kind in [TokenKind::Identifier, TokenKind::NameKeyword] {
        let mut list = tokens("func match(");
        list[0].kind = TokenKind::Func;
        list[1].kind = kind;
        assert!(matches!(callee_shape(&list, 2), CallShape::NotACall));
    }
    let mut call = tokens("match(");
    call[0].kind = TokenKind::NameKeyword;
    assert!(matches!(callee_shape(&call, 1), CallShape::Bare { .. }));
}
