//! Signatures of callables: a label, and the part of it that each parameter takes.

use vstd::prelude::*;
use vstd::string::*;

use crate::syntax;
use crate::syntax::{ident_text, node_source, FunctionNode, NodeId, NodeKind, ParseTree};
use crate::text;
use crate::text::{chars_of, text_of, trim};

verus! {

/// A callable's signature. Each parameter is a range of characters of the label.
pub struct Sig {
    label: String,
    params: Vec<(usize, usize)>,
    doc: Option<String>,
}

#[verifier::ext_equal]
pub struct SigView {
    pub label: Seq<char>,
    pub params: Seq<(int, int)>,
    pub doc: Option<Seq<char>>,
}

/// Ranges as plain numbers.
pub open spec fn int_spans(spans: Seq<(usize, usize)>) -> Seq<(int, int)> {
    spans.map_values(|span: (usize, usize)| (span.0 as int, span.1 as int))
}

/// Whether every range lies in a text of the given length.
pub open spec fn spans_within(spans: Seq<(int, int)>, len: int) -> bool {
    forall|i: int|
        0 <= i < spans.len() ==> 0 <= (#[trigger] spans[i]).0 <= spans[i].1 <= len
}

impl View for Sig {
    type V = SigView;

    closed spec fn view(&self) -> SigView {
        SigView {
            label: self.label@,
            params: int_spans(self.params@),
            doc: text::opt_string(self.doc),
        }
    }
}

impl Sig {
    #[verifier::type_invariant]
    spec fn in_range(self) -> bool {
        spans_within(int_spans(self.params@), self.label@.len() as int)
    }
}

// ---------------------------------------------------------------------------
// Labels.
// ---------------------------------------------------------------------------

/// A label in the making, with the range of each parameter so far.
pub struct LabelBuilder {
    label: String,
    params: Vec<(usize, usize)>,
}

#[verifier::ext_equal]
pub struct LabelView {
    pub label: Seq<char>,
    pub params: Seq<(int, int)>,
}

impl View for LabelBuilder {
    type V = LabelView;

    closed spec fn view(&self) -> LabelView {
        LabelView { label: self.label@, params: int_spans(self.params@) }
    }
}

/// A label that has one more text at its end.
pub open spec fn with_text(b: LabelView, more: Seq<char>) -> LabelView {
    LabelView { label: b.label + more, ..b }
}

/// A label with a separator, unless it has no parameter yet.
pub open spec fn with_sep(b: LabelView) -> LabelView {
    if b.params.len() > 0 {
        with_text(b, ", "@)
    } else {
        b
    }
}

/// A label with one more parameter.
pub open spec fn with_param(b: LabelView, frag: Seq<char>) -> LabelView {
    LabelView {
        label: b.label + frag,
        params: b.params.push((b.label.len() as int, (b.label.len() + frag.len()) as int)),
    }
}

/// The label of a list of parameters behind a prefix.
pub open spec fn built(prefix: Seq<char>, frags: Seq<Seq<char>>) -> LabelView
    decreases frags.len(),
{
    if frags.len() == 0 {
        LabelView { label: prefix, params: Seq::empty() }
    } else {
        with_param(with_sep(built(prefix, frags.drop_last())), frags.last())
    }
}

/// The signature of a list of parameters behind a prefix.
pub open spec fn signature(
    prefix: Seq<char>,
    frags: Seq<Seq<char>>,
    doc: Option<Seq<char>>,
) -> SigView {
    let b = built(prefix, frags);
    SigView { label: b.label + ")"@, params: b.params, doc }
}

/// One parameter's range for each of them, within the label.
pub proof fn lemma_built(prefix: Seq<char>, frags: Seq<Seq<char>>)
    ensures
        built(prefix, frags).params.len() == frags.len(),
        spans_within(built(prefix, frags).params, built(prefix, frags).label.len() as int),
    decreases frags.len(),
{
    if frags.len() > 0 {
        lemma_built(prefix, frags.drop_last());
    }
}

impl LabelBuilder {
    /// Whether every range lies in the label.
    pub closed spec fn well_formed(&self) -> bool {
        spans_within(self@.params, self@.label.len() as int)
    }

    /// A label that starts with a prefix.
    pub fn new(prefix: String) -> (r: LabelBuilder)
        ensures
            r.well_formed(),
            r@ == built(prefix@, Seq::empty()),
    {
        let r = LabelBuilder { label: prefix, params: Vec::new() };
        proof {
            assert(r@ =~= built(prefix@, Seq::empty()));
        }
        r
    }

    /// The separator before parameter `i`.
    pub fn sep(&mut self, i: usize)
        requires
            old(self).well_formed(),
        ensures
            final(self).well_formed(),
            final(self)@ == (if i > 0 {
                with_text(old(self)@, ", "@)
            } else {
                old(self)@
            }),
    {
        if i > 0 {
            self.label.append(", ");
        }
    }

    /// The separator before a parameter that follows others; nothing before the first.
    pub fn sep_force(&mut self)
        requires
            old(self).well_formed(),
        ensures
            final(self).well_formed(),
            final(self)@ == with_sep(old(self)@),
    {
        if self.params.len() > 0 {
            self.label.append(", ");
        }
    }

    /// One more parameter.
    pub fn param(&mut self, frag: &str)
        requires
            old(self).well_formed(),
        ensures
            final(self).well_formed(),
            final(self)@ == with_param(old(self)@, frag@),
    {
        let start: usize = chars_of(self.label.as_str()).len();
        self.label.append(frag);
        let end: usize = chars_of(self.label.as_str()).len();
        self.params.push((start, end));
        proof {
            assert(self@ =~= with_param(old(self)@, frag@));
        }
    }

    /// The parameter that stands for any further arguments.
    pub fn vararg(&mut self)
        requires
            old(self).well_formed(),
        ensures
            final(self).well_formed(),
            final(self)@ == with_param(with_sep(old(self)@), "...args: Array"@),
    {
        self.sep_force();
        self.param("...args: Array");
    }

    /// Close the label.
    pub fn finish(self, doc: Option<String>) -> (r: Sig)
        requires
            self.well_formed(),
        ensures
            r@ == (SigView {
                label: self@.label + ")"@,
                params: self@.params,
                doc: text::opt_string(doc),
            }),
    {
        let mut label = self.label;
        label.append(")");
        Sig { label, params: self.params, doc }
    }
}

// ---------------------------------------------------------------------------
// Small renderers.
// ---------------------------------------------------------------------------

/// A text without a part that it starts with.
pub open spec fn without_prefix(s: Seq<char>, part: Seq<char>) -> Seq<char> {
    if text::starts_with(s, part) {
        s.skip(part.len() as int)
    } else {
        s
    }
}

fn strip_start(s: &str, part: &str) -> (r: String)
    ensures
        r@ == without_prefix(s@, part@),
{
    let chars = chars_of(s);
    let wanted = chars_of(part);
    if text::starts_with_at(&chars, 0, &wanted) {
        let r = text_of(&chars, wanted.len(), chars.len());
        proof {
            assert(r@ =~= s@.skip(part@.len() as int));
        }
        r
    } else {
        s.to_owned()
    }
}

/// The type in an annotation: without a leading `->`, a leading `:`, and white space around.
pub open spec fn cleaned_type(s: Seq<char>) -> Seq<char> {
    text::trimmed(without_prefix(without_prefix(text::trimmed(s), "->"@), ":"@))
}

/// The type in an annotation.
pub fn clean_type_text(s: &str) -> (r: String)
    ensures
        r@ == cleaned_type(s@),
{
    let trimmed = trim(s);
    let without_arrow = strip_start(trimmed.as_str(), "->");
    let without_colon = strip_start(without_arrow.as_str(), ":");
    trim(without_colon.as_str())
}

/// The type that an annotation names, or what an absent or empty one stands for.
pub open spec fn annotation(
    tree: ParseTree,
    src: Seq<char>,
    node: Option<NodeId>,
    absent: Seq<char>,
) -> Seq<char> {
    match node {
        Some(id) => {
            let name = cleaned_type(syntax::source_of(tree, src, id));
            if name.len() > 0 {
                name
            } else {
                absent
            }
        },
        None => absent,
    }
}

fn annotation_text(tree: &ParseTree, src: &str, node: Option<NodeId>, absent: &str) -> (r: String)
    ensures
        r@ == annotation(*tree, src@, node, absent@),
{
    if let Some(id) = node {
        let name = clean_type_text(node_source(tree, src, id).as_str());
        if chars_of(name.as_str()).len() > 0 {
            return name;
        }
    }
    absent.to_owned()
}

/// What a function without a return annotation is labelled to return: nothing.
pub fn return_type_label(tree: &ParseTree, src: &str, return_type: Option<NodeId>) -> (r: String)
    ensures
        r@ == annotation(*tree, src@, return_type, "void"@),
{
    annotation_text(tree, src, return_type, "void")
}

/// The type of a parameter; one without an annotation takes anything.
pub fn type_label(tree: &ParseTree, src: &str, ty: Option<NodeId>) -> (r: String)
    ensures
        r@ == annotation(*tree, src@, ty, "Variant"@),
{
    annotation_text(tree, src, ty, "Variant")
}

/// The number of UTF-16 code units of a text.
pub open spec fn utf16_units(s: Seq<char>) -> nat
    decreases s.len(),
{
    if s.len() == 0 {
        0
    } else {
        utf16_units(s.drop_last()) + if s.last() as u32 >= 0x10000 {
            2nat
        } else {
            1nat
        }
    }
}

/// The number of UTF-16 code units of a text, of which only the low 32 bits are kept.
pub fn utf16_len(s: &str) -> (r: u32)
    ensures
        r == utf16_units(s@) as u32,
{
    let chars = chars_of(s);
    let mut units: u128 = 0;
    let mut i: usize = 0;
    proof {
        assert(s@.take(0) =~= Seq::<char>::empty());
    }
    while i < chars.len()
        invariant
            0 <= i <= chars@.len(),
            chars@ == s@,
            units == utf16_units(s@.take(i as int)),
            units <= 2 * i,
        decreases chars@.len() - i,
    {
        proof {
            assert(s@.take(i as int + 1).drop_last() =~= s@.take(i as int));
            assert(s@.take(i as int + 1).last() == s@[i as int]);
        }
        let code: u32 = chars[i] as u32;
        units = units + if code >= 0x10000 {
            2u128
        } else {
            1u128
        };
        i = i + 1;
    }
    proof {
        assert(s@.take(i as int) =~= s@);
    }
    units as u32
}

// ---------------------------------------------------------------------------
// What a client is shown.
// ---------------------------------------------------------------------------

/// What a client can show of signatures.
#[derive(Debug, Clone, Copy, PartialEq, Eq, Structural)]
pub struct SignatureHelpCaps {
    /// Parameters as offsets in the label rather than as texts.
    pub label_offset_support: bool,
    /// An active parameter for each signature.
    pub active_parameter_support: bool,
}

/// How a parameter is marked in its signature's label.
#[derive(Debug, PartialEq, Eq)]
pub enum ParameterLabel {
    /// By two offsets in UTF-16 code units.
    Offsets(u32, u32),
    /// By its text.
    Simple(String),
}

pub enum ParameterLabelView {
    Offsets(u32, u32),
    Simple(Seq<char>),
}

impl View for ParameterLabel {
    type V = ParameterLabelView;

    open spec fn view(&self) -> ParameterLabelView {
        match self {
            ParameterLabel::Offsets(start, end) => ParameterLabelView::Offsets(*start, *end),
            ParameterLabel::Simple(label) => ParameterLabelView::Simple(label@),
        }
    }
}

/// A signature as a client gets it. The documentation is BBCode.
pub struct SignatureInformation {
    pub label: String,
    pub documentation: Option<String>,
    pub parameters: Vec<ParameterLabel>,
    pub active_parameter: Option<u32>,
}

/// How a parameter is marked.
pub open spec fn parameter_label(label: Seq<char>, span: (int, int), offsets: bool) ->
    ParameterLabelView {
    if offsets {
        ParameterLabelView::Offsets(
            utf16_units(label.take(span.0)) as u32,
            utf16_units(label.take(span.1)) as u32,
        )
    } else {
        ParameterLabelView::Simple(label.subrange(span.0, span.1))
    }
}

/// Whether a list marks the parameters of a signature.
pub open spec fn marks_parameters(
    marks: Seq<ParameterLabel>,
    sig: SigView,
    offsets: bool,
) -> bool {
    &&& marks.len() == sig.params.len()
    &&& forall|i: int|
        0 <= i < marks.len() ==> (#[trigger] marks[i])@ == parameter_label(
            sig.label,
            sig.params[i],
            offsets,
        )
}

/// The parameter that an argument is for: the last one takes what is left over.
pub open spec fn active_of(sig: SigView, arg_index: usize) -> int {
    if sig.params.len() == 0 {
        0
    } else if arg_index < sig.params.len() {
        arg_index as int
    } else {
        sig.params.len() - 1
    }
}

/// Whether a signature is shown as it should be.
pub open spec fn shows(
    info: SignatureInformation,
    sig: SigView,
    arg_index: usize,
    caps: SignatureHelpCaps,
) -> bool {
    &&& info.label@ == sig.label
    &&& text::opt_string(info.documentation) == sig.doc
    &&& marks_parameters(info.parameters@, sig, caps.label_offset_support)
    &&& info.active_parameter == (if caps.active_parameter_support {
        Some(active_of(sig, arg_index) as u32)
    } else {
        None
    })
}

impl Sig {
    /// The parameter that an argument is for.
    pub fn active_parameter(&self, arg_index: usize) -> (r: u32)
        ensures
            r == active_of(self@, arg_index) as u32,
    {
        if self.params.len() == 0 {
            return 0;
        }
        let last: usize = self.params.len() - 1;
        let index: usize = if arg_index < last {
            arg_index
        } else {
            last
        };
        index as u32
    }

    /// The marks of the parameters.
    pub fn build_parameters(&self, caps: &SignatureHelpCaps) -> (r: Vec<ParameterLabel>)
        ensures
            marks_parameters(r@, self@, caps.label_offset_support),
    {
        proof {
            use_type_invariant(self);
        }
        let chars = chars_of(self.label.as_str());
        let mut r: Vec<ParameterLabel> = Vec::new();
        let mut i: usize = 0;
        while i < self.params.len()
            invariant
                0 <= i <= self.params@.len(),
                chars@ == self.label@,
                spans_within(int_spans(self.params@), self.label@.len() as int),
                r@.len() == i,
                forall|j: int|
                    0 <= j < i ==> (#[trigger] r@[j])@ == parameter_label(
                        self@.label,
                        self@.params[j],
                        caps.label_offset_support,
                    ),
            decreases self.params@.len() - i,
        {
            let (start, end): (usize, usize) = self.params[i];
            proof {
                assert(int_spans(self.params@)[i as int] == (start as int, end as int));
            }
            if caps.label_offset_support {
                let before = text_of(&chars, 0, start);
                let through = text_of(&chars, 0, end);
                proof {
                    assert(before@ =~= self.label@.take(start as int));
                    assert(through@ =~= self.label@.take(end as int));
                }
                r.push(
                    ParameterLabel::Offsets(
                        utf16_len(before.as_str()),
                        utf16_len(through.as_str()),
                    ),
                );
            } else {
                r.push(ParameterLabel::Simple(text_of(&chars, start, end)));
            }
            i = i + 1;
        }
        r
    }

    /// The signature as a client gets it.
    pub fn into_lsp(self, arg_index: usize, caps: &SignatureHelpCaps) -> (r: SignatureInformation)
        ensures
            shows(r, self@, arg_index, *caps),
    {
        let active: u32 = self.active_parameter(arg_index);
        let parameters = self.build_parameters(caps);
        SignatureInformation {
            label: self.label,
            documentation: self.doc,
            parameters,
            active_parameter: if caps.active_parameter_support {
                Some(active)
            } else {
                None
            },
        }
    }
}

// ---------------------------------------------------------------------------
// Native callables.
// ---------------------------------------------------------------------------

/// A parameter of a native callable.
pub struct NativeParam {
    pub name: String,
    pub ty: String,
    pub default_value: Option<String>,
}

/// A native method, utility or constructor.
pub struct NativeFn {
    pub return_type: String,
    pub params: Vec<NativeParam>,
    pub is_vararg: bool,
    /// BBCode.
    pub description: String,
}

/// How many parameters have a default.
pub open spec fn defaults_in(params: Seq<NativeParam>) -> nat
    decreases params.len(),
{
    if params.len() == 0 {
        0
    } else {
        defaults_in(params.drop_last()) + if params.last().default_value is Some {
            1nat
        } else {
            0nat
        }
    }
}

fn default_count(params: &Vec<NativeParam>) -> (r: usize)
    ensures
        r == defaults_in(params@),
        r <= params@.len(),
{
    let mut count: usize = 0;
    let mut i: usize = 0;
    proof {
        assert(params@.take(0) =~= Seq::<NativeParam>::empty());
    }
    while i < params.len()
        invariant
            0 <= i <= params@.len(),
            count <= i,
            count == defaults_in(params@.take(i as int)),
        decreases params@.len() - i,
    {
        proof {
            assert(params@.take(i as int + 1).drop_last() =~= params@.take(i as int));
            assert(params@.take(i as int + 1).last() == params@[i as int]);
        }
        if params[i].default_value.is_some() {
            count = count + 1;
        }
        i = i + 1;
    }
    proof {
        assert(params@.take(i as int) =~= params@);
    }
    count
}

/// `name: type`, and ` = default` where there is one to show.
pub open spec fn fragment(name: Seq<char>, ty: Seq<char>, default: Option<Seq<char>>) -> Seq<char> {
    let typed = name + ": "@ + ty;
    match default {
        Some(default) => typed + " = "@ + default,
        None => typed,
    }
}

fn fragment_text(name: &str, ty: &str, default: Option<&str>) -> (r: String)
    ensures
        r@ == fragment(name@, ty@, text::opt_str(default)),
{
    let mut r = name.to_owned();
    r.append(": ");
    r.append(ty);
    if let Some(default) = default {
        r.append(" = ");
        r.append(default);
    }
    r
}

/// The text of a native parameter. Defaults are those of the last parameters, as many as there are.
pub open spec fn native_fragment(params: Seq<NativeParam>, i: int, with_defaults: bool) -> Seq<char> {
    let shown = with_defaults && i >= params.len() - defaults_in(params);
    fragment(
        params[i].name@,
        params[i].ty@,
        if shown {
            text::opt_string(params[i].default_value)
        } else {
            None
        },
    )
}

/// The texts of the parameters of a native callable.
pub open spec fn native_fragments(
    params: Seq<NativeParam>,
    with_defaults: bool,
    is_vararg: bool,
) -> Seq<Seq<char>> {
    let named = Seq::new(params.len(), |i: int| native_fragment(params, i, with_defaults));
    if is_vararg {
        named.push("...args: Array"@)
    } else {
        named
    }
}

/// `return_type name(`.
pub open spec fn label_prefix(return_type: Seq<char>, name: Seq<char>) -> Seq<char> {
    return_type + " "@ + name + "("@
}

fn prefix_text(return_type: &str, name: &str) -> (r: String)
    ensures
        r@ == label_prefix(return_type@, name@),
{
    let mut r = return_type.to_owned();
    r.append(" ");
    r.append(name);
    r.append("(");
    r
}

fn native_builder(
    prefix: String,
    params: &Vec<NativeParam>,
    with_defaults: bool,
    is_vararg: bool,
) -> (r: LabelBuilder)
    ensures
        r.well_formed(),
        r@ == built(prefix@, native_fragments(params@, with_defaults, is_vararg)),
{
    let count: usize = default_count(params);
    let def_start: usize = params.len() - count;
    let ghost named = native_fragments(params@, with_defaults, false);
    let ghost start = prefix@;
    let mut b = LabelBuilder::new(prefix);
    let mut i: usize = 0;
    proof {
        assert(named.take(0) =~= Seq::<Seq<char>>::empty());
    }
    while i < params.len()
        invariant
            0 <= i <= params@.len(),
            b.well_formed(),
            def_start == params@.len() - defaults_in(params@),
            named == native_fragments(params@, with_defaults, false),
            b@ == built(start, named.take(i as int)),
        decreases params@.len() - i,
    {
        proof {
            lemma_built(start, named.take(i as int));
            assert(named.take(i as int + 1).drop_last() =~= named.take(i as int));
            assert(named.take(i as int + 1).last() == named[i as int]);
        }
        b.sep(i);
        let default: Option<&str> = if with_defaults && i >= def_start {
            match &params[i].default_value {
                Some(default) => Some(default.as_str()),
                None => None,
            }
        } else {
            None
        };
        b.param(
            fragment_text(params[i].name.as_str(), params[i].ty.as_str(), default).as_str(),
        );
        i = i + 1;
    }
    proof {
        assert(named.take(i as int) =~= named);
        let all = native_fragments(params@, with_defaults, true);
        assert(all.drop_last() =~= named);
        assert(all.last() == "...args: Array"@);
    }
    if is_vararg {
        b.vararg();
    }
    b
}

/// A description, unless it is empty.
pub open spec fn described(description: Seq<char>) -> Option<Seq<char>> {
    if description.len() == 0 {
        None
    } else {
        Some(description)
    }
}

fn described_text(description: &String) -> (r: Option<String>)
    ensures
        text::opt_string(r) == described(description@),
{
    if chars_of(description.as_str()).len() == 0 {
        None
    } else {
        Some(description.clone())
    }
}

/// The signature of a native method.
pub open spec fn method_signature(name: Seq<char>, method: NativeFn) -> SigView {
    signature(
        label_prefix(method.return_type@, name),
        native_fragments(method.params@, true, method.is_vararg),
        described(method.description@),
    )
}

/// The signature of a utility: it has no description of its own.
pub open spec fn utility_signature(name: Seq<char>, utility: NativeFn) -> SigView {
    signature(
        label_prefix(utility.return_type@, name),
        native_fragments(utility.params@, true, utility.is_vararg),
        None,
    )
}

/// The signature of one constructor of a builtin type: `Type Type(name: type, ..)`.
pub open spec fn constructor_signature(builtin: Seq<char>, params: Seq<NativeParam>) -> SigView {
    signature(label_prefix(builtin, builtin), native_fragments(params, false, false), None)
}

/// The signature of a construction whose parameters are not known: `Name(...)`.
pub open spec fn bare_constructor(name: Seq<char>) -> SigView {
    signature(name + "("@, seq!["..."@], None)
}

impl Sig {
    /// The signature of a native method.
    pub fn from_native_method(name: &str, method: &NativeFn) -> (r: Sig)
        ensures
            r@ == method_signature(name@, *method),
    {
        let b = native_builder(
            prefix_text(method.return_type.as_str(), name),
            &method.params,
            true,
            method.is_vararg,
        );
        b.finish(described_text(&method.description))
    }

    /// The signature of a utility.
    pub fn from_utility(name: &str, utility: &NativeFn) -> (r: Sig)
        ensures
            r@ == utility_signature(name@, *utility),
    {
        let b = native_builder(
            prefix_text(utility.return_type.as_str(), name),
            &utility.params,
            true,
            utility.is_vararg,
        );
        b.finish(None)
    }

    /// The signature of one constructor of a builtin type.
    pub fn from_builtin_constructor(builtin: &str, params: &Vec<NativeParam>) -> (r: Sig)
        ensures
            r@ == constructor_signature(builtin@, params@),
    {
        let b = native_builder(prefix_text(builtin, builtin), params, false, false);
        b.finish(None)
    }

    /// The signature of a construction whose parameters are not known.
    pub fn constructor(name: &str) -> (r: Sig)
        ensures
            r@ == bare_constructor(name@),
    {
        let mut prefix = name.to_owned();
        prefix.append("(");
        let mut b = LabelBuilder::new(prefix);
        b.param("...");
        proof {
            let frags = seq!["..."@];
            assert(frags.drop_last() =~= Seq::<Seq<char>>::empty());
            assert(frags.last() == "..."@);
        }
        b.finish(None)
    }
}

// ---------------------------------------------------------------------------
// Functions of scripts.
// ---------------------------------------------------------------------------

/// The name of a parameter, or nothing.
pub open spec fn opt_ident(tree: ParseTree, id: Option<NodeId>) -> Seq<char> {
    match id {
        Some(id) => syntax::ident_of(tree, id),
        None => Seq::empty(),
    }
}

fn opt_ident_text(tree: &ParseTree, id: Option<NodeId>) -> (r: String)
    ensures
        r@ == opt_ident(*tree, id),
{
    match id {
        Some(id) => ident_text(tree, id),
        None => syntax::empty_text(),
    }
}

/// The text of a parameter of a function: its name, its type, and the source of its default.
pub open spec fn script_fragment(tree: ParseTree, src: Seq<char>, id: NodeId) -> Seq<char> {
    match tree.node(id) {
        Some(node) => match node.kind {
            NodeKind::Parameter(p) => fragment(
                opt_ident(tree, p.identifier),
                annotation(tree, src, p.datatype_specifier, "Variant"@),
                match p.initializer {
                    Some(init) => Some(syntax::source_of(tree, src, init)),
                    None => None,
                },
            ),
            _ => "Variant"@,
        },
        None => "Variant"@,
    }
}

/// The texts of the parameter that takes the rest: `...name: type`, where the function has one.
pub open spec fn rest_fragments(tree: ParseTree, src: Seq<char>, rest: Option<NodeId>) -> Seq<
    Seq<char>,
> {
    match rest {
        Some(id) => match tree.node(id) {
            Some(node) => match node.kind {
                NodeKind::Parameter(p) => seq![
                    "..."@ + fragment(
                        opt_ident(tree, p.identifier),
                        annotation(tree, src, p.datatype_specifier, "Variant"@),
                        None,
                    ),
                ],
                _ => Seq::empty(),
            },
            None => Seq::empty(),
        },
        None => Seq::empty(),
    }
}

/// The texts of the parameters of a function.
pub open spec fn function_fragments(tree: ParseTree, src: Seq<char>, function: FunctionNode) -> Seq<
    Seq<char>,
> {
    Seq::new(
        function.parameters@.len(),
        |i: int| script_fragment(tree, src, function.parameters@[i]),
    ) + rest_fragments(tree, src, function.rest_parameter)
}

/// The signature of a function that is labelled to return a type.
pub open spec fn function_signature(
    tree: ParseTree,
    src: Seq<char>,
    return_type: Seq<char>,
    name: Seq<char>,
    function: FunctionNode,
    doc: Option<Seq<char>>,
) -> SigView {
    signature(label_prefix(return_type, name), function_fragments(tree, src, function), doc)
}

/// What a lambda is labelled to return: what it is annotated with, else anything.
pub open spec fn lambda_return(tree: ParseTree, src: Seq<char>, function: FunctionNode) -> Seq<char> {
    match function.return_type {
        Some(_) => annotation(tree, src, function.return_type, "void"@),
        None => "Variant"@,
    }
}

fn script_fragment_text(tree: &ParseTree, src: &str, id: NodeId) -> (r: String)
    ensures
        r@ == script_fragment(*tree, src@, id),
{
    let node = match tree.get(id) {
        Some(node) => node,
        None => return "Variant".to_owned(),
    };
    match &node.kind {
        NodeKind::Parameter(p) => {
            let name = opt_ident_text(tree, p.identifier);
            let ty = type_label(tree, src, p.datatype_specifier);
            match p.initializer {
                Some(init) => {
                    let default = node_source(tree, src, init);
                    fragment_text(name.as_str(), ty.as_str(), Some(default.as_str()))
                },
                None => fragment_text(name.as_str(), ty.as_str(), None),
            }
        },
        _ => "Variant".to_owned(),
    }
}

fn rest_fragment_text(tree: &ParseTree, src: &str, rest: Option<NodeId>) -> (r: Option<String>)
    ensures
        match r {
            Some(frag) => rest_fragments(*tree, src@, rest) == seq![frag@],
            None => rest_fragments(*tree, src@, rest) == Seq::<Seq<char>>::empty(),
        },
{
    let id: NodeId = match rest {
        Some(id) => id,
        None => return None,
    };
    let node = match tree.get(id) {
        Some(node) => node,
        None => return None,
    };
    match &node.kind {
        NodeKind::Parameter(p) => {
            let name = opt_ident_text(tree, p.identifier);
            let ty = type_label(tree, src, p.datatype_specifier);
            let mut r = "...".to_owned();
            r.append(fragment_text(name.as_str(), ty.as_str(), None).as_str());
            Some(r)
        },
        _ => None,
    }
}

impl Sig {
    /// The signature of a function of a script. A function without a return annotation is labelled
    /// to return nothing.
    pub fn from_function_node(
        tree: &ParseTree,
        src: &str,
        name: &str,
        function: &FunctionNode,
        doc: Option<String>,
    ) -> (r: Sig)
        ensures
            r@ == function_signature(
                *tree,
                src@,
                annotation(*tree, src@, function.return_type, "void"@),
                name@,
                *function,
                text::opt_string(doc),
            ),
    {
        let ret = return_type_label(tree, src, function.return_type);
        Sig::from_function_node_returning(tree, src, ret.as_str(), name, function, doc)
    }

    /// The signature of a lambda under the name that it is called by. A lambda without a return
    /// annotation may return anything.
    pub fn from_lambda(tree: &ParseTree, src: &str, method: &str, function: &FunctionNode) -> (r:
        Sig)
        ensures
            r@ == function_signature(
                *tree,
                src@,
                lambda_return(*tree, src@, *function),
                method@,
                *function,
                None,
            ),
    {
        let ret = match function.return_type {
            Some(_) => return_type_label(tree, src, function.return_type),
            None => "Variant".to_owned(),
        };
        Sig::from_function_node_returning(tree, src, ret.as_str(), method, function, None)
    }

    /// The signature of a function that is labelled to return a type.
    pub fn from_function_node_returning(
        tree: &ParseTree,
        src: &str,
        ret: &str,
        name: &str,
        function: &FunctionNode,
        doc: Option<String>,
    ) -> (r: Sig)
        ensures
            r@ == function_signature(*tree, src@, ret@, name@, *function, text::opt_string(doc)),
    {
        let ghost start = label_prefix(ret@, name@);
        let ghost frags = function_fragments(*tree, src@, *function);
        let n: usize = function.parameters.len();
        let mut b = LabelBuilder::new(prefix_text(ret, name));
        let mut i: usize = 0;
        proof {
            assert(frags.take(0) =~= Seq::<Seq<char>>::empty());
        }
        while i < n
            invariant
                0 <= i <= n == function.parameters@.len(),
                n <= frags.len(),
                b.well_formed(),
                frags == function_fragments(*tree, src@, *function),
                b@ == built(start, frags.take(i as int)),
            decreases n - i,
        {
            proof {
                lemma_built(start, frags.take(i as int));
                assert(frags.take(i as int + 1).drop_last() =~= frags.take(i as int));
                assert(frags.take(i as int + 1).last() == script_fragment(
                    *tree,
                    src@,
                    function.parameters@[i as int],
                ));
            }
            b.sep(i);
            b.param(script_fragment_text(tree, src, function.parameters[i]).as_str());
            i = i + 1;
        }
        if let Some(rest) = rest_fragment_text(tree, src, function.rest_parameter) {
            proof {
                assert(frags.drop_last() =~= frags.take(i as int));
                assert(frags.last() == rest@);
            }
            b.sep_force();
            b.param(rest.as_str());
        } else {
            proof {
                assert(frags.take(i as int) =~= frags);
            }
        }
        b.finish(doc)
    }
}

// ---------------------------------------------------------------------------
// Laws.
// ---------------------------------------------------------------------------

/// The range of each parameter holds exactly its text: label and ranges never drift apart.
pub proof fn lemma_ranges_hold_parameters(
    prefix: Seq<char>,
    frags: Seq<Seq<char>>,
    doc: Option<Seq<char>>,
    i: int,
)
    requires
        0 <= i < frags.len(),
    ensures
        ({
            let sig = signature(prefix, frags, doc);
            &&& sig.params.len() == frags.len()
            &&& 0 <= sig.params[i].0 <= sig.params[i].1 <= sig.label.len()
            &&& sig.label.subrange(sig.params[i].0, sig.params[i].1) == frags[i]
        }),
{
    lemma_built(prefix, frags);
    lemma_built_range(prefix, frags, i);
    let b = built(prefix, frags);
    let sig = signature(prefix, frags, doc);
    assert(sig.label.subrange(sig.params[i].0, sig.params[i].1) =~= b.label.subrange(
        b.params[i].0,
        b.params[i].1,
    ));
}

proof fn lemma_built_range(prefix: Seq<char>, frags: Seq<Seq<char>>, i: int)
    requires
        0 <= i < frags.len(),
    ensures
        built(prefix, frags).params.len() == frags.len(),
        0 <= built(prefix, frags).params[i].0 <= built(prefix, frags).params[i].1 <= built(
            prefix,
            frags,
        ).label.len(),
        built(prefix, frags).label.subrange(
            built(prefix, frags).params[i].0,
            built(prefix, frags).params[i].1,
        ) == frags[i],
    decreases frags.len(),
{
    let shorter = frags.drop_last();
    let less = built(prefix, shorter);
    let b = built(prefix, frags);
    lemma_built(prefix, shorter);
    lemma_built(prefix, frags);
    if i < frags.len() - 1 {
        lemma_built_range(prefix, shorter, i);
        assert(b.params[i] == less.params[i]);
        assert(b.label.subrange(b.params[i].0, b.params[i].1) =~= less.label.subrange(
            less.params[i].0,
            less.params[i].1,
        ));
    } else {
        assert(b.label.subrange(b.params[i].0, b.params[i].1) =~= frags[i]);
    }
}

/// The active parameter is one that the signature has, unless it has none; past the last declared
/// parameter it is the last one.
pub proof fn lemma_active_parameter_is_one_of_them(sig: SigView, arg_index: usize)
    ensures
        sig.params.len() > 0 ==> 0 <= active_of(sig, arg_index) < sig.params.len(),
        sig.params.len() > 0 && arg_index >= sig.params.len() ==> active_of(sig, arg_index)
            == sig.params.len() - 1,
        arg_index < sig.params.len() ==> active_of(sig, arg_index) == arg_index,
{
}

/// A label is what stands before the parameters, the parameters with a comma and a space between
/// them, and a closing parenthesis. The documentation goes with it as it is.
pub proof fn lemma_label_layout(
    prefix: Seq<char>,
    frags: Seq<Seq<char>>,
    doc: Option<Seq<char>>,
)
    ensures
        ({
            let sig = signature(prefix, frags, doc);
            let n = frags.len() as int;
            &&& sig.doc == doc
            &&& sig.label.len() > prefix.len()
            &&& sig.label.take(prefix.len() as int) == prefix
            &&& sig.label.last() == ')'
            &&& sig.params.len() == n
            &&& n == 0 ==> sig.label.len() == prefix.len() + 1
            &&& n > 0 ==> sig.params[0].0 == prefix.len() && sig.params[n - 1].1
                == sig.label.len() - 1
            &&& forall|i: int|
                0 <= i < n ==> (#[trigger] sig.params[i]).0 <= sig.params[i].1 <= sig.label.len()
                    && sig.label.subrange(sig.params[i].0, sig.params[i].1) == frags[i]
            &&& forall|i: int|
                0 < i < n ==> (#[trigger] sig.params[i]).0 == sig.params[i - 1].1 + 2
                    && sig.label[sig.params[i].0 - 2] == ',' && sig.label[sig.params[i].0 - 1]
                    == ' '
        }),
{
    let sig = signature(prefix, frags, doc);
    let b = built(prefix, frags);
    lemma_built(prefix, frags);
    lemma_built_layout(prefix, frags);
    reveal_strlit(")");
    assert(sig.label.take(prefix.len() as int) =~= b.label.take(prefix.len() as int));
    assert forall|i: int| 0 <= i < frags.len() implies (#[trigger] sig.params[i]).0
        <= sig.params[i].1 <= sig.label.len() && sig.label.subrange(
        sig.params[i].0,
        sig.params[i].1,
    ) == frags[i] by {
        lemma_ranges_hold_parameters(prefix, frags, doc, i);
    }
}

proof fn lemma_built_layout(prefix: Seq<char>, frags: Seq<Seq<char>>)
    ensures
        ({
            let b = built(prefix, frags);
            let n = frags.len() as int;
            &&& b.params.len() == n
            &&& b.label.len() >= prefix.len()
            &&& b.label.take(prefix.len() as int) == prefix
            &&& n == 0 ==> b.label == prefix
            &&& n > 0 ==> b.params[0].0 == prefix.len() && b.params[n - 1].1 == b.label.len()
            &&& forall|i: int|
                0 < i < n ==> (#[trigger] b.params[i]).0 == b.params[i - 1].1 + 2
                    && b.params[i].0 <= b.label.len() && b.params[i - 1].1 >= 0
                    && b.label[b.params[i].0 - 2] == ',' && b.label[b.params[i].0 - 1] == ' '
        }),
    decreases frags.len(),
{
    let b = built(prefix, frags);
    reveal_strlit(", ");
    if frags.len() > 0 {
        let shorter = frags.drop_last();
        let less = built(prefix, shorter);
        lemma_built(prefix, shorter);
        lemma_built_layout(prefix, shorter);
        assert(b.label.take(prefix.len() as int) =~= less.label.take(prefix.len() as int));
        assert forall|i: int| 0 < i < frags.len() implies (#[trigger] b.params[i]).0 == b.params[i
            - 1].1 + 2 && b.params[i].0 <= b.label.len() && b.params[i - 1].1 >= 0
            && b.label[b.params[i].0 - 2] == ',' && b.label[b.params[i].0 - 1] == ' ' by {
            if i < frags.len() - 1 {
                assert(b.params[i] == less.params[i]);
                assert(b.params[i - 1] == less.params[i - 1]);
            } else {
                assert(b.params[i - 1] == less.params[i - 1]);
            }
        }
    } else {
        assert(prefix.take(prefix.len() as int) =~= prefix);
    }
}

proof fn lemma_no_defaults(params: Seq<NativeParam>)
    requires
        forall|i: int| 0 <= i < params.len() ==> (#[trigger] params[i]).default_value is None,
    ensures
        defaults_in(params) == 0,
    decreases params.len(),
{
    if params.len() > 0 {
        lemma_no_defaults(params.drop_last());
    }
}

proof fn lemma_trailing_defaults(params: Seq<NativeParam>, first: int)
    requires
        0 <= first <= params.len(),
        forall|i: int|
            0 <= i < params.len() ==> ((#[trigger] params[i]).default_value is Some <==> first
                <= i),
    ensures
        defaults_in(params) == params.len() - first,
    decreases params.len(),
{
    if first == params.len() {
        lemma_no_defaults(params);
    } else {
        let before = params.drop_last();
        assert forall|i: int| 0 <= i < before.len() implies ((#[trigger] before[i]).default_value
            is Some <==> first <= i) by {
            assert(before[i] == params[i]);
        }
        lemma_trailing_defaults(before, first);
        assert(params[params.len() - 1].default_value is Some);
    }
}

/// A native method is shown as it is declared: what it returns, its name, and each parameter with
/// its type, those from `first` on with their defaults; what takes the rest comes last. What it is
/// documented with goes with it.
pub proof fn lemma_native_method_shown(name: Seq<char>, method: NativeFn, first: int)
    requires
        0 <= first <= method.params@.len(),
        forall|i: int|
            0 <= i < method.params@.len() ==> ((#[trigger] method.params@[i]).default_value is Some
                <==> first <= i),
    ensures
        ({
            let sig = method_signature(name, method);
            let n = method.params@.len() as int;
            let start = method.return_type@ + " "@ + name + "("@;
            &&& sig.label.len() > start.len()
            &&& sig.label.take(start.len() as int) == start
            &&& sig.label.last() == ')'
            &&& sig.params.len() == (if method.is_vararg {
                n + 1
            } else {
                n
            })
            &&& forall|i: int|
                0 <= i < n ==> sig.label.subrange(
                    (#[trigger] sig.params[i]).0,
                    sig.params[i].1,
                ) == method.params@[i].name@ + ": "@ + method.params@[i].ty@ + (if first <= i {
                    " = "@ + method.params@[i].default_value->0@
                } else {
                    Seq::empty()
                })
            &&& method.is_vararg ==> sig.label.subrange(sig.params[n].0, sig.params[n].1)
                == "...args: Array"@
            &&& sig.doc == (if method.description@.len() == 0 {
                None
            } else {
                Some(method.description@)
            })
        }),
{
    let start = label_prefix(method.return_type@, name);
    let frags = native_fragments(method.params@, true, method.is_vararg);
    let sig = method_signature(name, method);
    lemma_trailing_defaults(method.params@, first);
    lemma_label_layout(start, frags, described(method.description@));
    assert forall|i: int| 0 <= i < method.params@.len() implies sig.label.subrange(
        (#[trigger] sig.params[i]).0,
        sig.params[i].1,
    ) == method.params@[i].name@ + ": "@ + method.params@[i].ty@ + (if first <= i {
        " = "@ + method.params@[i].default_value->0@
    } else {
        Seq::empty()
    }) by {
        let p = method.params@[i];
        assert(frags[i] == native_fragment(method.params@, i, true));
        if first <= i {
            assert(p.name@ + ": "@ + p.ty@ + " = "@ + p.default_value->0@ =~= p.name@ + ": "@
                + p.ty@ + (" = "@ + p.default_value->0@));
        } else {
            assert(p.name@ + ": "@ + p.ty@ + Seq::<char>::empty() =~= p.name@ + ": "@ + p.ty@);
        }
    }
}

/// A utility is shown as a method is, without documentation.
pub proof fn lemma_utility_shown_like_a_method(name: Seq<char>, utility: NativeFn)
    ensures
        utility_signature(name, utility).label == method_signature(name, utility).label,
        utility_signature(name, utility).params == method_signature(name, utility).params,
        utility_signature(name, utility).doc is None,
{
}

/// A constructor of a builtin type returns the type and bears its name; its parameters are shown
/// with their types and without defaults.
pub proof fn lemma_constructor_shown(builtin: Seq<char>, params: Seq<NativeParam>)
    ensures
        ({
            let sig = constructor_signature(builtin, params);
            let start = builtin + " "@ + builtin + "("@;
            &&& sig.label.len() > start.len()
            &&& sig.label.take(start.len() as int) == start
            &&& sig.params.len() == params.len()
            &&& forall|i: int|
                0 <= i < params.len() ==> sig.label.subrange(
                    (#[trigger] sig.params[i]).0,
                    sig.params[i].1,
                ) == params[i].name@ + ": "@ + params[i].ty@
            &&& sig.doc is None
        }),
{
    lemma_label_layout(label_prefix(builtin, builtin), native_fragments(params, false, false), None);
}

/// A construction whose parameters are not known is `Name(...)`.
pub proof fn lemma_bare_constructor_shown(name: Seq<char>)
    ensures
        bare_constructor(name).label == name + "(...)"@,
        bare_constructor(name).params == seq![(name.len() + 1int, name.len() + 4int)],
        bare_constructor(name).doc is None,
{
    reveal_strlit("(");
    reveal_strlit(")");
    reveal_strlit("...");
    reveal_strlit("(...)");
    let frags = seq!["..."@];
    assert(frags.drop_last() =~= Seq::<Seq<char>>::empty());
    let empty = built(name + "("@, frags.drop_last());
    assert(empty.label == name + "("@);
    let b = built(name + "("@, frags);
    assert(b == with_param(empty, "..."@));
    assert(bare_constructor(name).label =~= name + "(...)"@);
    assert(bare_constructor(name).params =~= seq![(name.len() + 1int, name.len() + 4int)]);
}

/// A function of a script is shown with what it returns, its name and each of its parameters in
/// their order, the one that takes the rest behind them.
pub proof fn lemma_function_shown(
    tree: ParseTree,
    src: Seq<char>,
    return_type: Seq<char>,
    name: Seq<char>,
    function: FunctionNode,
    doc: Option<Seq<char>>,
)
    ensures
        ({
            let sig = function_signature(tree, src, return_type, name, function, doc);
            let start = return_type + " "@ + name + "("@;
            let n = function.parameters@.len() as int;
            &&& sig.doc == doc
            &&& sig.label.len() > start.len()
            &&& sig.label.take(start.len() as int) == start
            &&& sig.label.last() == ')'
            &&& n <= sig.params.len() <= n + 1
            &&& function.rest_parameter is None ==> sig.params.len() == n
            &&& forall|i: int|
                0 <= i < n ==> sig.label.subrange(
                    (#[trigger] sig.params[i]).0,
                    sig.params[i].1,
                ) == script_fragment(tree, src, function.parameters@[i])
            &&& function.rest_parameter matches Some(id) ==> id < tree.nodes@.len() ==> (
            tree.nodes@[id as int].kind matches NodeKind::Parameter(p) ==> sig.params.len() == n
                + 1 && sig.label.subrange(sig.params[n].0, sig.params[n].1) == "..."@ + (opt_ident(
                tree,
                p.identifier,
            ) + ": "@ + annotation(tree, src, p.datatype_specifier, "Variant"@)))
        }),
{
    let frags = function_fragments(tree, src, function);
    lemma_label_layout(label_prefix(return_type, name), frags, doc);
}

/// A parameter is shown with its name, the type that it is declared with or `Variant`, and the
/// source of its default where it has one.
pub proof fn lemma_parameter_shown(tree: ParseTree, src: Seq<char>, id: NodeId, p: syntax::ParameterNode)
    requires
        id < tree.nodes@.len(),
        tree.nodes@[id as int].kind == NodeKind::Parameter(p),
    ensures
        ({
            let name = match p.identifier {
                Some(ident) => syntax::ident_of(tree, ident),
                None => Seq::empty(),
            };
            let shown = script_fragment(tree, src, id);
            &&& p.initializer is None ==> shown == name + ": "@ + annotation(
                tree,
                src,
                p.datatype_specifier,
                "Variant"@,
            )
            &&& p.initializer matches Some(init) ==> shown == name + ": "@ + annotation(
                tree,
                src,
                p.datatype_specifier,
                "Variant"@,
            ) + " = "@ + syntax::source_of(tree, src, init)
        }),
{
}

/// An annotation reads as what it names, without `->`, `:` and white space; an absent or empty one
/// as what it stands for.
pub proof fn lemma_annotation(
    tree: ParseTree,
    src: Seq<char>,
    node: Option<NodeId>,
    absent: Seq<char>,
)
    ensures
        ({
            let shown = annotation(tree, src, node, absent);
            let written = match node {
                Some(id) => cleaned_type(syntax::source_of(tree, src, id)),
                None => Seq::empty(),
            };
            &&& written.len() == 0 ==> shown == absent
            &&& written.len() > 0 ==> shown == written
        }),
{
}

/// A lambda without an annotation may return anything, one with an annotation what that names.
pub proof fn lemma_lambda_returns(tree: ParseTree, src: Seq<char>, function: FunctionNode)
    ensures
        function.return_type is None ==> lambda_return(tree, src, function) == "Variant"@,
        function.return_type is Some ==> lambda_return(tree, src, function) == annotation(
            tree,
            src,
            function.return_type,
            "void"@,
        ),
{
}

/// A client gets the label and the documentation of a signature as they are, and a mark for each
/// parameter: its very text, or where that begins and ends in UTF-16 code units.
pub proof fn lemma_client_sees_signature(
    info: SignatureInformation,
    sig: SigView,
    arg_index: usize,
    caps: SignatureHelpCaps,
)
    requires
        shows(info, sig, arg_index, caps),
    ensures
        info.label@ == sig.label,
        info.documentation is Some == sig.doc is Some,
        info.documentation matches Some(doc) ==> doc@ == sig.doc->0,
        info.parameters@.len() == sig.params.len(),
        forall|i: int|
            0 <= i < sig.params.len() ==> {
                let mark = (#[trigger] info.parameters@[i])@;
                let from = sig.params[i].0;
                let to = sig.params[i].1;
                &&& !caps.label_offset_support ==> mark == ParameterLabelView::Simple(
                    sig.label.subrange(from, to),
                )
                &&& caps.label_offset_support ==> mark == ParameterLabelView::Offsets(
                    utf16_units(sig.label.take(from)) as u32,
                    utf16_units(sig.label.take(to)) as u32,
                )
            },
        info.active_parameter is Some == caps.active_parameter_support,
        info.active_parameter matches Some(active) ==> active == active_of(sig, arg_index) as u32,
{
}

/// A text has one UTF-16 code unit for each character, and one more for each beyond the first plane.
pub proof fn lemma_utf16_units(a: Seq<char>, b: Seq<char>)
    ensures
        utf16_units(a + b) == utf16_units(a) + utf16_units(b),
        a.len() <= utf16_units(a) <= 2 * a.len(),
        (forall|i: int| 0 <= i < a.len() ==> (#[trigger] a[i] as u32) < 0x10000) ==> utf16_units(a)
            == a.len(),
        (forall|i: int| 0 <= i < a.len() ==> (#[trigger] a[i] as u32) >= 0x10000) ==> utf16_units(a)
            == 2 * a.len(),
    decreases a.len() + b.len(),
{
    if b.len() > 0 {
        assert((a + b).drop_last() =~= a + b.drop_last());
        lemma_utf16_units(a, b.drop_last());
    } else {
        assert(a + b =~= a);
        if a.len() > 0 {
            lemma_utf16_units(a.drop_last(), b);
            assert(a.last() == a[a.len() - 1]);
            assert forall|i: int| 0 <= i < a.len() - 1 implies a.drop_last()[i] == #[trigger] a[i] by {}
        }
    }
}

/// A type reads the same with or without what marks it as an annotation.
pub proof fn lemma_without_prefix(s: Seq<char>, part: Seq<char>)
    ensures
        part.is_prefix_of(s) ==> part + without_prefix(s, part) == s,
        !part.is_prefix_of(s) ==> without_prefix(s, part) == s,
{
    if part.is_prefix_of(s) {
        assert(part + s.skip(part.len() as int) =~= s);
    }
    assert(text::starts_with(s, part) == part.is_prefix_of(s)) by {
        if part.len() <= s.len() {
            assert(s.take(part.len() as int) =~= s.subrange(0, part.len() as int));
        }
    }
}

/// What is said of a parameter's mark is said of the mark that a client gets.
pub proof fn lemma_marks_as_they_are(mark: ParameterLabel)
    ensures
        mark matches ParameterLabel::Offsets(start, end) ==> mark@ == ParameterLabelView::Offsets(
            start,
            end,
        ),
        mark matches ParameterLabel::Simple(label) ==> mark@ == ParameterLabelView::Simple(label@),
{
}

} // verus!
