//! The walk through a function body that expands every
//! `#[safety::checked(..)]` in it.
use proc_macro2::Span;
use vstd::prelude::*;

use crate::checked::accounted;
use crate::checked::args_of;
use crate::checked::checked_position;
use crate::checked::expand_checked;
use crate::checked::expanded;
use crate::checked::is_checked;
use crate::checked::is_checked_attr;
use crate::checked::rewritten;
use crate::checked::rewritten_callee;
use crate::checked::take_checked_attr;
use crate::code::attr_view;
use crate::code::attrs_view;
use crate::code::code_view;
use crate::code::codes_view;
use crate::code::expr_view;
use crate::code::extent_behind;
use crate::code::extent_with;
use crate::code::local_view;
use crate::code::Attr;
use crate::code::AttrView;
use crate::code::CallExprView;
use crate::code::CheckedExprView;
use crate::code::Code;
use crate::code::CodeView;
use crate::code::Expression;
use crate::code::ExpressionView;
use crate::code::Let;
use crate::code::LetView;
use crate::code::Meta;
use crate::code::MethodCallExprView;
use crate::code::OtherExprView;
use crate::code::PathExprView;
use crate::code::UnsafeExprView;
use crate::diagnostic::error_over;
use crate::diagnostic::Diagnostic;
use crate::diagnostic::MessageView;
use crate::hash::tagset_digest;
use crate::lexeme::lexemes_of;
use crate::tags::lemma_checked_args_say_why;
use crate::tags::CheckedArgsView;
use crate::token::trees_of;

verus! {

/// How many attributes and pieces of code an expression is made of.
pub open spec fn expr_size(expr: ExpressionView) -> nat
    decreases expr,
{
    match expr {
        ExpressionView::Unsafe(u) => 1 + attrs_size(u.attrs) + codes_size(u.stmts),
        ExpressionView::Call(c) => 1 + attrs_size(c.attrs) + expr_size(*c.func) + codes_size(c.args),
        ExpressionView::MethodCall(m) => 1 + attrs_size(m.attrs) + codes_size(m.children),
        ExpressionView::Path(p) => 1 + codes_size(p.children),
        ExpressionView::Checked(k) => 1 + expr_size(*k.inner),
        ExpressionView::Other(o) => 1 + codes_size(o.children),
    }
}

pub open spec fn local_size(local: LetView) -> nat
    decreases local,
{
    let init = match local.init {
        Some(init) => expr_size(*init),
        None => 0,
    };
    1 + attrs_size(local.attrs) + codes_size(local.pattern) + init + codes_size(local.diverge)
}

pub open spec fn code_size(code: CodeView) -> nat
    decreases code,
{
    match code {
        CodeView::Expression(expr) => 1 + expr_size(expr),
        CodeView::Let(local) => 1 + local_size(local),
        CodeView::Attr(attr) => 1 + attr_size(attr),
        CodeView::Other { children, .. } => 1 + codes_size(children),
    }
}

pub open spec fn codes_size(codes: Seq<CodeView>) -> nat
    decreases codes,
{
    if codes.len() == 0 {
        0
    } else {
        code_size(codes[0]) + codes_size(codes.drop_first())
    }
}

pub open spec fn attr_size(attr: AttrView) -> nat
    decreases attr,
{
    2 + codes_size(attr.children)
}

pub open spec fn attrs_size(attrs: Seq<AttrView>) -> nat
    decreases attrs,
{
    if attrs.len() == 0 {
        0
    } else {
        attr_size(attrs[0]) + attrs_size(attrs.drop_first())
    }
}

/// The attributes of an expression that may bear a `checked` attribute.
pub open spec fn attrs_of(expr: ExpressionView) -> Seq<AttrView> {
    match expr {
        ExpressionView::Unsafe(u) => u.attrs,
        ExpressionView::Call(c) => c.attrs,
        ExpressionView::MethodCall(m) => m.attrs,
        _ => Seq::empty(),
    }
}

/// The expression with other attributes.
pub open spec fn with_attrs(expr: ExpressionView, attrs: Seq<AttrView>) -> ExpressionView {
    match expr {
        ExpressionView::Unsafe(u) => ExpressionView::Unsafe(UnsafeExprView { attrs, ..u }),
        ExpressionView::Call(c) => ExpressionView::Call(CallExprView { attrs, ..c }),
        ExpressionView::MethodCall(m) => ExpressionView::MethodCall(MethodCallExprView { attrs, ..m }),
        other => other,
    }
}

/// A piece of code after the walk, with the errors that the walk found in it.
pub struct Walked<T> {
    pub code: T,
    pub errors: Seq<MessageView>,
}

/// What the walk makes of an expression. Its first `checked` attribute is
/// taken and expanded; then the walk goes on into what came of it.
pub open spec fn visited_expr(expr: ExpressionView, call_site: Span) -> Walked<ExpressionView>
    decreases expr_size(expr), 1nat,
{
    let attrs = attrs_of(expr);
    let pos = checked_position(attrs);
    if pos >= attrs.len() {
        walked_expr(expr, call_site)
    } else {
        let bare = with_attrs(expr, attrs.remove(pos));
        proof {
            lemma_position_bounds(attrs);
            lemma_with_attrs_size(expr, pos);
            lemma_expanded_size(attrs[pos], bare, call_site);
        }
        match expanded(attrs[pos], bare, call_site) {
            Ok(block) => walked_expr(block, call_site),
            Err(error) => {
                let walked = walked_expr(bare, call_site);
                Walked { errors: error + walked.errors, ..walked }
            },
        }
    }
}

/// What the walk makes of the code in an expression.
pub open spec fn walked_expr(expr: ExpressionView, call_site: Span) -> Walked<ExpressionView>
    decreases expr_size(expr), 0nat,
{
    match expr {
        ExpressionView::Unsafe(u) => {
            let attrs = visited_attrs(u.attrs, call_site);
            let stmts = visited_codes(u.stmts, call_site);
            Walked {
                code: ExpressionView::Unsafe(
                    UnsafeExprView { attrs: attrs.code, stmts: stmts.code, ..u },
                ),
                errors: attrs.errors + stmts.errors,
            }
        },
        ExpressionView::Call(c) => {
            let attrs = visited_attrs(c.attrs, call_site);
            let func = visited_expr(*c.func, call_site);
            let args = visited_codes(c.args, call_site);
            Walked {
                code: ExpressionView::Call(
                    CallExprView {
                        attrs: attrs.code,
                        func: Box::new(func.code),
                        args: args.code,
                        ..c
                    },
                ),
                errors: attrs.errors + func.errors + args.errors,
            }
        },
        ExpressionView::MethodCall(m) => {
            let attrs = visited_attrs(m.attrs, call_site);
            let children = visited_codes(m.children, call_site);
            Walked {
                code: ExpressionView::MethodCall(
                    MethodCallExprView { attrs: attrs.code, children: children.code, ..m },
                ),
                errors: attrs.errors + children.errors,
            }
        },
        ExpressionView::Path(p) => {
            let children = visited_codes(p.children, call_site);
            Walked {
                code: ExpressionView::Path(PathExprView { children: children.code, ..p }),
                errors: children.errors,
            }
        },
        ExpressionView::Checked(k) => {
            let inner = visited_expr(*k.inner, call_site);
            Walked {
                code: ExpressionView::Checked(CheckedExprView { inner: Box::new(inner.code), ..k }),
                errors: inner.errors,
            }
        },
        ExpressionView::Other(o) => {
            let children = visited_codes(o.children, call_site);
            Walked {
                code: ExpressionView::Other(OtherExprView { children: children.code, ..o }),
                errors: children.errors,
            }
        },
    }
}

/// What the walk makes of a `let` statement. Its first `checked` attribute is
/// taken and expanded on the initializer, then the next, until none is left;
/// then the walk goes on into it.
pub open spec fn visited_local(local: LetView, call_site: Span) -> Walked<LetView>
    decreases local_size(local), 1nat,
{
    let pos = checked_position(local.attrs);
    if pos >= local.attrs.len() {
        walked_local(local, call_site)
    } else {
        let bare = LetView { attrs: local.attrs.remove(pos), ..local };
        let expansion = match bare.init {
            Some(init) => expanded(local.attrs[pos], *init, call_site),
            None => Err(
                error_over(
                    extent_with(bare.attrs, bare.bare),
                    "#[safety::checked] on a `let` requires an initializer"@,
                ),
            ),
        };
        proof {
            lemma_position_bounds(local.attrs);
            lemma_without_size(local.attrs, pos);
            if let Some(init) = bare.init {
                lemma_expanded_size(local.attrs[pos], *init, call_site);
            }
        }
        match expansion {
            Ok(block) => visited_local(
                LetView { init: Some(Box::new(block)), ..bare },
                call_site,
            ),
            Err(error) => {
                let walked = visited_local(bare, call_site);
                Walked { errors: error + walked.errors, ..walked }
            },
        }
    }
}

/// What the walk makes of the code in a `let` statement.
pub open spec fn walked_local(local: LetView, call_site: Span) -> Walked<LetView>
    decreases local_size(local), 0nat,
{
    let attrs = visited_attrs(local.attrs, call_site);
    let pattern = visited_codes(local.pattern, call_site);
    let diverge = visited_codes(local.diverge, call_site);
    match local.init {
        Some(init) => {
            let init = visited_expr(*init, call_site);
            Walked {
                code: LetView {
                    attrs: attrs.code,
                    pattern: pattern.code,
                    init: Some(Box::new(init.code)),
                    diverge: diverge.code,
                    ..local
                },
                errors: attrs.errors + pattern.errors + init.errors + diverge.errors,
            }
        },
        None => Walked {
            code: LetView {
                attrs: attrs.code,
                pattern: pattern.code,
                diverge: diverge.code,
                ..local
            },
            errors: attrs.errors + pattern.errors + diverge.errors,
        },
    }
}

/// What the walk makes of a piece of code.
pub open spec fn visited_code(code: CodeView, call_site: Span) -> Walked<CodeView>
    decreases code_size(code), 0nat,
{
    match code {
        CodeView::Expression(expr) => {
            let walked = visited_expr(expr, call_site);
            Walked { code: CodeView::Expression(walked.code), errors: walked.errors }
        },
        CodeView::Let(local) => {
            let walked = visited_local(local, call_site);
            Walked { code: CodeView::Let(walked.code), errors: walked.errors }
        },
        CodeView::Attr(attr) => {
            let walked = visited_attr(attr, call_site);
            Walked {
                code: CodeView::Attr(walked.code),
                errors: misplaced(attr) + walked.errors,
            }
        },
        CodeView::Other { children, extent } => {
            let walked = visited_codes(children, call_site);
            Walked {
                code: CodeView::Other { children: walked.code, extent },
                errors: walked.errors,
            }
        },
    }
}

/// What the walk makes of pieces of code, one after the other.
pub open spec fn visited_codes(codes: Seq<CodeView>, call_site: Span) -> Walked<Seq<CodeView>>
    decreases codes_size(codes), codes.len() + 1,
{
    if codes.len() == 0 {
        Walked { code: Seq::empty(), errors: Seq::empty() }
    } else {
        let first = visited_code(codes[0], call_site);
        let rest = visited_codes(codes.drop_first(), call_site);
        Walked { code: seq![first.code] + rest.code, errors: first.errors + rest.errors }
    }
}

/// The errors for an attribute that stands where no call can: one for a
/// `checked` attribute.
pub open spec fn misplaced(attr: AttrView) -> Seq<MessageView> {
    if is_checked(attr) {
        error_over(
            attr.extent,
            "#[safety::checked] expects a single function call, optionally wrapped in `unsafe { .. }`"@,
        )
    } else {
        Seq::empty()
    }
}

/// What the walk makes of the code in an attribute.
pub open spec fn visited_attr(attr: AttrView, call_site: Span) -> Walked<AttrView>
    decreases attr_size(attr), 0nat,
{
    let children = visited_codes(attr.children, call_site);
    Walked { code: AttrView { children: children.code, ..attr }, errors: children.errors }
}

/// What the walk makes of the code in attributes, one after the other.
pub open spec fn visited_attrs(attrs: Seq<AttrView>, call_site: Span) -> Walked<Seq<AttrView>>
    decreases attrs_size(attrs), attrs.len() + 1,
{
    if attrs.len() == 0 {
        Walked { code: Seq::empty(), errors: Seq::empty() }
    } else {
        let first = visited_attr(attrs[0], call_site);
        let rest = visited_attrs(attrs.drop_first(), call_site);
        Walked { code: seq![first.code] + rest.code, errors: first.errors + rest.errors }
    }
}

/// The position of the first `checked` attribute is that of a `checked`
/// attribute, or behind the last.
pub proof fn lemma_position_bounds(attrs: Seq<AttrView>)
    ensures
        0 <= checked_position(attrs) <= attrs.len(),
        checked_position(attrs) < attrs.len() ==> is_checked(attrs[checked_position(attrs)]),
    decreases attrs.len(),
{
    if attrs.len() > 0 && !is_checked(attrs[0]) {
        lemma_position_bounds(attrs.drop_first());
    }
}

/// Rewriting a call adds no code to it.
proof fn lemma_rewritten_size(expr: ExpressionView, digest: Seq<char>, call_site: Span)
    ensures
        rewritten(expr, digest, call_site) matches Ok(call) ==> expr_size(call) == expr_size(expr),
    decreases expr,
{
    match expr {
        ExpressionView::Unsafe(u) => {
            if u.stmts.len() == 1 {
                if let CodeView::Expression(inner) = u.stmts[0] {
                    lemma_rewritten_size(inner, digest, call_site);
                    if let Ok(call) = rewritten(inner, digest, call_site) {
                        let stmts = seq![CodeView::Expression(call)];
                        assert(codes_size(stmts.drop_first()) == 0);
                        assert(codes_size(u.stmts.drop_first()) == 0);
                        assert(code_size(stmts[0]) == 1 + expr_size(call));
                        assert(code_size(u.stmts[0]) == 1 + expr_size(inner));
                        assert(codes_size(stmts) == codes_size(u.stmts));
                    }
                }
            }
        },
        ExpressionView::Call(c) => {
            if let Ok(func) = rewritten_callee(*c.func, digest, call_site) {
                assert(expr_size(func) == expr_size(*c.func));
            }
        },
        _ => {},
    }
}

/// Taking an attribute out makes the rest smaller by its size.
pub proof fn lemma_without_size(attrs: Seq<AttrView>, pos: int)
    requires
        0 <= pos < attrs.len(),
    ensures
        attrs_size(attrs.remove(pos)) + attr_size(attrs[pos]) == attrs_size(attrs),
    decreases attrs.len(),
{
    if pos == 0 {
        assert(attrs.remove(pos) =~= attrs.drop_first());
    } else {
        lemma_without_size(attrs.drop_first(), pos - 1);
        assert(attrs.remove(pos).drop_first() =~= attrs.drop_first().remove(pos - 1));
    }
}

/// Taking an attribute off an expression makes it smaller by its size.
pub proof fn lemma_with_attrs_size(expr: ExpressionView, pos: int)
    requires
        0 <= pos < attrs_of(expr).len(),
    ensures
        expr_size(with_attrs(expr, attrs_of(expr).remove(pos))) + attr_size(attrs_of(expr)[pos])
            == expr_size(expr),
{
    lemma_without_size(attrs_of(expr), pos);
}

/// A checked call is larger than the call by the block round it.
pub proof fn lemma_expanded_size(attr: AttrView, expr: ExpressionView, call_site: Span)
    ensures
        expanded(attr, expr, call_site) matches Ok(block) ==> expr_size(block) == 1 + expr_size(
            expr,
        ),
{
    if let Ok(args) = args_of(attr) {
        lemma_rewritten_size(expr, tagset_digest(accounted(args)), call_site);
    }
}

/// An expansion that fails says why.
proof fn lemma_rewritten_says_why(expr: ExpressionView, digest: Seq<char>, call_site: Span)
    ensures
        rewritten(expr, digest, call_site) matches Err(error) ==> error.len() > 0,
    decreases expr,
{
    if let ExpressionView::Unsafe(u) = expr {
        if u.stmts.len() == 1 {
            if let CodeView::Expression(inner) = u.stmts[0] {
                lemma_rewritten_says_why(inner, digest, call_site);
            }
        }
    }
}

pub(crate) proof fn lemma_expanded_says_why(attr: AttrView, expr: ExpressionView, call_site: Span)
    ensures
        expanded(attr, expr, call_site) matches Err(error) ==> error.len() > 0,
{
    match args_of(attr) {
        Ok(args) => {
            lemma_rewritten_says_why(expr, tagset_digest(accounted(args)), call_site);
        },
        Err(error) => {
            if let Meta::List { tokens, close } = attr.meta {
                lemma_checked_args_say_why(
                    lexemes_of(trees_of(tokens)),
                    0,
                    close,
                    CheckedArgsView { discharged: Seq::empty(), delegated: Seq::empty() },
                );
            }
        },
    }
}

/// Walks a function body, consuming every `#[safety::checked(...)]` before
/// rustc can reject it (expression attributes are unstable, but they only
/// exist as tokens inside our input).
pub struct CheckedExpander {
    pub error: Option<Diagnostic>,
    pub call_site: Span,
}

impl CheckedExpander {
    /// The messages of all the errors found so far.
    pub open spec fn messages(self) -> Seq<MessageView> {
        match self.error {
            Some(error) => error@,
            None => Seq::empty(),
        }
    }

    /// An error has a message.
    pub open spec fn well_formed(self) -> bool {
        self.error is Some ==> self.messages().len() > 0
    }

    /// Adds an error behind those found so far.
    pub fn push(&mut self, e: Diagnostic)
        ensures
            final(self).messages() == old(self).messages() + e@,
            final(self).error is Some,
            final(self).call_site == old(self).call_site,
    {
        match &mut self.error {
            Some(prev) => prev.combine(e),
            None => {
                self.error = Some(e);
            },
        }
        proof {
            assert(self.messages() =~= old(self).messages() + e@);
        }
    }

    /// Expands the first `checked` attribute of an expression, then what is
    /// in it.
    pub fn visit_expr_mut(&mut self, expr: &mut Expression)
        requires
            old(self).well_formed(),
        ensures
            ({
                let walked = visited_expr(expr_view(*old(expr)), old(self).call_site);
                &&& expr_view(*final(expr)) == walked.code
                &&& final(self).messages() == old(self).messages() + walked.errors
            }),
            final(self).well_formed(),
            final(self).call_site == old(self).call_site,
        decreases expr_size(expr_view(*old(expr))), 1nat,
    {
        // The attribute may sit on the unsafe block or directly on the call.
        let ghost before = expr_view(*expr);
        let taken = match expr {
            Expression::Unsafe(u) => take_checked_attr(&mut u.attrs),
            Expression::Call(c) => take_checked_attr(&mut c.attrs),
            Expression::MethodCall(m) => take_checked_attr(&mut m.attrs),
            _ => None,
        };
        let ghost bare = expr_view(*expr);
        let ghost start = self.messages();
        let call_site = self.call_site;
        if let Some(attr) = taken {
            proof {
                assert(bare == with_attrs(
                    before,
                    attrs_of(before).remove(checked_position(attrs_of(before))),
                ));
                lemma_position_bounds(attrs_of(before));
                lemma_with_attrs_size(before, checked_position(attrs_of(before)));
                lemma_expanded_size(attr@, bare, call_site);
                lemma_expanded_says_why(attr@, bare, call_site);
            }
            if let Err(e) = expand_checked(attr, expr, call_site) {
                self.push(e);
            }
        } else {
            proof {
                assert(bare == before);
            }
        }
        self.walk_expr_mut(expr);
        proof {
            let walked = visited_expr(before, call_site);
            assert(self.messages() =~= start + walked.errors);
        }
    }

    /// Expands what is in an expression.
    fn walk_expr_mut(&mut self, expr: &mut Expression)
        requires
            old(self).well_formed(),
        ensures
            ({
                let walked = walked_expr(expr_view(*old(expr)), old(self).call_site);
                &&& expr_view(*final(expr)) == walked.code
                &&& final(self).messages() == old(self).messages() + walked.errors
            }),
            final(self).well_formed(),
            final(self).call_site == old(self).call_site,
        decreases expr_size(expr_view(*old(expr))), 0nat,
    {
        match expr {
            Expression::Unsafe(u) => {
                self.visit_attrs_mut(&mut u.attrs);
                self.visit_codes_mut(&mut u.stmts);
            },
            Expression::Call(c) => {
                self.visit_attrs_mut(&mut c.attrs);
                self.visit_expr_mut(&mut c.func);
                self.visit_codes_mut(&mut c.args);
            },
            Expression::MethodCall(m) => {
                self.visit_attrs_mut(&mut m.attrs);
                self.visit_codes_mut(&mut m.children);
            },
            Expression::Path(p) => self.visit_codes_mut(&mut p.children),
            Expression::Checked(k) => self.visit_expr_mut(&mut k.inner),
            Expression::Other(o) => self.visit_codes_mut(&mut o.children),
        }
    }

    /// Expands the `checked` attributes of a `let` statement, one after the
    /// other, then what is in it.
    pub fn visit_local_mut(&mut self, local: &mut Let)
        requires
            old(self).well_formed(),
        ensures
            ({
                let walked = visited_local(local_view(*old(local)), old(self).call_site);
                &&& local_view(*final(local)) == walked.code
                &&& final(self).messages() == old(self).messages() + walked.errors
            }),
            final(self).well_formed(),
            final(self).call_site == old(self).call_site,
        decreases local_size(local_view(*old(local))), 1nat,
    {
        // `#[safety::checked(...)] let v = unsafe { f(x) };` — the attribute is
        // on the `let`; apply it to the initializer expression.
        let call_site = self.call_site;
        let ghost before = local_view(*local);
        let ghost start = self.messages();
        if let Some(attr) = take_checked_attr(&mut local.attrs) {
            proof {
                lemma_position_bounds(before.attrs);
                lemma_without_size(before.attrs, checked_position(before.attrs));
            }
            let extent = extent_behind(&local.attrs, local.bare);
            match &mut local.init {
                Some(init) => {
                    proof {
                        lemma_expanded_size(attr@, expr_view(**init), call_site);
                        lemma_expanded_says_why(attr@, expr_view(**init), call_site);
                    }
                    if let Err(e) = expand_checked(attr, init, call_site) {
                        self.push(e);
                    }
                },
                None => self.push(
                    Diagnostic::new_spanned(
                        extent,
                        "#[safety::checked] on a `let` requires an initializer".to_owned(),
                    ),
                ),
            }
            proof {
                assert(local_size(local_view(*local)) < local_size(before));
            }
            self.visit_local_mut(local);
        } else {
            self.walk_local_mut(local);
        }
        proof {
            assert(self.messages() =~= start + visited_local(before, call_site).errors);
        }
    }

    /// Expands what is in a `let` statement.
    fn walk_local_mut(&mut self, local: &mut Let)
        requires
            old(self).well_formed(),
        ensures
            ({
                let walked = walked_local(local_view(*old(local)), old(self).call_site);
                &&& local_view(*final(local)) == walked.code
                &&& final(self).messages() == old(self).messages() + walked.errors
            }),
            final(self).well_formed(),
            final(self).call_site == old(self).call_site,
        decreases local_size(local_view(*old(local))), 0nat,
    {
        self.visit_attrs_mut(&mut local.attrs);
        self.visit_codes_mut(&mut local.pattern);
        match &mut local.init {
            Some(init) => self.visit_expr_mut(init),
            None => {},
        }
        self.visit_codes_mut(&mut local.diverge);
    }

    /// Expands a piece of code.
    fn visit_code_mut(&mut self, code: &mut Code)
        requires
            old(self).well_formed(),
        ensures
            ({
                let walked = visited_code(code_view(*old(code)), old(self).call_site);
                &&& code_view(*final(code)) == walked.code
                &&& final(self).messages() == old(self).messages() + walked.errors
            }),
            final(self).well_formed(),
            final(self).call_site == old(self).call_site,
        decreases code_size(code_view(*old(code))), 0nat,
    {
        match code {
            Code::Expression(expr) => self.visit_expr_mut(expr),
            Code::Let(local) => self.visit_local_mut(local),
            Code::Attr(attr) => {
                if is_checked_attr(attr) {
                    self.push(
                        Diagnostic::new_spanned(
                            attr.extent,
                            "#[safety::checked] expects a single function call, optionally wrapped in `unsafe { .. }`".to_owned(),
                        ),
                    );
                }
                self.visit_attr_mut(attr);
            },
            Code::Other { children, .. } => self.visit_codes_mut(children),
        }
    }

    /// Expands what is in an attribute.
    fn visit_attr_mut(&mut self, attr: &mut Attr)
        requires
            old(self).well_formed(),
        ensures
            ({
                let walked = visited_attr(attr_view(*old(attr)), old(self).call_site);
                &&& attr_view(*final(attr)) == walked.code
                &&& final(self).messages() == old(self).messages() + walked.errors
            }),
            final(self).well_formed(),
            final(self).call_site == old(self).call_site,
        decreases attr_size(attr_view(*old(attr))), 0nat,
    {
        self.visit_codes_mut(&mut attr.children);
    }

    /// Expands what is in attributes, one after the other.
    fn visit_attrs_mut(&mut self, attrs: &mut Vec<Attr>)
        requires
            old(self).well_formed(),
        ensures
            ({
                let walked = visited_attrs(attrs_view(old(attrs)@), old(self).call_site);
                &&& attrs_view(final(attrs)@) == walked.code
                &&& final(self).messages() == old(self).messages() + walked.errors
            }),
            final(self).well_formed(),
            final(self).call_site == old(self).call_site,
        decreases attrs_size(attrs_view(old(attrs)@)), old(attrs)@.len() + 1,
    {
        let ghost call_site = self.call_site;
        let ghost all = attrs_view(attrs@);
        let ghost start = self.messages();
        let ghost mut done: Seq<AttrView> = Seq::empty();
        let ghost mut errors: Seq<MessageView> = Seq::empty();
        let mut i: usize = 0;
        proof {
            assert(all.skip(0) == all);
            assert(done + all =~= all);
            let walked = visited_attrs(all, call_site);
            assert(done + walked.code =~= walked.code);
            assert(errors + walked.errors =~= walked.errors);
            assert(start + errors =~= start);
        }
        while i < attrs.len()
            invariant
                i <= attrs@.len(),
                attrs@.len() == all.len(),
                all == attrs_view(old(attrs)@),
                done.len() == i,
                attrs_view(attrs@) == done + all.skip(i as int),
                self.call_site == call_site,
                self.well_formed(),
                self.messages() == start + errors,
                visited_attrs(all, call_site).code == done + visited_attrs(
                    all.skip(i as int),
                    call_site,
                ).code,
                visited_attrs(all, call_site).errors == errors + visited_attrs(
                    all.skip(i as int),
                    call_site,
                ).errors,
                attrs_size(all.skip(i as int)) <= attrs_size(all),
            decreases attrs@.len() - i,
        {
            let ghost rest = all.skip(i as int);
            proof {
                assert(attrs_view(attrs@)[i as int] == rest[0]);
                assert(rest.drop_first() == all.skip(i + 1));
            }
            let ghost held = attrs@;
            self.visit_attr_mut(&mut attrs[i]);
            proof {
                let first = visited_attr(rest[0], call_site);
                let behind = visited_attrs(rest.drop_first(), call_site);
                assert forall|j: int| 0 <= j < attrs@.len() implies #[trigger] attrs_view(
                    attrs@,
                )[j] == (done.push(first.code) + all.skip(i + 1))[j] by {
                    if j != i {
                        assert(attrs@[j] == held[j]);
                        assert(attrs_view(held)[j] == attr_view(held[j]));
                    }
                }
                assert(attrs_view(attrs@) =~= done.push(first.code) + all.skip(i + 1));
                assert(done + (seq![first.code] + behind.code) =~= done.push(first.code)
                    + behind.code);
                assert(errors + (first.errors + behind.errors) =~= (errors + first.errors)
                    + behind.errors);
                assert(start + (errors + first.errors) =~= (start + errors) + first.errors);
                done = done.push(first.code);
                errors = errors + first.errors;
            }
            i += 1;
        }
        proof {
            assert(all.skip(i as int) =~= Seq::empty());
            assert(attrs_view(attrs@) =~= done);
            assert(visited_attrs(all, call_site).code =~= done);
            assert(visited_attrs(all, call_site).errors =~= errors);
        }
    }

    /// Expands pieces of code, one after the other.
    pub fn visit_codes_mut(&mut self, codes: &mut Vec<Code>)
        requires
            old(self).well_formed(),
        ensures
            ({
                let walked = visited_codes(codes_view(old(codes)@), old(self).call_site);
                &&& codes_view(final(codes)@) == walked.code
                &&& final(self).messages() == old(self).messages() + walked.errors
            }),
            final(self).well_formed(),
            final(self).call_site == old(self).call_site,
        decreases codes_size(codes_view(old(codes)@)), old(codes)@.len() + 1,
    {
        let ghost call_site = self.call_site;
        let ghost all = codes_view(codes@);
        let ghost start = self.messages();
        let ghost mut done: Seq<CodeView> = Seq::empty();
        let ghost mut errors: Seq<MessageView> = Seq::empty();
        let mut i: usize = 0;
        proof {
            assert(all.skip(0) == all);
            assert(done + all =~= all);
            let walked = visited_codes(all, call_site);
            assert(done + walked.code =~= walked.code);
            assert(errors + walked.errors =~= walked.errors);
            assert(start + errors =~= start);
        }
        while i < codes.len()
            invariant
                i <= codes@.len(),
                codes@.len() == all.len(),
                all == codes_view(old(codes)@),
                done.len() == i,
                codes_view(codes@) == done + all.skip(i as int),
                self.call_site == call_site,
                self.well_formed(),
                self.messages() == start + errors,
                visited_codes(all, call_site).code == done + visited_codes(
                    all.skip(i as int),
                    call_site,
                ).code,
                visited_codes(all, call_site).errors == errors + visited_codes(
                    all.skip(i as int),
                    call_site,
                ).errors,
                codes_size(all.skip(i as int)) <= codes_size(all),
            decreases codes@.len() - i,
        {
            let ghost rest = all.skip(i as int);
            proof {
                assert(codes_view(codes@)[i as int] == rest[0]);
                assert(rest.drop_first() == all.skip(i + 1));
            }
            let ghost held = codes@;
            self.visit_code_mut(&mut codes[i]);
            proof {
                let first = visited_code(rest[0], call_site);
                let behind = visited_codes(rest.drop_first(), call_site);
                assert forall|j: int| 0 <= j < codes@.len() implies #[trigger] codes_view(
                    codes@,
                )[j] == (done.push(first.code) + all.skip(i + 1))[j] by {
                    if j != i {
                        assert(codes@[j] == held[j]);
                        assert(codes_view(held)[j] == code_view(held[j]));
                    }
                }
                assert(codes_view(codes@) =~= done.push(first.code) + all.skip(i + 1));
                assert(done + (seq![first.code] + behind.code) =~= done.push(first.code)
                    + behind.code);
                assert(errors + (first.errors + behind.errors) =~= (errors + first.errors)
                    + behind.errors);
                assert(start + (errors + first.errors) =~= (start + errors) + first.errors);
                done = done.push(first.code);
                errors = errors + first.errors;
            }
            i += 1;
        }
        proof {
            assert(all.skip(i as int) =~= Seq::empty());
            assert(codes_view(codes@) =~= done);
            assert(visited_codes(all, call_site).code =~= done);
            assert(visited_codes(all, call_site).errors =~= errors);
        }
    }
}

} // verus!
