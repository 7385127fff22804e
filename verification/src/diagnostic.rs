//! Diagnostics: messages, each with the place that it points at.
use proc_macro2::Span;
use vstd::prelude::*;

verus! {

/// `syn::Error`, which says that a stretch of tokens is no Rust function. It
/// is carried through as it is.
#[verifier::external_type_specification]
#[verifier::external_body]
pub struct ExSynError(syn::Error);

/// The first and the last token of a piece of syntax.
#[derive(Clone, Copy)]
pub struct Extent {
    pub first: Span,
    pub last: Span,
}

/// A message, with the place that it points at.
pub enum Message {
    /// A message that points at everything from `extent.first` to `extent.last`.
    Text { text: String, extent: Extent },
    /// What the Rust grammar had to say.
    Syntax(syn::Error),
}

pub enum MessageView {
    Text { text: Seq<char>, extent: Extent },
    Syntax(syn::Error),
}

impl View for Message {
    type V = MessageView;

    open spec fn view(&self) -> MessageView {
        match self {
            Message::Text { text, extent } => MessageView::Text { text: text@, extent: *extent },
            Message::Syntax(error) => MessageView::Syntax(*error),
        }
    }
}

/// One or more messages, in the order in which they were found.
pub struct Diagnostic {
    pub messages: Vec<Message>,
}

impl View for Diagnostic {
    type V = Seq<MessageView>;

    open spec fn view(&self) -> Seq<MessageView> {
        self.messages@.map_values(|message: Message| message@)
    }
}

/// The error whose one message points at a piece of syntax.
pub open spec fn error_over(extent: Extent, text: Seq<char>) -> Seq<MessageView> {
    seq![MessageView::Text { text, extent }]
}

/// The error whose one message points at a single place.
pub open spec fn error_at(span: Span, text: Seq<char>) -> Seq<MessageView> {
    error_over(Extent { first: span, last: span }, text)
}

impl Diagnostic {
    /// An error that points at a single place.
    pub fn new(span: Span, text: String) -> (error: Self)
        ensures
            error@ == error_at(span, text@),
    {
        Self::new_spanned(Extent { first: span, last: span }, text)
    }

    /// An error that points at a piece of syntax.
    pub fn new_spanned(extent: Extent, text: String) -> (error: Self)
        ensures
            error@ == error_over(extent, text@),
    {
        let mut messages: Vec<Message> = Vec::new();
        messages.push(Message::Text { text, extent });
        let error = Diagnostic { messages };
        proof {
            assert(error@ =~= error_over(extent, text@));
        }
        error
    }

    /// The error that the Rust grammar gave.
    pub fn syntax(error: syn::Error) -> (r: Self)
        ensures
            r@ == seq![MessageView::Syntax(error)],
    {
        let mut messages: Vec<Message> = Vec::new();
        messages.push(Message::Syntax(error));
        let r = Diagnostic { messages };
        proof {
            assert(r@ =~= seq![MessageView::Syntax(error)]);
        }
        r
    }

    /// Adds another error's messages behind this error's own.
    pub fn combine(&mut self, another: Diagnostic)
        ensures
            final(self)@ == old(self)@ + another@,
    {
        let ghost tail = another@;
        let mut messages = another.messages;
        self.messages.append(&mut messages);
        proof {
            assert(self@ =~= old(self)@ + tail);
        }
    }
}

} // verus!
