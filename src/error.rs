//! Diagnostics: what went wrong, where, and in which grammar rule.
use vstd::prelude::*;
use crate::Span;
use crate::lexer::TokenKind;

verus! {

/// The kinds of diagnostic.
#[derive(Debug, Clone)]
pub enum ErrorKind {
    /// A free-form message.
    General(String),
    /// The next token was not one of those the grammar allows here.
    Unexpected { expected: Vec<TokenKind>, found: Option<TokenKind> },
    /// An opening delimiter was never matched.
    UnclosedDelimiter {
        delimiter: TokenKind,
        delimiter_span: Span,
        expected: TokenKind,
        found: Option<TokenKind>,
    },
    /// An identifier used outside any scope that binds it.
    UndeclaredVar { var_name: String },
    /// The input holds no expression at all.
    NoTopLevelExpr,
    /// A construct this revision of the language does not handle yet.
    NotSupported(String),
}

/// A diagnostic: a span of the source, its kind, and the grammar rule that
/// raised it, if one was named.
#[derive(Debug)]
pub struct Error {
    span: Span,
    kind: Box<ErrorKind>,
    label: Option<&'static str>,
}

/// The token kinds that a list of lookahead alternatives names, in order,
/// leaving out end of input.
pub open spec fn flatten_kinds(s: Seq<Option<TokenKind>>) -> Seq<TokenKind>
    decreases s.len(),
{
    if s.len() == 0 {
        Seq::empty()
    } else {
        let rest = flatten_kinds(s.drop_last());
        match s.last() {
            Some(k) => rest.push(k),
            None => rest,
        }
    }
}

impl Error {
    /// Where the diagnostic points.
    pub closed spec fn span_of(&self) -> Span {
        self.span
    }

    /// What went wrong.
    pub closed spec fn kind_of(&self) -> ErrorKind {
        *self.kind
    }

    /// The grammar rule that raised the diagnostic, if one was named.
    pub closed spec fn label_of(&self) -> Option<&'static str> {
        self.label
    }

    /// An unclosed delimiter opens at or before the place it is reported.
    #[verifier::type_invariant]
    spec fn delimiter_precedes(&self) -> bool {
        match *self.kind {
            ErrorKind::UnclosedDelimiter { delimiter_span, .. } => delimiter_span.start
                <= self.span.start,
            _ => true,
        }
    }
    pub fn general(span: Span, msg: &str, label: Option<&'static str>) -> (r: Error)
        ensures
            r.span_of() == span,
            r.label_of() == label,
            r.kind_of() matches ErrorKind::General(m) && m@ == msg@,
    {
        Error { span, kind: Box::new(ErrorKind::General(msg.to_string())), label }
    }

    pub fn unexpected(
        span: Span,
        expected: Vec<TokenKind>,
        found: Option<TokenKind>,
        label: Option<&'static str>,
    ) -> (r: Error)
        ensures
            r.span_of() == span,
            r.label_of() == label,
            r.kind_of() matches ErrorKind::Unexpected { expected: e, found: f } && e@ == expected@
                && f == found,
    {
        Error { span, kind: Box::new(ErrorKind::Unexpected { expected, found }), label }
    }

    pub fn undeclared_var(span: Span, var_name: &str, label: Option<&'static str>) -> (r: Error)
        ensures
            r.span_of() == span,
            r.label_of() == label,
            r.kind_of() matches ErrorKind::UndeclaredVar { var_name: v } && v@ == var_name@,
    {
        Error {
            span,
            kind: Box::new(ErrorKind::UndeclaredVar { var_name: var_name.to_string() }),
            label,
        }
    }

    pub fn no_top_level_expr() -> (r: Error)
        ensures
            r.span_of() == (Span { start: 0, end: 0 }),
            r.label_of() is None,
            r.kind_of() is NoTopLevelExpr,
    {
        Error { span: Span { start: 0, end: 0 }, kind: Box::new(ErrorKind::NoTopLevelExpr), label: None }
    }

    pub fn not_supported(span: Span, what: &str) -> (r: Error)
        ensures
            r.span_of() == span,
            r.label_of() is None,
            r.kind_of() matches ErrorKind::NotSupported(m) && m@ == what@,
    {
        Error { span, kind: Box::new(ErrorKind::NotSupported(what.to_string())), label: None }
    }

    pub fn span(&self) -> (r: &Span)
        ensures
            *r == self.span_of(),
    {
        &self.span
    }

    /// What went wrong; an unclosed delimiter always opens at or before the
    /// place it is reported.
    pub fn kind(&self) -> (r: &ErrorKind)
        ensures
            *r == self.kind_of(),
            r matches ErrorKind::UnclosedDelimiter { delimiter_span, .. } ==> delimiter_span.start
                <= self.span_of().start,
    {
        proof {
            use_type_invariant(self);
        }
        &self.kind
    }

    pub fn label(&self) -> (r: Option<&'static str>)
        ensures
            r == self.label_of(),
    {
        self.label
    }

    /// A lookahead mismatch: `found` where one of `expected` was allowed;
    /// `None` among the alternatives stands for end of input and is dropped.
    pub fn expected_input_found(
        span: Span,
        expected: Vec<Option<TokenKind>>,
        found: Option<TokenKind>,
    ) -> (r: Error)
        ensures
            r.span_of() == span,
            r.label_of() is None,
            r.kind_of() matches ErrorKind::Unexpected { expected: e, found: f } && e@ == flatten_kinds(
                expected@,
            ) && f == found,
    {
        let mut kinds: Vec<TokenKind> = Vec::new();
        let mut i: usize = 0;
        while i < expected.len()
            invariant
                0 <= i <= expected@.len(),
                kinds@ == flatten_kinds(expected@.subrange(0, i as int)),
            decreases expected@.len() - i,
        {
            assert(expected@.subrange(0, i + 1).drop_last() =~= expected@.subrange(0, i as int));
            if let Some(k) = expected[i] {
                kinds.push(k);
            }
            i = i + 1;
        }
        assert(expected@.subrange(0, expected@.len() as int) =~= expected@);
        Error { span, kind: Box::new(ErrorKind::Unexpected { expected: kinds, found }), label: None }
    }

    /// A delimiter opened at `unclosed_span` whose closing `expected` never
    /// came; `span` is where it was looked for.
    pub fn unclosed_delimiter(
        unclosed_span: Span,
        delimiter: TokenKind,
        span: Span,
        expected: TokenKind,
        found: Option<TokenKind>,
    ) -> (r: Error)
        requires
            unclosed_span.start <= span.start,
        ensures
            r.span_of() == span,
            r.label_of() is None,
            r.kind_of() == (ErrorKind::UnclosedDelimiter {
                delimiter,
                delimiter_span: unclosed_span,
                expected,
                found,
            }),
    {
        Error {
            span,
            kind: Box::new(
                ErrorKind::UnclosedDelimiter { delimiter, delimiter_span: unclosed_span, expected, found },
            ),
            label: None,
        }
    }

    /// The same diagnostic, annotated with the grammar rule it arose in.
    pub fn with_label(self, label: &'static str) -> (r: Error)
        ensures
            r.span_of() == self.span_of(),
            r.kind_of() == self.kind_of(),
            r.label_of() == Some(label),
    {
        proof {
            use_type_invariant(&self);
        }
        Error { span: self.span, kind: self.kind, label: Some(label) }
    }

    /// Combines the diagnostics of two failed alternatives: the first is kept
    /// as it is.
    pub fn merge(self, other: Error) -> (r: Error)
        ensures
            r == self,
    {
        self
    }
}

} // verus!
