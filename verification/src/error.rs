use vstd::prelude::*;

use crate::text::{int_chars, nat_digits, push_char, push_nat, push_str, copy_string};
use crate::token::Span;

verus! {

/// An error of the compiler, with where it occurred and how to mend it.
#[derive(Debug)]
pub struct PastelError {
    pub kind: ErrorKind,
    pub message: String,
    pub span: Option<Span>,
    pub hint: Option<String>,
}

/// What went wrong, by compiler stage.
#[derive(Debug, Clone, Copy, PartialEq, Eq, Structural)]
pub enum ErrorKind {
    // Lexer errors
    UnexpectedChar,
    UnterminatedString,
    InvalidColor,
    InvalidNumber,
    // Parser errors
    UnexpectedToken,
    ExpectedToken,
    ExpectedDeclaration,
    // Semantic errors
    UndefinedVariable,
    UndefinedAsset,
    DuplicateId,
    TypeMismatch,
    InvalidValue,
    CircularInclude,
    IncludeError,
}

/// The mathematical content of an error.
pub ghost struct ErrorView {
    pub kind: ErrorKind,
    pub message: Seq<char>,
    pub span: Option<Span>,
    pub hint: Option<Seq<char>>,
}

pub open spec fn opt_string_view(o: Option<String>) -> Option<Seq<char>> {
    match o {
        Some(s) => Some(s@),
        None => None,
    }
}

impl View for PastelError {
    type V = ErrorView;

    open spec fn view(&self) -> ErrorView {
        ErrorView {
            kind: self.kind,
            message: self.message@,
            span: self.span,
            hint: opt_string_view(self.hint),
        }
    }
}

/// An error with a kind and a message only.
pub open spec fn err_view(kind: ErrorKind, message: Seq<char>) -> ErrorView {
    ErrorView { kind, message, span: None, hint: None }
}

/// The name of an error kind, as its `Debug` form writes it.
pub open spec fn error_kind_name(k: ErrorKind) -> Seq<char> {
    match k {
        ErrorKind::UnexpectedChar => "UnexpectedChar"@,
        ErrorKind::UnterminatedString => "UnterminatedString"@,
        ErrorKind::InvalidColor => "InvalidColor"@,
        ErrorKind::InvalidNumber => "InvalidNumber"@,
        ErrorKind::UnexpectedToken => "UnexpectedToken"@,
        ErrorKind::ExpectedToken => "ExpectedToken"@,
        ErrorKind::ExpectedDeclaration => "ExpectedDeclaration"@,
        ErrorKind::UndefinedVariable => "UndefinedVariable"@,
        ErrorKind::UndefinedAsset => "UndefinedAsset"@,
        ErrorKind::DuplicateId => "DuplicateId"@,
        ErrorKind::TypeMismatch => "TypeMismatch"@,
        ErrorKind::InvalidValue => "InvalidValue"@,
        ErrorKind::CircularInclude => "CircularInclude"@,
        ErrorKind::IncludeError => "IncludeError"@,
    }
}

/// The text shown to the user for an error:
/// `error[Kind]: message`, then the location and the hint when present.
pub open spec fn error_display(e: ErrorView) -> Seq<char> {
    let head = "error["@ + error_kind_name(e.kind) + "]: "@ + e.message;
    let with_span = match e.span {
        Some(sp) => head + "\n  --> line "@ + nat_digits(sp.line as nat) + seq![':'] + nat_digits(
            sp.col as nat,
        ),
        None => head,
    };
    match e.hint {
        Some(h) => with_span + "\n  = help: "@ + h,
        None => with_span,
    }
}

impl ErrorKind {
    /// The name of the kind.
    pub fn name(&self) -> (s: &'static str)
        ensures
            s@ == error_kind_name(*self),
    {
        match self {
            ErrorKind::UnexpectedChar => "UnexpectedChar",
            ErrorKind::UnterminatedString => "UnterminatedString",
            ErrorKind::InvalidColor => "InvalidColor",
            ErrorKind::InvalidNumber => "InvalidNumber",
            ErrorKind::UnexpectedToken => "UnexpectedToken",
            ErrorKind::ExpectedToken => "ExpectedToken",
            ErrorKind::ExpectedDeclaration => "ExpectedDeclaration",
            ErrorKind::UndefinedVariable => "UndefinedVariable",
            ErrorKind::UndefinedAsset => "UndefinedAsset",
            ErrorKind::DuplicateId => "DuplicateId",
            ErrorKind::TypeMismatch => "TypeMismatch",
            ErrorKind::InvalidValue => "InvalidValue",
            ErrorKind::CircularInclude => "CircularInclude",
            ErrorKind::IncludeError => "IncludeError",
        }
    }
}

impl PastelError {
    /// An error of the given kind with a message, no location and no hint.
    pub fn new(kind: ErrorKind, message: String) -> (e: PastelError)
        ensures
            e@ == err_view(kind, message@),
    {
        PastelError { kind, message, span: None, hint: None }
    }

    /// The same error, located at `span`.
    pub fn with_span(self, span: Span) -> (e: PastelError)
        ensures
            e@ == (ErrorView { span: Some(span), ..self@ }),
    {
        PastelError { span: Some(span), ..self }
    }

    /// The same error, with a hint on how to mend it.
    pub fn with_hint(self, hint: String) -> (e: PastelError)
        ensures
            e@ == (ErrorView { hint: Some(hint@), ..self@ }),
    {
        PastelError { hint: Some(hint), ..self }
    }

    /// A copy of the error.
    pub fn duplicate(&self) -> (e: PastelError)
        ensures
            e@ == self@,
    {
        let hint = match &self.hint {
            Some(h) => Some(copy_string(h)),
            None => None,
        };
        PastelError { kind: self.kind, message: copy_string(&self.message), span: self.span, hint }
    }

    /// The text shown to the user for the error.
    pub fn to_display_string(&self) -> (s: String)
        ensures
            s@ == error_display(self@),
    {
        let mut s = String::new();
        push_str(&mut s, "error[");
        push_str(&mut s, self.kind.name());
        push_str(&mut s, "]: ");
        push_str(&mut s, self.message.as_str());
        let ghost head = s@;
        match &self.span {
            Some(sp) => {
                push_str(&mut s, "\n  --> line ");
                push_nat(&mut s, sp.line as u64);
                push_char(&mut s, ':');
                push_nat(&mut s, sp.col as u64);
            },
            None => {},
        }
        let ghost spanned = s@;
        match &self.hint {
            Some(h) => {
                push_str(&mut s, "\n  = help: ");
                push_str(&mut s, h.as_str());
            },
            None => {},
        }
        proof {
            assert(head =~= "error["@ + error_kind_name(self.kind) + "]: "@ + self.message@);
            assert(s@ =~= error_display(self@));
        }
        s
    }
}

} // verus!
