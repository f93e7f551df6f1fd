//! Staging errors.
//!
//! Translation gathers every independent failure of one run into an
//! [`Errors`] aggregate instead of stopping at the first; execution reports a
//! single [`StagingError`].

use vstd::prelude::*;

verus! {

/// Classifies a failure for programmatic processing.
#[derive(Debug, Copy, Clone, PartialEq, Eq, Structural)]
pub enum ErrorKind {
    /// Error in the configuration.
    InvalidConfiguration,
    /// Preparing to stage failed.
    HarvestingFailed,
    /// Staging failed.
    StagingFailed,
}

/// Mathematical model of a [`StagingError`].
pub struct ErrorSpec {
    /// The kind of failure.
    pub kind: ErrorKind,
    /// Human-readable context for the failure, if any.
    pub context: Option<Seq<char>>,
    /// Text of an underlying failure, if any.
    pub cause: Option<Seq<char>>,
}

/// The model of an error of `kind` with no context and no cause.
pub open spec fn bare_error(kind: ErrorKind) -> ErrorSpec {
    ErrorSpec { kind, context: None, cause: None }
}

/// The model of an error of `kind` carrying `context`.
pub open spec fn context_error(kind: ErrorKind, context: Seq<char>) -> ErrorSpec {
    ErrorSpec { kind, context: Some(context), cause: None }
}

/// The model of an error of `kind` carrying an underlying `cause` text.
pub open spec fn cause_error(kind: ErrorKind, cause: Seq<char>) -> ErrorSpec {
    ErrorSpec { kind, context: None, cause: Some(cause) }
}

/// One-line description of a kind.
pub open spec fn spec_kind_message(kind: ErrorKind) -> Seq<char> {
    match kind {
        ErrorKind::InvalidConfiguration => "Error in the configuration."@,
        ErrorKind::HarvestingFailed => "Preparing to stage failed."@,
        ErrorKind::StagingFailed => "Staging failed."@,
    }
}

/// Multi-line description of a failure: the kind, then the context line if
/// present, then the cause line if present.
pub open spec fn spec_error_message(e: ErrorSpec) -> Seq<char> {
    "Staging failed: "@ + spec_kind_message(e.kind) + "\n"@ + (match e.context {
        Some(c) => c + "\n"@,
        None => Seq::<char>::empty(),
    }) + (match e.cause {
        Some(c) => "Cause: "@ + c + "\n"@,
        None => Seq::<char>::empty(),
    })
}

/// Single staging failure.
#[derive(Debug, Clone)]
pub struct StagingError {
    kind: ErrorKind,
    context: Option<String>,
    cause: Option<String>,
}

impl View for StagingError {
    type V = ErrorSpec;

    closed spec fn view(&self) -> ErrorSpec {
        ErrorSpec {
            kind: self.kind,
            context: self.context.deep_view(),
            cause: self.cause.deep_view(),
        }
    }
}

impl DeepView for StagingError {
    type V = ErrorSpec;

    closed spec fn deep_view(&self) -> ErrorSpec {
        self.view()
    }
}

impl ErrorKind {
    /// Start an error of this kind, with no context and no cause.
    pub fn error(self) -> (r: StagingError)
        ensures
            r@ == bare_error(self),
    {
        StagingError::new(self)
    }

    /// One-line description of this kind.
    pub fn message(&self) -> (r: String)
        ensures
            r@ == spec_kind_message(*self),
    {
        match *self {
            ErrorKind::InvalidConfiguration => String::from_str("Error in the configuration."),
            ErrorKind::HarvestingFailed => String::from_str("Preparing to stage failed."),
            ErrorKind::StagingFailed => String::from_str("Staging failed."),
        }
    }
}

impl StagingError {
    /// An error of `kind` with no context and no cause.
    pub fn new(kind: ErrorKind) -> (r: Self)
        ensures
            r@ == bare_error(kind),
    {
        Self { kind, context: None, cause: None }
    }

    /// Attach human-readable context.
    pub fn set_context(self, context: String) -> (r: Self)
        ensures
            r@ == (ErrorSpec { context: Some(context@), ..self@ }),
    {
        Self { kind: self.kind, context: Some(context), cause: self.cause }
    }

    /// Attach the text of an underlying failure.
    pub fn set_cause(self, cause: String) -> (r: Self)
        ensures
            r@ == (ErrorSpec { cause: Some(cause@), ..self@ }),
    {
        Self { kind: self.kind, context: self.context, cause: Some(cause) }
    }

    /// The kind of this failure.
    pub fn kind(&self) -> (r: ErrorKind)
        ensures
            r == self@.kind,
    {
        self.kind
    }

    /// Multi-line description of this failure.
    pub fn message(&self) -> (r: String)
        ensures
            r@ == spec_error_message(self@),
    {
        let mut out = String::from_str("Staging failed: ");
        let kind_msg = self.kind.message();
        out.append(kind_msg.as_str());
        out.append("\n");
        match &self.context {
            Some(c) => {
                out.append(c.as_str());
                out.append("\n");
            },
            None => {},
        }
        match &self.cause {
            Some(c) => {
                out.append("Cause: ");
                out.append(c.as_str());
                out.append("\n");
            },
            None => {},
        }
        proof {
            assert(out@ =~= spec_error_message(self@));
        }
        out
    }
}

/// Aggregation of errors from one staging run.
#[derive(Debug, Clone)]
pub struct Errors {
    errors: Vec<StagingError>,
}

impl View for Errors {
    type V = Seq<ErrorSpec>;

    closed spec fn view(&self) -> Seq<ErrorSpec> {
        self.errors.deep_view()
    }
}

impl Errors {
    /// An empty aggregate.
    pub fn new() -> (r: Self)
        ensures
            r@ == Seq::<ErrorSpec>::empty(),
    {
        let r = Self { errors: Vec::new() };
        proof {
            assert(r@ =~= Seq::<ErrorSpec>::empty());
        }
        r
    }

    /// An aggregate holding exactly `error`.
    pub fn with_error(error: StagingError) -> (r: Self)
        ensures
            r@ =~= seq![error@],
    {
        let ghost e = error@;
        let mut errors = Vec::new();
        errors.push(error);
        let r = Self { errors };
        proof {
            assert(r@ =~= seq![e]);
        }
        r
    }

    /// Record one more failure.
    pub fn push(&mut self, error: StagingError)
        ensures
            final(self)@ =~= old(self)@.push(error@),
    {
        self.errors.push(error);
        proof {
            assert(self@ =~= old(self)@.push(error@));
        }
    }

    /// Record every failure of `other`, in order, after those already held.
    pub fn extend(&mut self, other: Errors)
        ensures
            final(self)@ =~= old(self)@ + other@,
    {
        let mut rest = other.errors;
        self.errors.append(&mut rest);
        proof {
            assert(self@ =~= old(self)@ + other@);
        }
    }

    /// Whether no failure was recorded.
    pub fn is_empty(&self) -> (r: bool)
        ensures
            r == (self@.len() == 0),
    {
        self.errors.len() == 0
    }

    /// How many failures were recorded.
    pub fn len(&self) -> (r: usize)
        ensures
            r == self@.len(),
    {
        self.errors.len()
    }

    /// `value` if no failure was recorded, the aggregate otherwise.
    pub fn ok<T>(self, value: T) -> (r: Result<T, Errors>)
        ensures
            match r {
                Ok(v) => self@.len() == 0 && v == value,
                Err(e) => self@.len() > 0 && e@ == self@,
            },
    {
        if self.is_empty() {
            Ok(value)
        } else {
            Err(self)
        }
    }

    /// The recorded failures, in order.
    pub fn into_vec(self) -> (r: Vec<StagingError>)
        ensures
            r.deep_view() == self@,
    {
        self.errors
    }

    /// Multi-line description of every recorded failure, in order.
    pub fn message(&self) -> (r: String)
        ensures
            r@ == spec_errors_message(self@),
    {
        let mut out = String::new();
        let mut i: usize = 0;
        while i < self.errors.len()
            invariant
                i <= self.errors.len(),
                out@ =~= spec_errors_message(self@.take(i as int)),
            decreases self.errors.len() - i,
        {
            let m = self.errors[i].message();
            out.append(m.as_str());
            i = i + 1;
            proof {
                assert(self@.take(i as int).drop_last() =~= self@.take(i as int - 1));
                assert(out@ =~= spec_errors_message(self@.take(i as int)));
            }
        }
        proof {
            assert(self@.take(self@.len() as int) =~= self@);
        }
        out
    }
}

/// The concatenation of the descriptions of `errors`, in order.
pub open spec fn spec_errors_message(errors: Seq<ErrorSpec>) -> Seq<char>
    decreases errors.len(),
{
    if errors.len() == 0 {
        Seq::<char>::empty()
    } else {
        spec_errors_message(errors.drop_last()) + spec_error_message(errors.last())
    }
}

} // verus!
