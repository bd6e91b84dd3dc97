//! The error aggregator: the reportable collection of the line errors of
//! one failed validation, with structured records and a deterministic
//! multi-line rendering.

use vstd::prelude::*;
use vstd::string::StringExecFns;
use crate::kinds::ErrorKind;
use crate::kinds::default_message_spec;
use crate::kinds::kind_name_spec;
use crate::line_error::Context;
use crate::line_error::InternalError;
use crate::line_error::LineErrV;
use crate::line_error::LocItem;
use crate::line_error::LocItemV;
use crate::line_error::ValError;
use crate::line_error::ValLineError;
use crate::line_error::ctx_view;
use crate::line_error::loc_view;
use crate::text::dec_digits;
use crate::text::int_text;
use crate::text::join_text;
use crate::text::join_strings;
use crate::text::strings_view;
use crate::text::subst;
use crate::text::truncate_echo;
use crate::text::truncated_text;
use crate::text::u64_to_string;
use crate::value::Value;
use crate::value::repr_spec;
use crate::value::type_label_spec;

verus! {

/// The message before substitution: the override if one was set, else the
/// kind's default template.
pub open spec fn raw_message_spec(e: LineErrV) -> Seq<char> {
    match e.message {
        Some(m) => m,
        None => default_message_spec(e.kind),
    }
}

/// The resolved message: the raw message, with placeholders substituted
/// from the context when the context is non-empty.
pub open spec fn message_spec(e: LineErrV) -> Seq<char> {
    if e.context.len() == 0 {
        raw_message_spec(e)
    } else {
        subst(raw_message_spec(e), e.context)
    }
}

/// The text of one location step.
pub open spec fn loc_item_text(l: LocItemV) -> Seq<char> {
    match l {
        LocItemV::Key(s) => s,
        LocItemV::Index(i) => int_text(i),
    }
}

/// The text of a context: `name=value` pairs joined by commas.
pub open spec fn ctx_text(ctx: Seq<(Seq<char>, Seq<char>)>) -> Seq<char> {
    join_text(Seq::new(ctx.len(), |i: int| ctx[i].0 + "="@ + ctx[i].1), ", "@)
}

/// One line error's rendering: the location path on its own line when it is
/// non-empty, then the message, the kind, the context when non-empty, the
/// truncated echoed value, and the value's type.
pub open spec fn pretty_spec(e: LineErrV) -> Seq<char> {
    (if e.location.len() > 0 {
        join_text(Seq::new(e.location.len(), |i: int| loc_item_text(e.location[i])), " -> "@)
            + "\n"@
    } else {
        Seq::<char>::empty()
    }) + "  "@ + message_spec(e) + " [kind="@ + kind_name_spec(e.kind) + (if e.context.len() > 0 {
        ", context="@ + ctx_text(e.context)
    } else {
        Seq::<char>::empty()
    }) + ", input_value="@ + truncated_text(repr_spec(e.input)) + ", input_type="@
        + type_label_spec(e.input) + "]"@
}

/// The public form of one line error, carried by a `ValidationError`.
#[derive(Debug)]
pub struct PyLineError {
    pub kind: ErrorKind,
    pub location: Vec<LocItem>,
    pub message: Option<String>,
    pub input_value: Value,
    pub context: Context,
}

impl View for PyLineError {
    type V = LineErrV;

    open spec fn view(&self) -> LineErrV {
        LineErrV {
            kind: self.kind,
            location: loc_view(self.location@),
            message: match self.message {
                Some(m) => Some(m@),
                None => None,
            },
            input: self.input_value@,
            context: ctx_view(self.context),
        }
    }
}

/// One structured record of a line error, as `errors()` returns it: the
/// kind's identifier, the location, the resolved message, the echoed value,
/// and the context when it is non-empty.
#[derive(Debug)]
pub struct ErrorRecord {
    pub kind: String,
    pub location: Vec<LocItem>,
    pub message: String,
    pub input_value: Value,
    pub context: Option<Context>,
}

/// Whether `rec` is the structured record of the line error `e`.
pub open spec fn record_matches(rec: ErrorRecord, e: LineErrV) -> bool {
    &&& rec.kind@ == kind_name_spec(e.kind)
    &&& loc_view(rec.location@) == e.location
    &&& rec.message@ == message_spec(e)
    &&& rec.input_value@ == e.input
    &&& match rec.context {
        Some(c) => e.context.len() > 0 && ctx_view(c) == e.context,
        None => e.context.len() == 0,
    }
}

impl PyLineError {
    /// Takes over a fresh line error unchanged.
    pub fn new(raw_error: ValLineError) -> (r: Self)
        ensures
            r@ == raw_error@,
    {
        let r = PyLineError {
            kind: raw_error.kind,
            location: raw_error.location,
            message: raw_error.message,
            input_value: raw_error.input_value,
            context: raw_error.context,
        };
        proof {
            assert(r@ =~= raw_error@);
        }
        r
    }

    /// The stable identifier of this error's kind.
    pub fn kind(&self) -> (r: String)
        ensures
            r@ == kind_name_spec(self@.kind),
    {
        self.kind.kind_name()
    }

    /// The location path, root to leaf.
    pub fn location(&self) -> (r: Vec<LocItem>)
        ensures
            r@ == self.location@,
    {
        let mut out: Vec<LocItem> = Vec::new();
        let mut i: usize = 0;
        while i < self.location.len()
            invariant
                0 <= i <= self.location@.len(),
                out@ =~= self.location@.subrange(0, i as int),
            decreases self.location@.len() - i,
        {
            out.push(self.location[i].clone());
            i = i + 1;
        }
        proof {
            assert(self.location@.subrange(0, self.location@.len() as int) =~= self.location@);
        }
        out
    }

    /// The message before substitution.
    pub fn raw_message(&self) -> (r: String)
        ensures
            r@ == raw_message_spec(self@),
    {
        match &self.message {
            Some(m) => m.clone(),
            None => self.kind.default_message(),
        }
    }

    /// The resolved message.
    pub fn message(&self) -> (r: String)
        ensures
            r@ == message_spec(self@),
    {
        let raw = self.raw_message();
        if self.context.is_empty() {
            raw
        } else {
            self.context.render(raw.as_str())
        }
    }

    /// Renders this line error for the report.
    #[verifier::loop_isolation(false)]
    #[verifier::rlimit(60)]
    pub fn pretty(&self) -> (r: String)
        ensures
            r@ == pretty_spec(self@),
    {
        let mut out = String::new();
        if self.location.len() > 0 {
            let mut parts: Vec<String> = Vec::new();
            let mut i: usize = 0;
            while i < self.location.len()
                invariant
                    0 <= i <= self.location@.len(),
                    parts@.len() == i,
                    forall|j: int|
                        0 <= j < i ==> #[trigger] parts@[j]@ == loc_item_text(
                            loc_view(self.location@)[j],
                        ),
                decreases self.location@.len() - i,
            {
                let item = match &self.location[i] {
                    LocItem::Key(s) => s.clone(),
                    LocItem::Index(x) => u64_to_string(*x as u64),
                };
                parts.push(item);
                i = i + 1;
            }
            let joined = join_strings(&parts, " -> ");
            out.append(joined.as_str());
            out.append("\n");
            proof {
                assert(strings_view(parts@) =~= Seq::new(
                    self@.location.len(),
                    |i: int| loc_item_text(self@.location[i]),
                ));
            }
        }
        out.append("  ");
        let msg = self.message();
        out.append(msg.as_str());
        out.append(" [kind=");
        let kn = self.kind();
        out.append(kn.as_str());
        if !self.context.is_empty() {
            out.append(", context=");
            let mut cparts: Vec<String> = Vec::new();
            let mut i: usize = 0;
            while i < self.context.entries.len()
                invariant
                    0 <= i <= self.context.entries@.len(),
                    cparts@.len() == i,
                    forall|j: int|
                        0 <= j < i ==> #[trigger] cparts@[j]@ == ctx_view(self.context)[j].0
                            + "="@ + ctx_view(self.context)[j].1,
                decreases self.context.entries@.len() - i,
            {
                let mut part = self.context.entries[i].0.clone();
                part.append("=");
                part.append(self.context.entries[i].1.as_str());
                cparts.push(part);
                i = i + 1;
            }
            let cjoined = join_strings(&cparts, ", ");
            out.append(cjoined.as_str());
            proof {
                assert(strings_view(cparts@) =~= Seq::new(
                    self@.context.len(),
                    |i: int| self@.context[i].0 + "="@ + self@.context[i].1,
                ));
            }
        }
        out.append(", input_value=");
        let echoed = self.input_value.repr();
        let shown = truncate_echo(echoed.as_str());
        out.append(shown.as_str());
        out.append(", input_type=");
        let label = self.input_value.type_label();
        out.append(label.as_str());
        out.append("]");
        proof {
            assert(out@ =~= pretty_spec(self@));
        }
        out
    }

    /// The structured record of this line error.
    pub fn as_dict(&self) -> (r: ErrorRecord)
        ensures
            record_matches(r, self@),
    {
        let context = if self.context.is_empty() {
            None
        } else {
            Some(self.context.duplicate())
        };
        ErrorRecord {
            kind: self.kind(),
            location: self.location(),
            message: self.message(),
            input_value: crate::value::clone_value(&self.input_value),
            context,
        }
    }
}

/// The contents of a line-error vector.
pub open spec fn err_views(v: Seq<PyLineError>) -> Seq<LineErrV> {
    Seq::new(v.len(), |i: int| v[i]@)
}

/// The report's header line: the error count, the singular or plural noun,
/// and the title of what was validated.
pub open spec fn header_text(n: nat, title: Seq<char>) -> Seq<char> {
    dec_digits(n) + " validation error"@ + (if n == 1 {
        Seq::<char>::empty()
    } else {
        "s"@
    }) + " for "@ + title
}

/// The whole report: the header, then each line error's rendering, joined
/// by newlines in the order the line errors were supplied.
pub open spec fn render_spec(errs: Seq<LineErrV>, title: Seq<char>) -> Seq<char> {
    header_text(errs.len(), title) + "\n"@ + join_text(
        Seq::new(errs.len(), |i: int| pretty_spec(errs[i])),
        "\n"@,
    )
}

/// The reportable aggregate of the line errors of one failed validation.
/// It is built once, from a non-empty run of line errors, and never changes.
#[derive(Debug)]
pub struct ValidationError {
    pub line_errors: Vec<PyLineError>,
    pub title: String,
}

impl ValidationError {
    /// Builds the aggregate from the collected line errors and the title of
    /// the schema that was being validated.
    pub fn new(line_errors: Vec<PyLineError>, title: String) -> (r: Self)
        requires
            line_errors@.len() > 0,
        ensures
            r.line_errors@ == line_errors@,
            r.title@ == title@,
    {
        ValidationError { line_errors, title }
    }

    /// The title of what was validated.
    pub fn title(&self) -> (r: String)
        ensures
            r@ == self.title@,
    {
        self.title.clone()
    }

    /// How many line errors the report holds.
    pub fn error_count(&self) -> (r: usize)
        ensures
            r == self.line_errors@.len(),
    {
        self.line_errors.len()
    }

    /// The structured records, one per line error, in the order the line
    /// errors were supplied: no reordering ever happens.
    pub fn errors(&self) -> (r: Vec<ErrorRecord>)
        ensures
            r@.len() == self.line_errors@.len(),
            forall|j: int|
                0 <= j < r@.len() ==> #[trigger] record_matches(r@[j], self.line_errors@[j]@),
    {
        let mut out: Vec<ErrorRecord> = Vec::new();
        let mut i: usize = 0;
        while i < self.line_errors.len()
            invariant
                0 <= i <= self.line_errors@.len(),
                out@.len() == i,
                forall|j: int|
                    0 <= j < i ==> #[trigger] record_matches(out@[j], self.line_errors@[j]@),
            decreases self.line_errors@.len() - i,
        {
            out.push(self.line_errors[i].as_dict());
            i = i + 1;
        }
        out
    }

    /// Renders the whole report.
    #[verifier::loop_isolation(false)]
    pub fn render(&self) -> (r: String)
        ensures
            r@ == render_spec(err_views(self.line_errors@), self.title@),
    {
        let count = self.line_errors.len();
        let mut out = u64_to_string(count as u64);
        out.append(" validation error");
        if count != 1 {
            out.append("s");
        }
        out.append(" for ");
        out.append(self.title.as_str());
        out.append("\n");
        let mut parts: Vec<String> = Vec::new();
        let mut i: usize = 0;
        while i < self.line_errors.len()
            invariant
                0 <= i <= self.line_errors@.len(),
                parts@.len() == i,
                forall|j: int|
                    0 <= j < i ==> #[trigger] parts@[j]@ == pretty_spec(self.line_errors@[j]@),
            decreases self.line_errors@.len() - i,
        {
            let line = self.line_errors[i].pretty();
            parts.push(line);
            i = i + 1;
        }
        let joined = join_strings(&parts, "\n");
        out.append(joined.as_str());
        proof {
            assert(strings_view(parts@) =~= Seq::new(
                err_views(self.line_errors@).len(),
                |i: int| pretty_spec(err_views(self.line_errors@)[i]),
            ));
            assert(out@ =~= render_spec(err_views(self.line_errors@), self.title@));
        }
        out
    }
}

/// Splits a failed validation's outcome: line errors become one aggregate
/// named after the validated schema, while an internal error propagates
/// unchanged, bypassing the aggregator.
#[verifier::loop_isolation(false)]
pub fn as_validation_err(model_name: &str, error: ValError) -> (r: Result<
    ValidationError,
    InternalError,
>)
    requires
        error matches ValError::LineErrors(v) ==> v@.len() > 0,
    ensures
        match error {
            ValError::LineErrors(v) => r matches Ok(ve) && ve.title@ == model_name@
                && ve.line_errors@.len() == v@.len() && forall|j: int|
                0 <= j < v@.len() ==> #[trigger] ve.line_errors@[j]@ == v@[j]@,
            ValError::InternalErr(ie) => r matches Err(o) && o == ie,
        },
{
    match error {
        ValError::LineErrors(raw_errors) => {
            let ghost orig = raw_errors@;
            let mut raw_errors = raw_errors;
            let mut lines: Vec<PyLineError> = Vec::new();
            while raw_errors.len() > 0
                invariant
                    lines@.len() + raw_errors@.len() == orig.len(),
                    raw_errors@ =~= orig.subrange(lines@.len() as int, orig.len() as int),
                    forall|j: int|
                        0 <= j < lines@.len() ==> #[trigger] lines@[j]@ == orig[j]@,
                decreases raw_errors@.len(),
            {
                let ghost before = raw_errors@;
                let e = raw_errors.remove(0);
                proof {
                    assert(e == orig[lines@.len() as int]);
                    assert(raw_errors@ =~= orig.subrange(lines@.len() as int + 1, orig.len() as int));
                }
                lines.push(PyLineError::new(e));
            }
            Ok(ValidationError::new(lines, String::from_str(model_name)))
        },
        ValError::InternalErr(err) => Err(err),
    }
}

/// The header is singular for one line error and plural otherwise: a report
/// over one line error opens with `1 validation error for <title>`, and one
/// over two opens with `2 validation errors for <title>`.
pub proof fn lemma_render_header(n: nat, title: Seq<char>)
    ensures
        n == 1 ==> header_text(n, title) == "1 validation error for "@ + title,
        n == 2 ==> header_text(n, title) == "2 validation errors for "@ + title,
        n != 1 ==> header_text(n, title) == dec_digits(n) + " validation errors for "@ + title,
{
    reveal_strlit("1");
    reveal_strlit("2");
    reveal_strlit("s");
    reveal_strlit(" for ");
    reveal_strlit(" validation error");
    reveal_strlit(" validation errors for ");
    reveal_strlit("1 validation error for ");
    reveal_strlit("2 validation errors for ");
    if n == 1 {
        assert(dec_digits(1) =~= seq!['1']);
        assert(header_text(n, title) =~= "1 validation error for "@ + title);
    }
    if n == 2 {
        assert(dec_digits(2) =~= seq!['2']);
        assert(header_text(n, title) =~= "2 validation errors for "@ + title);
    }
    if n != 1 {
        assert(header_text(n, title) =~= dec_digits(n) + " validation errors for "@ + title);
    }
}

} // verus!
