use vstd::prelude::*;
use vstd::string::*;
use crate::errors::{
    kind_message, kind_name, line_errors_view, loc_text, locs_view, push_location, ErrorKind,
    FatalError, LineErrorView, LocItem, LocSeg, ValError, ValLineError,
};
use crate::text::{decimal, push_decimal};

verus! {

/// Longest input text that is shown whole in a rendered line.
pub const MAX_SHOWN: usize = 50;

/// An input text as shown in a rendered line: a text longer than 50 characters is cut to
/// its first 25 and its last 24 characters, joined by `...`.
pub open spec fn truncated(v: Seq<char>) -> Seq<char> {
    if v.len() > 50 {
        v.subrange(0, 25) + "..."@ + v.subrange(v.len() - 24, v.len() as int)
    } else {
        v
    }
}

/// However long an input text, its shown form is at most 52 characters; one longer than
/// 50 characters keeps exactly its first 25 and last 24 characters around `...`.
pub proof fn lemma_truncated_bounded(v: Seq<char>)
    ensures
        truncated(v).len() <= 52,
        v.len() <= 50 ==> truncated(v) == v,
        v.len() > 50 ==> truncated(v).len() == 52 && truncated(v).subrange(0, 25) == v.subrange(0, 25)
            && truncated(v).subrange(28, 52) == v.subrange(v.len() - 24, v.len() as int),
{
    if v.len() > 50 {
        reveal_strlit("...");
        let t = truncated(v);
        assert(t.subrange(0, 25) =~= v.subrange(0, 25));
        assert(t.subrange(28, 52) =~= v.subrange(v.len() - 24, v.len() as int));
    }
}

/// The rendered line of one error: location, message, kind and input.
pub open spec fn line_text(e: LineErrorView) -> Seq<char> {
    loc_text(e.location) + " "@ + kind_message(e.kind) + " [kind="@ + kind_name(e.kind)
        + ", input_value="@ + truncated(e.input_value) + "]"@
}

/// The rendered lines of several errors, one per line.
pub open spec fn lines_text(s: Seq<LineErrorView>) -> Seq<char>
    decreases s.len(),
{
    if s.len() == 0 {
        Seq::empty()
    } else if s.len() == 1 {
        line_text(s[0])
    } else {
        lines_text(s.drop_last()) + "\n"@ + line_text(s.last())
    }
}

/// The full rendering of an aggregate: a header line with the count and the title,
/// then one line per error.
pub open spec fn display_text(title: Seq<char>, s: Seq<LineErrorView>) -> Seq<char> {
    decimal(s.len()) + " validation error"@ + (if s.len() == 1 { Seq::empty() } else { "s"@ })
        + " for "@ + title + "\n"@ + lines_text(s)
}

/// Appends the shown form of `v` to `out`.
pub fn push_truncated(out: &mut String, v: &str)
    ensures
        final(out)@ == old(out)@ + truncated(v@),
{
    let n = v.unicode_len();
    if n > MAX_SHOWN {
        out.append(v.substring_char(0, 25));
        out.append("...");
        out.append(v.substring_char(n - 24, n));
    } else {
        out.append(v);
    }
}

/// A line error as held by a `ValidationError`.
pub struct PyLineError {
    kind: ErrorKind,
    location: Vec<LocItem>,
    input_value: String,
}

impl View for PyLineError {
    type V = LineErrorView;

    closed spec fn view(&self) -> LineErrorView {
        LineErrorView {
            kind: self.kind,
            location: locs_view(self.location@),
            input_value: self.input_value@,
        }
    }
}

pub open spec fn py_line_errors_view(v: Seq<PyLineError>) -> Seq<LineErrorView> {
    v.map_values(|e: PyLineError| e@)
}

/// The structured export of one line error.
pub struct ErrorRecord {
    pub kind: ErrorKind,
    pub loc: Vec<LocItem>,
    pub message: String,
    pub input_value: String,
}

/// The mathematical form of an exported record.
pub struct RecordView {
    pub kind: ErrorKind,
    pub loc: Seq<LocSeg>,
    pub message: Seq<char>,
    pub input_value: Seq<char>,
}

impl View for ErrorRecord {
    type V = RecordView;

    open spec fn view(&self) -> RecordView {
        RecordView {
            kind: self.kind,
            loc: locs_view(self.loc@),
            message: self.message@,
            input_value: self.input_value@,
        }
    }
}

pub open spec fn records_view(v: Seq<ErrorRecord>) -> Seq<RecordView> {
    v.map_values(|r: ErrorRecord| r@)
}

/// The record exported for a line error.
pub open spec fn record_of(e: LineErrorView) -> RecordView {
    RecordView {
        kind: e.kind,
        loc: e.location,
        message: kind_message(e.kind),
        input_value: e.input_value,
    }
}

/// The line error that a record describes.
pub open spec fn line_of_record(r: RecordView) -> LineErrorView {
    LineErrorView { kind: r.kind, location: r.loc, input_value: r.input_value }
}

/// A copy of a location.
pub fn copy_location(loc: &Vec<LocItem>) -> (r: Vec<LocItem>)
    ensures
        locs_view(r@) == locs_view(loc@),
{
    let mut r: Vec<LocItem> = Vec::new();
    let mut i: usize = 0;
    while i < loc.len()
        invariant
            i <= loc@.len(),
            r@.len() == i,
            forall|j: int| 0 <= j < i ==> #[trigger] r@[j]@ == loc@[j]@,
        decreases loc@.len() - i,
    {
        r.push(loc[i].duplicate());
        i = i + 1;
    }
    assert(locs_view(r@) =~= locs_view(loc@));
    r
}

impl PyLineError {
    pub fn from_val_line_error(e: ValLineError) -> (r: PyLineError)
        ensures
            r@ == e@,
    {
        PyLineError { kind: e.kind, location: e.location, input_value: e.input_value }
    }

    pub fn into_val_line_error(self) -> (r: ValLineError)
        ensures
            r@ == self@,
    {
        ValLineError { kind: self.kind, location: self.location, input_value: self.input_value }
    }

    /// The structured export of this line error.
    pub fn as_dict(&self) -> (r: ErrorRecord)
        ensures
            r@ == record_of(self@),
    {
        ErrorRecord {
            kind: self.kind,
            loc: copy_location(&self.location),
            message: String::from_str(self.kind.render()),
            input_value: self.input_value.clone(),
        }
    }

    /// The line error that an exported record describes.
    pub fn from_record(r: ErrorRecord) -> (e: PyLineError)
        ensures
            e@ == line_of_record(r@),
    {
        PyLineError { kind: r.kind, location: r.loc, input_value: r.input_value }
    }

    /// The rendered line of this error.
    pub fn pretty(&self) -> (r: String)
        ensures
            r@ == line_text(self@),
    {
        let mut out = String::new();
        push_location(&mut out, &self.location);
        out.append(" ");
        out.append(self.kind.render());
        out.append(" [kind=");
        out.append(self.kind.name());
        out.append(", input_value=");
        push_truncated(&mut out, self.input_value.as_str());
        out.append("]");
        assert(out@ =~= line_text(self@));
        out
    }
}

/// The rendered lines of `line_errors`, joined by newlines.
pub fn pretty_py_line_errors(line_errors: &Vec<PyLineError>) -> (r: String)
    ensures
        r@ == lines_text(py_line_errors_view(line_errors@)),
{
    let ghost s = py_line_errors_view(line_errors@);
    let mut out = String::new();
    let mut i: usize = 0;
    while i < line_errors.len()
        invariant
            i <= line_errors@.len(),
            s == py_line_errors_view(line_errors@),
            out@ == lines_text(s.subrange(0, i as int)),
        decreases line_errors@.len() - i,
    {
        if i > 0 {
            out.append("\n");
        }
        let line = line_errors[i].pretty();
        out.append(line.as_str());
        proof {
            assert(s.subrange(0, i + 1).drop_last() =~= s.subrange(0, i as int));
            assert(s.subrange(0, i + 1).last() == s[i as int]);
            if i == 0 {
                assert(s.subrange(0, 0) =~= Seq::<LineErrorView>::empty());
                assert(out@ =~= line_text(s[0]));
            }
        }
        i = i + 1;
    }
    assert(s.subrange(0, line_errors@.len() as int) =~= s);
    out
}

/// The mathematical form of an aggregate.
pub struct ValidationErrorView {
    pub line_errors: Seq<LineErrorView>,
    pub title: Seq<char>,
}

/// All line errors of one validation call, with the title of what was validated.
pub struct ValidationError {
    line_errors: Vec<PyLineError>,
    title: String,
}

impl View for ValidationError {
    type V = ValidationErrorView;

    closed spec fn view(&self) -> ValidationErrorView {
        ValidationErrorView {
            line_errors: py_line_errors_view(self.line_errors@),
            title: self.title@,
        }
    }
}

/// What a failed top-level validation call raises: one aggregate of line errors, or the
/// fatal error as it is.
pub enum RaisedError {
    Validation(ValidationError),
    Fatal(FatalError),
}

/// Converts walk errors into the errors an aggregate holds.
pub fn to_py_line_errors(errors: Vec<ValLineError>) -> (r: Vec<PyLineError>)
    ensures
        py_line_errors_view(r@) == line_errors_view(errors@),
{
    let mut errors = errors;
    let ghost orig = errors@;
    let mut out: Vec<PyLineError> = Vec::new();
    while errors.len() > 0
        invariant
            out@.len() + errors@.len() == orig.len(),
            errors@ == orig.subrange(out@.len() as int, orig.len() as int),
            forall|j: int| 0 <= j < out@.len() ==> #[trigger] out@[j]@ == orig[j]@,
        decreases errors@.len(),
    {
        let e = errors.remove(0);
        out.push(PyLineError::from_val_line_error(e));
    }
    assert(py_line_errors_view(out@) =~= line_errors_view(orig));
    out
}

impl ValidationError {
    /// An aggregate holds at least one line error.
    #[verifier::type_invariant]
    spec fn inv(&self) -> bool {
        self.line_errors@.len() > 0
    }

    /// An aggregate of at least one line error.
    pub fn new(line_errors: Vec<PyLineError>, title: String) -> (r: ValidationError)
        requires
            line_errors@.len() > 0,
        ensures
            r@.line_errors == py_line_errors_view(line_errors@),
            r@.title == title@,
    {
        ValidationError { line_errors, title }
    }

    /// Raises the outcome of a failed validation call: line errors, of which there is at
    /// least one, are bundled under `title`; a fatal error is passed on unwrapped.
    pub fn from_val_error(title: String, error: ValError) -> (r: RaisedError)
        requires
            error matches ValError::LineErrors(v) ==> v@.len() > 0,
        ensures
            match error {
                ValError::LineErrors(v) => r matches RaisedError::Validation(ve)
                    && ve@.line_errors == line_errors_view(v@) && ve@.title == title@,
                ValError::InternalErr(f) => r == RaisedError::Fatal(f),
            },
    {
        match error {
            ValError::LineErrors(raw_errors) => {
                let ghost raw = raw_errors@;
                let line_errors = to_py_line_errors(raw_errors);
                assert(line_errors@.len() > 0) by {
                    assert(py_line_errors_view(line_errors@).len() == line_errors@.len());
                    assert(line_errors_view(raw).len() == raw.len());
                }
                RaisedError::Validation(ValidationError { line_errors, title })
            },
            ValError::InternalErr(err) => RaisedError::Fatal(err),
        }
    }

    /// Turns an aggregate back into the line errors of a walk.
    pub fn into_val_error(self) -> (r: ValError)
        ensures
            r matches ValError::LineErrors(v) && line_errors_view(v@) == self@.line_errors
                && v@.len() > 0,
    {
        proof {
            use_type_invariant(&self);
        }
        let mut errors = self.line_errors;
        let ghost orig = errors@;
        let mut out: Vec<ValLineError> = Vec::new();
        while errors.len() > 0
            invariant
                out@.len() + errors@.len() == orig.len(),
                errors@ == orig.subrange(out@.len() as int, orig.len() as int),
                forall|j: int| 0 <= j < out@.len() ==> #[trigger] out@[j]@ == orig[j]@,
            decreases errors@.len(),
        {
            let e = errors.remove(0);
            out.push(e.into_val_line_error());
        }
        assert(line_errors_view(out@) =~= py_line_errors_view(orig));
        ValError::LineErrors(out)
    }

    pub fn title(&self) -> (r: &String)
        ensures
            r@ == self@.title,
    {
        &self.title
    }

    pub fn error_count(&self) -> (r: usize)
        ensures
            r == self@.line_errors.len(),
            r > 0,
    {
        proof {
            use_type_invariant(self);
        }
        self.line_errors.len()
    }

    /// The structured export: one record per line error, in order.
    pub fn errors(&self) -> (r: Vec<ErrorRecord>)
        ensures
            records_view(r@) == self@.line_errors.map_values(|e: LineErrorView| record_of(e)),
    {
        let mut r: Vec<ErrorRecord> = Vec::new();
        let mut i: usize = 0;
        while i < self.line_errors.len()
            invariant
                i <= self.line_errors@.len(),
                r@.len() == i,
                forall|j: int| 0 <= j < i ==> #[trigger] r@[j]@ == record_of(self.line_errors@[j]@),
            decreases self.line_errors@.len() - i,
        {
            r.push(self.line_errors[i].as_dict());
            i = i + 1;
        }
        assert(records_view(r@) =~= self@.line_errors.map_values(|e: LineErrorView| record_of(e)));
        r
    }

    /// Builds an aggregate from exported records, of which there is at least one.
    pub fn from_records(records: Vec<ErrorRecord>, title: String) -> (r: ValidationError)
        requires
            records@.len() > 0,
        ensures
            r@.line_errors == records_view(records@).map_values(|x: RecordView| line_of_record(x)),
            r@.title == title@,
    {
        let mut records = records;
        let ghost orig = records@;
        let mut out: Vec<PyLineError> = Vec::new();
        while records.len() > 0
            invariant
                out@.len() + records@.len() == orig.len(),
                records@ == orig.subrange(out@.len() as int, orig.len() as int),
                forall|j: int| 0 <= j < out@.len() ==> #[trigger] out@[j]@ == line_of_record(orig[j]@),
            decreases records@.len(),
        {
            let e = records.remove(0);
            out.push(PyLineError::from_record(e));
        }
        let r = ValidationError { line_errors: out, title };
        assert(r@.line_errors =~= records_view(orig).map_values(|x: RecordView| line_of_record(x)));
        r
    }

    /// The full rendering: a header with the count and the title, then one line per error.
    pub fn display(&self) -> (r: String)
        ensures
            r@ == display_text(self@.title, self@.line_errors),
    {
        let count = self.line_errors.len();
        let mut out = String::new();
        push_decimal(&mut out, count as u64);
        out.append(" validation error");
        if count != 1 {
            out.append("s");
        }
        out.append(" for ");
        out.append(self.title.as_str());
        out.append("\n");
        let lines = pretty_py_line_errors(&self.line_errors);
        out.append(lines.as_str());
        assert(out@ =~= display_text(self@.title, self@.line_errors));
        out
    }
}

/// Exporting an aggregate's line errors as records and reading the records back gives the
/// same line errors, so the rebuilt aggregate has the same count and renders the same.
pub proof fn lemma_export_round_trip(ve: ValidationErrorView)
    ensures
        ve.line_errors.map_values(|e: LineErrorView| record_of(e)).map_values(
            |x: RecordView| line_of_record(x),
        ) == ve.line_errors,
        display_text(
            ve.title,
            ve.line_errors.map_values(|e: LineErrorView| record_of(e)).map_values(
                |x: RecordView| line_of_record(x),
            ),
        ) == display_text(ve.title, ve.line_errors),
{
    assert(ve.line_errors.map_values(|e: LineErrorView| record_of(e)).map_values(
        |x: RecordView| line_of_record(x),
    ) =~= ve.line_errors);
}

} // verus!
