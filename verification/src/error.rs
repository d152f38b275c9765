//! The error reporter: a located parse failure as a value, and its
//! rendering as an annotated source snippet.

use vstd::prelude::*;
use vstd::string::StringExecFns;
use vstd::utf8::is_ascii_chars;
use crate::model::Fail;
use crate::model::ParseErrorV;
use crate::model::Reason;
use crate::model::error_of;
use crate::model::reason_text;

verus! {

/// What `annotate_snippets` renders for an error titled `message` over
/// `input` with the region `[start, end)` underlined. The result depends on
/// these arguments alone.
pub uninterp spec fn rendered_note(
    message: Seq<char>,
    input: Seq<char>,
    start: int,
    end: int,
) -> Seq<char>;

/// The executable failure record handed around by the parser: where the
/// grammar stopped and which rule stopped it.
#[derive(Debug, Clone, Copy, PartialEq, Eq)]
pub struct Failure {
    pub pos: usize,
    pub why: Reason,
}

impl View for Failure {
    type V = Fail;

    open spec fn view(&self) -> Fail {
        Fail { pos: self.pos as int, why: self.why }
    }
}

/// One failed parse: a message, a character-offset span into the input,
/// and the complete original input.
#[derive(Debug, PartialEq, Eq)]
pub struct ParseError {
    message: String,
    span_start: usize,
    span_end: usize,
    input: String,
}

impl View for ParseError {
    type V = ParseErrorV;

    closed spec fn view(&self) -> ParseErrorV {
        ParseErrorV {
            message: self.message@,
            start: self.span_start as int,
            end: self.span_end as int,
            input: self.input@,
        }
    }
}

/// The marker line of the plain rendering: `start` blanks followed by
/// `carets` carets.
pub open spec fn marker_line(start: int, carets: int) -> Seq<char> {
    Seq::new(start as nat, |i: int| ' ') + Seq::new(carets as nat, |i: int| '^')
}

/// What `ParseError::render` returns: the snippet rendering for inputs the
/// snippet renderer accepts, else a plain three-line diagnostic with a
/// marker under the failing region.
pub open spec fn spec_render_error(e: ParseErrorV) -> Seq<char> {
    if is_ascii_chars(e.input) && 0 <= e.start <= e.end <= e.input.len() {
        rendered_note(e.message, e.input, e.start, e.end)
    } else {
        e.message + "\n"@ + e.input + "\n"@ + marker_line(
            e.start,
            if e.end > e.start {
                e.end - e.start
            } else {
                1
            },
        )
    }
}

/// Relies on `annotate_snippets::Renderer::plain().render`: rendering an
/// error group is a pure function of the title, the source and the span.
/// For ASCII input a character offset is a byte offset, which is what the
/// renderer indexes the source by.
#[verifier::external_body]
fn render_note(message: &str, input: &str, start: usize, end: usize) -> (r: String)
    requires
        is_ascii_chars(input@),
        start <= end <= input@.len(),
    ensures
        r@ == rendered_note(message@, input@, start as int, end as int),
{
    let report = [annotate_snippets::Group::with_title(
        annotate_snippets::Level::ERROR.primary_title(message),
    ).element(
        annotate_snippets::Snippet::source(input).fold(true).annotation(
            annotate_snippets::AnnotationKind::Primary.span(start..end),
        ),
    )];
    annotate_snippets::Renderer::plain().render(&report)
}

/// `start` blanks followed by `carets` carets, as a string.
fn build_marker(start: usize, carets: usize) -> (r: String)
    ensures
        r@ == marker_line(start as int, carets as int),
{
    let mut out = String::new();
    let mut i: usize = 0;
    proof {
        reveal_strlit(" ");
        reveal_strlit("^");
        assert(out@ =~= Seq::new(0nat, |k: int| ' '));
    }
    while i < start
        invariant
            i <= start,
            out@ =~= Seq::new(i as nat, |k: int| ' '),
        decreases start - i,
    {
        out.append(" ");
        i = i + 1;
        proof {
            reveal_strlit(" ");
            assert(out@ =~= Seq::new(i as nat, |k: int| ' '));
        }
    }
    let mut j: usize = 0;
    proof {
        assert(out@ =~= Seq::new(start as nat, |k: int| ' ') + Seq::new(
            0nat,
            |k: int| '^',
        ));
    }
    while j < carets
        invariant
            j <= carets,
            out@ =~= Seq::new(start as nat, |k: int| ' ') + Seq::new(j as nat, |k: int| '^'),
        decreases carets - j,
    {
        out.append("^");
        j = j + 1;
        proof {
            reveal_strlit("^");
            assert(out@ =~= Seq::new(start as nat, |k: int| ' ') + Seq::new(
                j as nat,
                |k: int| '^',
            ));
        }
    }
    out
}

/// The message owed for each failure reason.
fn reason_message(r: Reason) -> (m: String)
    ensures
        m@ == reason_text(r),
{
    match r {
        Reason::MissingName => "expected at least one name character".to_owned(),
        Reason::MissingEmailOpen => "expected `<`".to_owned(),
        Reason::MissingEmailBody => "expected at least one email character".to_owned(),
        Reason::MissingEmailClose => "expected `>`".to_owned(),
        Reason::Trailing => "expected end of input".to_owned(),
    }
}

impl ParseError {
    /// Builds the error owed for failure `f` while parsing `text`.
    pub(crate) fn from_failure(text: &str, f: Failure) -> (e: ParseError)
        requires
            f.pos <= text@.len(),
        ensures
            e@ == error_of(text@, f@),
    {
        let n = text.unicode_len();
        let end: usize = if f.pos < n {
            f.pos + 1
        } else {
            f.pos
        };
        ParseError {
            message: reason_message(f.why),
            span_start: f.pos,
            span_end: end,
            input: text.to_owned(),
        }
    }

    pub fn message(&self) -> (m: &str)
        ensures
            m@ == self@.message,
    {
        self.message.as_str()
    }

    /// The failing region, as a start/end character-offset pair.
    pub fn span(&self) -> (sp: (usize, usize))
        ensures
            sp.0 == self@.start,
            sp.1 == self@.end,
    {
        (self.span_start, self.span_end)
    }

    pub fn input(&self) -> (i: &str)
        ensures
            i@ == self@.input,
    {
        self.input.as_str()
    }

    /// Renders the error for display: a title line with the message and the
    /// offending input with the span marked.
    pub fn render(&self) -> (r: String)
        ensures
            r@ == spec_render_error(self@),
    {
        let n = self.input.as_str().unicode_len();
        if self.input.as_str().is_ascii() && self.span_start <= self.span_end && self.span_end
            <= n {
            render_note(self.message.as_str(), self.input.as_str(), self.span_start, self.span_end)
        } else {
            let carets: usize = if self.span_end > self.span_start {
                self.span_end - self.span_start
            } else {
                1
            };
            let mut out = self.message.clone();
            out.append("\n");
            out.append(self.input.as_str());
            out.append("\n");
            let marker = build_marker(self.span_start, carets);
            out.append(marker.as_str());
            proof {
                assert(out@ =~= spec_render_error(self@));
            }
            out
        }
    }
}

} // verus!
