use vstd::prelude::*;

use crate::span::Span;
use crate::text::{
    ascii_lower, eq_ignore_case, boundary_index, byte_offsets, chars_are, chars_of, count_char, count_newlines,
    decimal, find_boundary, find_line_end, find_line_start, is_boundary, line_end_index,
    line_start_index, lower_chars, push_range, push_decimal, push_repeat, push_str, repeat,
    string_from_chars, utf8_len, lemma_utf8_len_at_least_len, check_boundary, utf8_len_fits,
};

verus! {

#[derive(Clone, Debug, PartialEq, Eq)]
pub struct StackFrame {
    pub method: String,
    pub span: Span,
}

#[derive(Clone, Debug, PartialEq, Eq, Hash)]
pub enum ExceptionKind {
    NullPointer,
    List,
    Math,
    Type,
    String,
    IllegalArgument,
    Final,
    Assert,
    Query,
    Dml,
    SObject,
    Async,
    Callout,
    UserDefined(String),
}

/// The core exception kind named by a lower-cased Apex exception type name.
pub open spec fn spec_core_exception(lower: Seq<char>) -> Option<ExceptionKind> {
    if lower == "nullpointerexception"@ {
        Some(ExceptionKind::NullPointer)
    } else if lower == "listexception"@ {
        Some(ExceptionKind::List)
    } else if lower == "mathexception"@ {
        Some(ExceptionKind::Math)
    } else if lower == "typeexception"@ {
        Some(ExceptionKind::Type)
    } else if lower == "stringexception"@ {
        Some(ExceptionKind::String)
    } else if lower == "illegalargumentexception"@ {
        Some(ExceptionKind::IllegalArgument)
    } else if lower == "finalexception"@ {
        Some(ExceptionKind::Final)
    } else if lower == "assertexception"@ {
        Some(ExceptionKind::Assert)
    } else if lower == "queryexception"@ {
        Some(ExceptionKind::Query)
    } else if lower == "dmlexception"@ {
        Some(ExceptionKind::Dml)
    } else if lower == "sobjectexception"@ {
        Some(ExceptionKind::SObject)
    } else if lower == "asyncexception"@ {
        Some(ExceptionKind::Async)
    } else if lower == "calloutexception"@ {
        Some(ExceptionKind::Callout)
    } else {
        None
    }
}

/// Reading back the name of an exception kind gives the same kind: always
/// for a built-in kind, and for a user-defined kind whose name is not that of
/// a built-in one.
pub proof fn lemma_apex_name_round_trip(kind: ExceptionKind)
    requires
        kind matches ExceptionKind::UserDefined(name) ==> spec_core_exception(ascii_lower(name@)) is None,
    ensures
        spec_core_exception(ascii_lower(kind.spec_apex_name())) matches Some(k) ==> k == kind,
        spec_core_exception(ascii_lower(kind.spec_apex_name())) is None <==> kind is UserDefined,
{
    reveal_strlit("NullPointerException");
    reveal_strlit("nullpointerexception");
    reveal_strlit("ListException");
    reveal_strlit("listexception");
    reveal_strlit("MathException");
    reveal_strlit("mathexception");
    reveal_strlit("TypeException");
    reveal_strlit("typeexception");
    reveal_strlit("StringException");
    reveal_strlit("stringexception");
    reveal_strlit("IllegalArgumentException");
    reveal_strlit("illegalargumentexception");
    reveal_strlit("FinalException");
    reveal_strlit("finalexception");
    reveal_strlit("AssertException");
    reveal_strlit("assertexception");
    reveal_strlit("QueryException");
    reveal_strlit("queryexception");
    reveal_strlit("DmlException");
    reveal_strlit("dmlexception");
    reveal_strlit("SObjectException");
    reveal_strlit("sobjectexception");
    reveal_strlit("AsyncException");
    reveal_strlit("asyncexception");
    reveal_strlit("CalloutException");
    reveal_strlit("calloutexception");
    match kind {
        ExceptionKind::NullPointer => {
            assert(ascii_lower("NullPointerException"@) =~= "nullpointerexception"@);
        },
        ExceptionKind::List => {
            assert(ascii_lower("ListException"@) =~= "listexception"@);
            assert("nullpointerexception"@.len() != "listexception"@.len());
        },
        ExceptionKind::Math => {
            assert(ascii_lower("MathException"@) =~= "mathexception"@);
            assert("nullpointerexception"@.len() != "mathexception"@.len());
            assert("listexception"@[0] != "mathexception"@[0]);
        },
        ExceptionKind::Type => {
            assert(ascii_lower("TypeException"@) =~= "typeexception"@);
            assert("nullpointerexception"@.len() != "typeexception"@.len());
            assert("listexception"@[0] != "typeexception"@[0]);
            assert("mathexception"@[0] != "typeexception"@[0]);
        },
        ExceptionKind::String => {
            assert(ascii_lower("StringException"@) =~= "stringexception"@);
            assert("nullpointerexception"@.len() != "stringexception"@.len());
            assert("listexception"@.len() != "stringexception"@.len());
            assert("mathexception"@.len() != "stringexception"@.len());
            assert("typeexception"@.len() != "stringexception"@.len());
        },
        ExceptionKind::IllegalArgument => {
            assert(ascii_lower("IllegalArgumentException"@) =~= "illegalargumentexception"@);
            assert("nullpointerexception"@.len() != "illegalargumentexception"@.len());
            assert("listexception"@.len() != "illegalargumentexception"@.len());
            assert("mathexception"@.len() != "illegalargumentexception"@.len());
            assert("typeexception"@.len() != "illegalargumentexception"@.len());
            assert("stringexception"@.len() != "illegalargumentexception"@.len());
        },
        ExceptionKind::Final => {
            assert(ascii_lower("FinalException"@) =~= "finalexception"@);
            assert("nullpointerexception"@.len() != "finalexception"@.len());
            assert("listexception"@.len() != "finalexception"@.len());
            assert("mathexception"@.len() != "finalexception"@.len());
            assert("typeexception"@.len() != "finalexception"@.len());
            assert("stringexception"@.len() != "finalexception"@.len());
            assert("illegalargumentexception"@.len() != "finalexception"@.len());
        },
        ExceptionKind::Assert => {
            assert(ascii_lower("AssertException"@) =~= "assertexception"@);
            assert("nullpointerexception"@.len() != "assertexception"@.len());
            assert("listexception"@.len() != "assertexception"@.len());
            assert("mathexception"@.len() != "assertexception"@.len());
            assert("typeexception"@.len() != "assertexception"@.len());
            assert("stringexception"@[0] != "assertexception"@[0]);
            assert("illegalargumentexception"@.len() != "assertexception"@.len());
            assert("finalexception"@.len() != "assertexception"@.len());
        },
        ExceptionKind::Query => {
            assert(ascii_lower("QueryException"@) =~= "queryexception"@);
            assert("nullpointerexception"@.len() != "queryexception"@.len());
            assert("listexception"@.len() != "queryexception"@.len());
            assert("mathexception"@.len() != "queryexception"@.len());
            assert("typeexception"@.len() != "queryexception"@.len());
            assert("stringexception"@.len() != "queryexception"@.len());
            assert("illegalargumentexception"@.len() != "queryexception"@.len());
            assert("finalexception"@[0] != "queryexception"@[0]);
            assert("assertexception"@.len() != "queryexception"@.len());
        },
        ExceptionKind::Dml => {
            assert(ascii_lower("DmlException"@) =~= "dmlexception"@);
            assert("nullpointerexception"@.len() != "dmlexception"@.len());
            assert("listexception"@.len() != "dmlexception"@.len());
            assert("mathexception"@.len() != "dmlexception"@.len());
            assert("typeexception"@.len() != "dmlexception"@.len());
            assert("stringexception"@.len() != "dmlexception"@.len());
            assert("illegalargumentexception"@.len() != "dmlexception"@.len());
            assert("finalexception"@.len() != "dmlexception"@.len());
            assert("assertexception"@.len() != "dmlexception"@.len());
            assert("queryexception"@.len() != "dmlexception"@.len());
        },
        ExceptionKind::SObject => {
            assert(ascii_lower("SObjectException"@) =~= "sobjectexception"@);
            assert("nullpointerexception"@.len() != "sobjectexception"@.len());
            assert("listexception"@.len() != "sobjectexception"@.len());
            assert("mathexception"@.len() != "sobjectexception"@.len());
            assert("typeexception"@.len() != "sobjectexception"@.len());
            assert("stringexception"@.len() != "sobjectexception"@.len());
            assert("illegalargumentexception"@.len() != "sobjectexception"@.len());
            assert("finalexception"@.len() != "sobjectexception"@.len());
            assert("assertexception"@.len() != "sobjectexception"@.len());
            assert("queryexception"@.len() != "sobjectexception"@.len());
            assert("dmlexception"@.len() != "sobjectexception"@.len());
        },
        ExceptionKind::Async => {
            assert(ascii_lower("AsyncException"@) =~= "asyncexception"@);
            assert("nullpointerexception"@.len() != "asyncexception"@.len());
            assert("listexception"@.len() != "asyncexception"@.len());
            assert("mathexception"@.len() != "asyncexception"@.len());
            assert("typeexception"@.len() != "asyncexception"@.len());
            assert("stringexception"@.len() != "asyncexception"@.len());
            assert("illegalargumentexception"@.len() != "asyncexception"@.len());
            assert("finalexception"@[0] != "asyncexception"@[0]);
            assert("assertexception"@.len() != "asyncexception"@.len());
            assert("queryexception"@[0] != "asyncexception"@[0]);
            assert("dmlexception"@.len() != "asyncexception"@.len());
            assert("sobjectexception"@.len() != "asyncexception"@.len());
        },
        ExceptionKind::Callout => {
            assert(ascii_lower("CalloutException"@) =~= "calloutexception"@);
            assert("nullpointerexception"@.len() != "calloutexception"@.len());
            assert("listexception"@.len() != "calloutexception"@.len());
            assert("mathexception"@.len() != "calloutexception"@.len());
            assert("typeexception"@.len() != "calloutexception"@.len());
            assert("stringexception"@.len() != "calloutexception"@.len());
            assert("illegalargumentexception"@.len() != "calloutexception"@.len());
            assert("finalexception"@.len() != "calloutexception"@.len());
            assert("assertexception"@.len() != "calloutexception"@.len());
            assert("queryexception"@.len() != "calloutexception"@.len());
            assert("dmlexception"@.len() != "calloutexception"@.len());
            assert("sobjectexception"@[0] != "calloutexception"@[0]);
            assert("asyncexception"@.len() != "calloutexception"@.len());
        },
        ExceptionKind::UserDefined(_) => {},
    }
}

fn core_exception(lower: &[char]) -> (result: Option<ExceptionKind>)
    ensures
        result == spec_core_exception(lower@),
{
    if chars_are(lower, "nullpointerexception") {
        Some(ExceptionKind::NullPointer)
    } else if chars_are(lower, "listexception") {
        Some(ExceptionKind::List)
    } else if chars_are(lower, "mathexception") {
        Some(ExceptionKind::Math)
    } else if chars_are(lower, "typeexception") {
        Some(ExceptionKind::Type)
    } else if chars_are(lower, "stringexception") {
        Some(ExceptionKind::String)
    } else if chars_are(lower, "illegalargumentexception") {
        Some(ExceptionKind::IllegalArgument)
    } else if chars_are(lower, "finalexception") {
        Some(ExceptionKind::Final)
    } else if chars_are(lower, "assertexception") {
        Some(ExceptionKind::Assert)
    } else if chars_are(lower, "queryexception") {
        Some(ExceptionKind::Query)
    } else if chars_are(lower, "dmlexception") {
        Some(ExceptionKind::Dml)
    } else if chars_are(lower, "sobjectexception") {
        Some(ExceptionKind::SObject)
    } else if chars_are(lower, "asyncexception") {
        Some(ExceptionKind::Async)
    } else if chars_are(lower, "calloutexception") {
        Some(ExceptionKind::Callout)
    } else {
        None
    }
}

impl ExceptionKind {
    /// The kind named by an Apex exception type name, compared without ASCII
    /// case; any other name is a user-defined exception that keeps its spelling.
    pub fn from_apex_name(name: &str) -> (result: ExceptionKind)
        ensures
            spec_core_exception(ascii_lower(name@)) matches Some(kind) ==> result == kind,
            spec_core_exception(ascii_lower(name@)) is None ==> (result matches ExceptionKind::UserDefined(
                spelling,
            ) && spelling@ == name@),
    {
        let lower = lower_chars(chars_of(name).as_slice());
        match core_exception(lower.as_slice()) {
            Some(kind) => kind,
            None => ExceptionKind::UserDefined(name.to_owned()),
        }
    }

    pub open spec fn spec_apex_name(self) -> Seq<char> {
        match self {
            ExceptionKind::NullPointer => "NullPointerException"@,
            ExceptionKind::List => "ListException"@,
            ExceptionKind::Math => "MathException"@,
            ExceptionKind::Type => "TypeException"@,
            ExceptionKind::String => "StringException"@,
            ExceptionKind::IllegalArgument => "IllegalArgumentException"@,
            ExceptionKind::Final => "FinalException"@,
            ExceptionKind::Assert => "AssertException"@,
            ExceptionKind::Query => "QueryException"@,
            ExceptionKind::Dml => "DmlException"@,
            ExceptionKind::SObject => "SObjectException"@,
            ExceptionKind::Async => "AsyncException"@,
            ExceptionKind::Callout => "CalloutException"@,
            ExceptionKind::UserDefined(name) => name@,
        }
    }

    /// The canonical Apex type name of the exception kind.
    pub fn apex_name(&self) -> (result: &str)
        ensures
            result@ == self.spec_apex_name(),
    {
        match self {
            ExceptionKind::NullPointer => "NullPointerException",
            ExceptionKind::List => "ListException",
            ExceptionKind::Math => "MathException",
            ExceptionKind::Type => "TypeException",
            ExceptionKind::String => "StringException",
            ExceptionKind::IllegalArgument => "IllegalArgumentException",
            ExceptionKind::Final => "FinalException",
            ExceptionKind::Assert => "AssertException",
            ExceptionKind::Query => "QueryException",
            ExceptionKind::Dml => "DmlException",
            ExceptionKind::SObject => "SObjectException",
            ExceptionKind::Async => "AsyncException",
            ExceptionKind::Callout => "CalloutException",
            ExceptionKind::UserDefined(name) => name.as_str(),
        }
    }
}

#[derive(Clone, Debug, PartialEq, Eq)]
pub struct Diagnostic {
    pub message: String,
    pub span: Span,
    pub exception_type: Option<String>,
    pub exception_kind: Option<ExceptionKind>,
    pub stack_trace: Vec<StackFrame>,
}

/// Line (from one) and column (in characters, from one) of a byte offset.
pub open spec fn spec_location(chars: Seq<char>, offset: int) -> (nat, nat) {
    let total = utf8_len(chars) as int;
    let clamped = if offset < total { offset } else { total };
    let k = boundary_index(chars, clamped);
    (count_char(chars.take(k), '\n') + 1, (k - line_start_index(chars, k) + 1) as nat)
}

/// Whether the offset, clamped to the text, falls on a character boundary.
pub open spec fn clamped_on_boundary(chars: Seq<char>, offset: int) -> bool {
    let total = utf8_len(chars) as int;
    is_boundary(chars, if offset < total { offset } else { total })
}

/// The stack trace lines appended after the highlighted source line.
pub open spec fn frames_text(frames: Seq<StackFrame>, file_name: Seq<char>, chars: Seq<char>) -> Seq<char>
    decreases frames.len(),
{
    if frames.len() == 0 {
        Seq::empty()
    } else {
        let frame = frames.last();
        let (line, column) = spec_location(chars, frame.span.start as int);
        frames_text(frames.drop_last(), file_name, chars) + "\n  at "@ + frame.method@ + " ("@ + file_name
            + ":"@ + decimal(line) + ":"@ + decimal(column) + ")"@
    }
}

impl Diagnostic {
    pub fn new(message: &str, span: Span) -> (result: Diagnostic)
        ensures
            result.message@ == message@,
            result.span == span,
            result.exception_type is None,
            result.exception_kind is None,
            result.stack_trace@.len() == 0,
    {
        Diagnostic {
            message: message.to_owned(),
            span,
            exception_type: None,
            exception_kind: None,
            stack_trace: Vec::new(),
        }
    }

    /// A runtime failure of the named exception type; the recorded type name
    /// is the canonical name of its kind.
    pub fn runtime_exception(exception_type: &str, message: &str, span: Span) -> (result: Diagnostic)
        ensures
            result.message@ == message@,
            result.span == span,
            result.exception_kind is Some,
            result.exception_type is Some,
            result.exception_type.unwrap()@ == result.exception_kind.unwrap().spec_apex_name(),
            spec_core_exception(ascii_lower(exception_type@)) matches Some(core) ==> result.exception_kind
                == Some(core),
            spec_core_exception(ascii_lower(exception_type@)) is None ==> (result.exception_kind.unwrap() matches ExceptionKind::UserDefined(spelling)
                && spelling@ == exception_type@),
            result.stack_trace@.len() == 0,
    {
        let exception_kind = ExceptionKind::from_apex_name(exception_type);
        let name = exception_kind.apex_name().to_owned();
        Diagnostic {
            message: message.to_owned(),
            span,
            exception_type: Some(name),
            exception_kind: Some(exception_kind),
            stack_trace: Vec::new(),
        }
    }

    /// Records a caller frame; only runtime exceptions carry a stack trace.
    pub fn push_frame(&mut self, method: &str, span: Span)
        ensures
            final(self).message == old(self).message,
            final(self).span == old(self).span,
            final(self).exception_type == old(self).exception_type,
            final(self).exception_kind == old(self).exception_kind,
            old(self).exception_type is Some ==> final(self).stack_trace@.len() == old(self).stack_trace@.len() + 1
                && final(self).stack_trace@.drop_last() == old(self).stack_trace@ && final(self).stack_trace@.last().method@
                == method@ && final(self).stack_trace@.last().span == span,
            old(self).exception_type is None ==> final(self).stack_trace@ == old(self).stack_trace@,
    {
        if self.exception_type.is_some() {
            let ghost before = self.stack_trace@;
            self.stack_trace.push(StackFrame { method: method.to_owned(), span });
            assert(self.stack_trace@.drop_last() =~= before);
        }
    }

    pub open spec fn spec_heading(self) -> Seq<char> {
        match self.exception_type {
            None => self.message@,
            Some(exception_type) => exception_type@ + ": "@ + self.message@,
        }
    }

    /// The byte offset where the highlight ends: the span end, kept to the first line.
    pub open spec fn spec_highlight_end(self, chars: Seq<char>) -> int {
        let total = utf8_len(chars) as int;
        let start = if (self.span.start as int) < total { self.span.start as int } else { total };
        let k = boundary_index(chars, start);
        let line_end = utf8_len(chars.take(line_end_index(chars, k))) as int;
        if (self.span.end as int) < line_end { self.span.end as int } else { line_end }
    }

    /// What [`Diagnostic::render`] accepts: a text whose length fits in memory, a
    /// span whose start and highlighted end fall on character boundaries in order,
    /// and stack frames that start on character boundaries.
    pub open spec fn renderable(self, source: Seq<char>) -> bool {
        let total = utf8_len(source) as int;
        let start = if (self.span.start as int) < total { self.span.start as int } else { total };
        &&& utf8_len(source) < usize::MAX
        &&& is_boundary(source, start)
        &&& is_boundary(source, self.spec_highlight_end(source))
        &&& start <= self.spec_highlight_end(source)
        &&& forall|i: int| 0 <= i < self.stack_trace@.len() ==> clamped_on_boundary(
            source,
            #[trigger] self.stack_trace@[i].span.start as int,
        )
    }

    /// The rendered report: heading, location, the source line with the span
    /// highlighted, and the stack trace if there is one.
    pub open spec fn spec_render(self, file_name: Seq<char>, source: Seq<char>) -> Seq<char> {
        let total = utf8_len(source) as int;
        let start = if (self.span.start as int) < total { self.span.start as int } else { total };
        let k = boundary_index(source, start);
        let line_start = line_start_index(source, k);
        let line_end = line_end_index(source, k);
        let (line, column) = spec_location(source, self.span.start as int);
        let highlight_end = boundary_index(source, self.spec_highlight_end(source));
        let width = if highlight_end > k { highlight_end - k } else { 1 };
        let head = "error: "@ + self.spec_heading() + "\n --> "@ + file_name + ":"@ + decimal(line) + ":"@
            + decimal(column) + "\n  |\n"@ + decimal(line) + " | "@ + source.subrange(line_start, line_end)
            + "\n  | "@ + repeat(' ', (column - 1) as nat) + repeat('^', width as nat);
        if self.stack_trace@.len() == 0 {
            head
        } else {
            head + "\nApex stack trace:"@ + frames_text(self.stack_trace@, file_name, source)
        }
    }

    /// Whether [`Diagnostic::render`] accepts this diagnostic with `source`.
    pub fn is_renderable(&self, source: &str) -> (result: bool)
        ensures
            result == self.renderable(source@),
    {
        utf8_len_fits(source);
        let chars = chars_of(source);
        let offsets = byte_offsets(chars.as_slice());
        proof {
            assert(chars@.take(chars@.len() as int) =~= chars@);
        }
        let total = offsets[chars.len()];
        if total == usize::MAX {
            return false;
        }
        proof {
            lemma_utf8_len_at_least_len(chars@);
        }
        let start = if self.span.start < total { self.span.start } else { total };
        if !check_boundary(chars.as_slice(), &offsets, start) {
            return false;
        }
        let k = find_boundary(chars.as_slice(), &offsets, start);
        let line_end = find_line_end(chars.as_slice(), k);
        let line_end_byte = offsets[line_end];
        let end_byte = if self.span.end < line_end_byte { self.span.end } else { line_end_byte };
        assert(end_byte == self.spec_highlight_end(source@));
        if !check_boundary(chars.as_slice(), &offsets, end_byte) || start > end_byte {
            return false;
        }
        let mut i: usize = 0;
        while i < self.stack_trace.len()
            invariant
                i <= self.stack_trace@.len(),
                offsets@.len() == chars@.len() + 1,
                forall|j: int| 0 <= j <= chars@.len() ==> #[trigger] offsets@[j] == utf8_len(chars@.take(j)),
                total == utf8_len(chars@),
                chars@ == source@,
                chars@.len() < usize::MAX,
                forall|j: int| 0 <= j < i ==> clamped_on_boundary(source@, #[trigger] self.stack_trace@[j].span.start as int),
            decreases self.stack_trace@.len() - i,
        {
            let frame_start = self.stack_trace[i].span.start;
            let clamped = if frame_start < total { frame_start } else { total };
            if !check_boundary(chars.as_slice(), &offsets, clamped) {
                return false;
            }
            i += 1;
        }
        true
    }

    #[verifier::rlimit(80)]
    pub fn render(&self, file_name: &str, source: &str) -> (result: String)
        requires
            self.renderable(source@),
        ensures
            result@ == self.spec_render(file_name@, source@),
    {
        let chars = chars_of(source);
        proof {
            lemma_utf8_len_at_least_len(chars@);
            assert(chars@.take(chars@.len() as int) =~= chars@);
        }
        let offsets = byte_offsets(chars.as_slice());
        let total = offsets[chars.len()];
        let start = if self.span.start < total { self.span.start } else { total };
        let k = find_boundary(chars.as_slice(), &offsets, start);
        let line_start = find_line_start(chars.as_slice(), k);
        let line_end = find_line_end(chars.as_slice(), k);
        let (line, column) = location(chars.as_slice(), &offsets, self.span.start);
        let line_end_byte = offsets[line_end];
        let end_byte = if self.span.end < line_end_byte { self.span.end } else { line_end_byte };
        let highlight_end = find_boundary(chars.as_slice(), &offsets, end_byte);
        let width = if highlight_end > k { highlight_end - k } else { 1 };
        assert(end_byte == self.spec_highlight_end(source@));
        assert(highlight_end == boundary_index(source@, self.spec_highlight_end(source@)));

        let mut out: Vec<char> = Vec::new();
        push_str(&mut out, "error: ");
        self.push_heading(&mut out);
        push_str(&mut out, "\n --> ");
        push_str(&mut out, file_name);
        push_str(&mut out, ":");
        push_decimal(&mut out, line);
        push_str(&mut out, ":");
        push_decimal(&mut out, column);
        push_str(&mut out, "\n  |\n");
        push_decimal(&mut out, line);
        push_str(&mut out, " | ");
        push_range(&mut out, chars.as_slice(), line_start, line_end);
        push_str(&mut out, "\n  | ");
        push_repeat(&mut out, ' ', column - 1);
        push_repeat(&mut out, '^', width);
        if self.stack_trace.len() > 0 {
            push_str(&mut out, "\nApex stack trace:");
            push_frames(&mut out, &self.stack_trace, file_name, chars.as_slice(), &offsets);
        }
        string_from_chars(out.as_slice())
    }

    fn push_heading(&self, out: &mut Vec<char>)
        ensures
            final(out)@ == old(out)@ + self.spec_heading(),
    {
        match &self.exception_type {
            None => push_str(out, self.message.as_str()),
            Some(exception_type) => {
                let ghost before = out@;
                push_str(out, exception_type.as_str());
                push_str(out, ": ");
                push_str(out, self.message.as_str());
                assert(out@ =~= before + (exception_type@ + ": "@ + self.message@));
            },
        }
    }
}

/// Line and column of a byte offset clamped to the text.
pub(crate) fn location(chars: &[char], offsets: &Vec<usize>, offset: usize) -> (result: (usize, usize))
    requires
        offsets@.len() == chars@.len() + 1,
        forall|j: int| 0 <= j <= chars@.len() ==> #[trigger] offsets@[j] == utf8_len(chars@.take(j)),
        clamped_on_boundary(chars@, offset as int),
        chars@.len() < usize::MAX,
    ensures
        (result.0 as nat, result.1 as nat) == spec_location(chars@, offset as int),
{
    assert(chars@.take(chars@.len() as int) =~= chars@);
    let total = offsets[chars.len()];
    let clamped = if offset < total { offset } else { total };
    let k = find_boundary(chars, offsets, clamped);
    let line = count_newlines(chars, k) + 1;
    let column = k - find_line_start(chars, k) + 1;
    (line, column)
}

/// Appends the stack trace lines of `frames`.
fn push_frames(out: &mut Vec<char>, frames: &Vec<StackFrame>, file_name: &str, chars: &[char], offsets: &Vec<usize>)
    requires
        offsets@.len() == chars@.len() + 1,
        forall|j: int| 0 <= j <= chars@.len() ==> #[trigger] offsets@[j] == utf8_len(chars@.take(j)),
        chars@.len() < usize::MAX,
        forall|i: int| 0 <= i < frames@.len() ==> clamped_on_boundary(chars@, #[trigger] frames@[i].span.start as int),
    ensures
        final(out)@ == old(out)@ + frames_text(frames@, file_name@, chars@),
{
    let ghost marker = out@;
    let mut i: usize = 0;
    assert(frames@.take(0) =~= Seq::<StackFrame>::empty());
    while i < frames.len()
        invariant
            i <= frames@.len(),
            offsets@.len() == chars@.len() + 1,
            forall|j: int| 0 <= j <= chars@.len() ==> #[trigger] offsets@[j] == utf8_len(chars@.take(j)),
            chars@.len() < usize::MAX,
            forall|j: int| 0 <= j < frames@.len() ==> clamped_on_boundary(chars@, #[trigger] frames@[j].span.start as int),
            out@ == marker + frames_text(frames@.take(i as int), file_name@, chars@),
        decreases frames@.len() - i,
    {
        let frame = &frames[i];
        assert(clamped_on_boundary(chars@, frames@[i as int].span.start as int));
        let (frame_line, frame_column) = location(chars, offsets, frame.span.start);
        let ghost before = out@;
        push_str(out, "\n  at ");
        push_str(out, frame.method.as_str());
        push_str(out, " (");
        push_location_tail(out, file_name, frame_line, frame_column);
        proof {
            let taken = frames@.take(i + 1);
            assert(taken.drop_last() =~= frames@.take(i as int));
            assert(taken.last() == frames@[i as int]);
            assert(out@ =~= before + "\n  at "@ + frame.method@ + " ("@ + file_name@ + ":"@ + decimal(frame_line as nat) + ":"@
                + decimal(frame_column as nat) + ")"@);
        }
        i += 1;
    }
    assert(frames@.take(frames@.len() as int) =~= frames@);
}

/// Appends `file:line:column)`.
fn push_location_tail(out: &mut Vec<char>, file_name: &str, line: usize, column: usize)
    ensures
        final(out)@ == old(out)@ + file_name@ + ":"@ + decimal(line as nat) + ":"@ + decimal(column as nat) + ")"@,
{
    let ghost before = out@;
    push_str(out, file_name);
    push_str(out, ":");
    push_decimal(out, line);
    push_str(out, ":");
    push_decimal(out, column);
    push_str(out, ")");
    assert(out@ =~= before + file_name@ + ":"@ + decimal(line as nat) + ":"@ + decimal(column as nat) + ")"@);
}

} // verus!

verus! {

/// The line of a stack trace that names one frame: its method and where in
/// the file its span starts.
pub open spec fn frame_line(frame: StackFrame, file_name: Seq<char>, chars: Seq<char>) -> Seq<char> {
    "\n  at "@ + frame.method@ + " ("@ + file_name + ":"@ + decimal(spec_location(chars, frame.span.start as int).0)
        + ":"@ + decimal(spec_location(chars, frame.span.start as int).1) + ")"@
}

/// A stack trace lists its frames in the order they were pushed: the trace
/// of `frames` and then `frame` is the trace of `frames` followed by the
/// line of `frame`, and an empty trace has no lines.
pub proof fn lemma_frames_in_pushed_order(frames: Seq<StackFrame>, frame: StackFrame, file_name: Seq<char>, chars: Seq<char>)
    ensures
        frames_text(Seq::empty(), file_name, chars) == Seq::<char>::empty(),
        frames_text(frames.push(frame), file_name, chars) == frames_text(frames, file_name, chars) + frame_line(
            frame,
            file_name,
            chars,
        ),
{
    assert(frames.push(frame).drop_last() =~= frames);
    assert(frames_text(frames.push(frame), file_name, chars) =~= frames_text(frames, file_name, chars) + frame_line(
        frame,
        file_name,
        chars,
    ));
}

/// The `k`-th line of a stack trace names the `k`-th frame pushed: the trace
/// is the trace of the first `k` frames, then the line of frame `k`, then
/// the lines of the frames after it.
pub proof fn lemma_frame_line_at(frames: Seq<StackFrame>, k: int, file_name: Seq<char>, chars: Seq<char>)
    requires
        0 <= k < frames.len(),
    ensures
        frames_text(frames, file_name, chars) == frames_text(frames.take(k), file_name, chars) + frame_line(
            frames[k],
            file_name,
            chars,
        ) + frames_text(frames.skip(k + 1), file_name, chars),
    decreases frames.len(),
{
    if k == frames.len() - 1 {
        lemma_frames_in_pushed_order(frames.take(k), frames[k], file_name, chars);
        assert(frames.take(k).push(frames[k]) =~= frames);
        assert(frames.skip(k + 1) =~= Seq::<StackFrame>::empty());
        assert(frames_text(frames, file_name, chars) + Seq::<char>::empty() =~= frames_text(frames, file_name, chars));
    } else {
        let shorter = frames.drop_last();
        lemma_frame_line_at(shorter, k, file_name, chars);
        lemma_frames_in_pushed_order(shorter, frames.last(), file_name, chars);
        assert(shorter.push(frames.last()) =~= frames);
        assert(shorter.take(k) =~= frames.take(k));
        assert(shorter[k] == frames[k]);
        let after = shorter.skip(k + 1);
        lemma_frames_in_pushed_order(after, frames.last(), file_name, chars);
        assert(after.push(frames.last()) =~= frames.skip(k + 1));
    }
}

/// Pushing a frame onto a diagnostic that already has one appends exactly
/// that frame's line to its rendering.
pub proof fn lemma_push_frame_appends_line(
    before: Diagnostic,
    after: Diagnostic,
    frame: StackFrame,
    file_name: Seq<char>,
    source: Seq<char>,
)
    requires
        before.stack_trace@.len() > 0,
        after.message == before.message,
        after.span == before.span,
        after.exception_type == before.exception_type,
        after.exception_kind == before.exception_kind,
        after.stack_trace@ == before.stack_trace@.push(frame),
    ensures
        after.spec_render(file_name, source) == before.spec_render(file_name, source) + frame_line(frame, file_name, source),
{
    lemma_frames_in_pushed_order(before.stack_trace@, frame, file_name, source);
    assert(after.spec_render(file_name, source) =~= before.spec_render(file_name, source) + frame_line(
        frame,
        file_name,
        source,
    ));
}

/// Core exception names are read without regard to ASCII case.
pub proof fn lemma_exception_names_ignore_case(a: Seq<char>, b: Seq<char>)
    requires
        eq_ignore_case(a, b),
    ensures
        spec_core_exception(ascii_lower(a)) == spec_core_exception(ascii_lower(b)),
{
}

} // verus!
