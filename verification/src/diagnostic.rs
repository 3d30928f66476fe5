//! Rendering an assembler error as a report that quotes the source it points at.
use vstd::prelude::*;
use crate::asm_error::{AssemblerError, error_text};
use crate::files::FileTable;
use crate::text::{lossy_text, utf8_lossy};

verus! {

/// The bytes ariadne's `Report::write` produces, with colours switched off in the report's
/// configuration, for an error report over the named `sources`, pointing at characters
/// `start..end` of source `source_id`, with `message` as the report's message and as its
/// one label's; `None` when writing fails.
pub uninterp spec fn ariadne_report(
    source_id: Seq<char>,
    start: int,
    end: int,
    message: Seq<char>,
    sources: Seq<(Seq<char>, Seq<char>)>,
) -> Option<Seq<u8>>;

/// Names and texts of source files.
pub open spec fn named_sources(s: Seq<(String, String)>) -> Seq<(Seq<char>, Seq<char>)> {
    s.map_values(|e: (String, String)| (e.0@, e.1@))
}

/// Writes an error report with ariadne (`Report::build` with `ReportKind::Error` and a
/// `Config` whose colour switch is `color`, one `Label` coloured red, `Report::write` into a
/// byte vector over `ariadne::sources`). With colours off the result is named
/// `ariadne_report`. With colours on, ariadne paints through yansi, whose process-wide
/// switch and terminal detection decide whether escape codes appear: nothing is claimed of
/// the bytes then. `Label::new` panics on a backwards span, which `requires` leaves out.
#[verifier::external_body]
fn write_report(source_id: &String, start: usize, end: usize, message: &String, sources: Vec<(String, String)>, color: bool) -> (r: Option<Vec<u8>>)
    requires
        start <= end,
    ensures
        !color ==> ariadne_report(source_id@, start as int, end as int, message@, named_sources(sources@)) == match r {
            Some(b) => Some(b@),
            None => None::<Seq<u8>>,
        },
{
    let span = (source_id.clone(), start..end);
    let config = ariadne::Config::default().with_color(color);
    let label = ariadne::Label::new(span.clone()).with_message(message).with_color(ariadne::Color::Red);
    let report = ariadne::Report::build(ariadne::ReportKind::Error, span).with_config(config).with_message(message).with_label(label).finish();
    let mut out: Vec<u8> = Vec::new();
    match report.write(ariadne::sources(sources), &mut out) {
        Ok(()) => Some(out),
        Err(_) => None,
    }
}

/// Whether an error is rendered as a report: it carries its file table and a location.
pub open spec fn reported(e: AssemblerError) -> bool {
    e is Context && e.located() is Some
}

/// The rendered text of an error without colours: when it carries its file table and a
/// location, the report ariadne writes over all the files, pointing at the location, with
/// the error's text as message (read as `String::from_utf8_lossy` reads it); otherwise, or
/// when writing fails, the error's text.
pub open spec fn rendered(e: AssemblerError) -> Seq<char> {
    match (e, e.located()) {
        (AssemblerError::Context { files, .. }, Some((_, file, start, end, _))) => {
            match ariadne_report(files.entries()[file as int].0, start, end, error_text(e), files.entries()) {
                Some(b) => lossy_text(b),
                None => error_text(e),
            }
        },
        _ => error_text(e),
    }
}

fn all_sources(files: &FileTable) -> (r: Vec<(String, String)>)
    ensures
        named_sources(r@) == files.entries(),
{
    let mut out: Vec<(String, String)> = Vec::new();
    let mut i: usize = 0;
    while i < files.files.len()
        invariant
            0 <= i <= files.files@.len(),
            out@.len() == i,
            named_sources(out@) == files.entries().subrange(0, i as int),
        decreases files.files@.len() - i,
    {
        let path = crate::text::owned(files.files[i].0.as_str());
        let source = crate::text::owned(files.files[i].1.as_str());
        assert(path@ == files.entries()[i as int].0 && source@ == files.entries()[i as int].1);
        let ghost before = out@;
        out.push((path, source));
        assert forall|j: int| 0 <= j < out@.len() implies #[trigger] named_sources(out@)[j] == files.entries().subrange(0, i as int + 1)[j] by {
            if j < i {
                assert(out@[j] == before[j]);
                assert(named_sources(before)[j] == files.entries().subrange(0, i as int)[j]);
            }
        }
        assert(named_sources(out@) =~= files.entries().subrange(0, i as int + 1));
        i = i + 1;
    }
    assert(files.entries().subrange(0, files.files@.len() as int) =~= files.entries());
    out
}

/// Renders an error for a terminal, in colour when `color` holds (see `rendered`). The
/// location must name a file of the table and its span must not be backwards.
pub fn render_error(error: &AssemblerError, color: bool) -> (s: String)
    requires
        error matches AssemblerError::Context { files, .. } ==> (error.located() matches Some((_, file, start, end, _))
            ==> file < files.entries().len() && start <= end),
    ensures
        !color ==> s@ == rendered(*error),
        !reported(*error) ==> s@ == error_text(*error),
        color && reported(*error) ==> s@ == error_text(*error) || exists|b: Seq<u8>| s@ == #[trigger] lossy_text(b),
{
    let files = match error.files() {
        Some(f) => f,
        None => {
            return error.text();
        },
    };
    let loc = match error.loc() {
        Some(l) => l,
        None => {
            return error.text();
        },
    };
    let source_id = files.path(loc.file);
    let message = error.text();
    let sources = all_sources(files);
    match write_report(source_id, loc.span.start, loc.span.end, &message, sources, color) {
        Some(bytes) => utf8_lossy(bytes.as_slice()),
        None => message,
    }
}

} // verus!
