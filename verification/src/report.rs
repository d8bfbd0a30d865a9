//! Reports: a finished coverage map rendered as a summary, in the
//! line-coverage exchange format, or as a dump of every item.

use vstd::prelude::*;
use vstd::string::StringExecFns;
use crate::item::{CoverageItem, ItemKind};
use crate::lcov::{lcov_text, render_lcov};
use crate::map::{CoverageMap, FileView};
use crate::summary::{render_summary, summary_text};
use crate::text::{decimal, push_decimal};

verus! {

/// The kinds of report.
#[derive(Clone, Copy, Debug, PartialEq, Eq, Structural)]
pub enum CoverageReportKind {
    Summary,
    Lcov,
    Debug,
}

/// Where a report is to be written.
#[derive(Clone, Debug, PartialEq, Eq)]
pub enum Destination {
    /// The standard output stream.
    StandardOutput,
    /// The file of the given name at the root of the project.
    ProjectFile(String),
}

/// A rendered report and the place it is meant for.
#[derive(Clone, Debug, PartialEq, Eq)]
pub struct Report {
    pub destination: Destination,
    pub text: String,
}

/// The name of the file that holds a report in the exchange format.
pub open spec fn lcov_file_name() -> Seq<char> {
    seq!['l', 'c', 'o', 'v', '.', 'i', 'n', 'f', 'o']
}

/// Whether `destination` is where a report of `kind` goes: the exchange
/// format into its file, the other two to the standard output.
pub open spec fn destined(kind: CoverageReportKind, destination: Destination) -> bool {
    match kind {
        CoverageReportKind::Lcov => destination matches Destination::ProjectFile(name) && name@
            == lcov_file_name(),
        _ => destination is StandardOutput,
    }
}

/// The name of an item kind.
pub open spec fn kind_name(kind: ItemKind) -> Seq<char> {
    match kind {
        ItemKind::Statement => seq!['s', 't', 'a', 't', 'e', 'm', 'e', 'n', 't'],
        ItemKind::Branch => seq!['b', 'r', 'a', 'n', 'c', 'h'],
        ItemKind::Line => seq!['l', 'i', 'n', 'e'],
    }
}

/// The dump of one item: the file's path, the item's kind, the first byte of
/// its range and the first byte after it, and its hit count.
pub open spec fn debug_line(path: Seq<char>, item: CoverageItem) -> Seq<char> {
    path + seq![':', ' '] + kind_name(item.kind) + seq![' '] + decimal(item.range.start as nat)
        + seq!['.', '.'] + decimal(item.range.end() as nat) + seq![':', ' '] + decimal(
        item.hits as nat,
    ) + seq!['\n']
}

/// The dump of the first `n` of `items`.
pub open spec fn debug_lines(path: Seq<char>, items: Seq<CoverageItem>, n: nat) -> Seq<char>
    decreases n,
{
    if n == 0 || n > items.len() {
        Seq::empty()
    } else {
        debug_lines(path, items, (n - 1) as nat) + debug_line(path, items[n - 1])
    }
}

/// The dump of the first `n` files.
pub open spec fn debug_files(files: Seq<FileView>, n: nat) -> Seq<char>
    decreases n,
{
    if n == 0 || n > files.len() {
        Seq::empty()
    } else {
        let file = files[n - 1];
        debug_files(files, (n - 1) as nat) + debug_lines(file.path, file.items, file.items.len())
    }
}

/// The dump of every item of every file, in the map's order.
pub open spec fn debug_text(files: Seq<FileView>) -> Seq<char> {
    debug_files(files, files.len())
}

/// The report of `kind` on `files`.
pub open spec fn rendered(kind: CoverageReportKind, files: Seq<FileView>) -> Seq<char> {
    match kind {
        CoverageReportKind::Summary => summary_text(files),
        CoverageReportKind::Lcov => lcov_text(files),
        CoverageReportKind::Debug => debug_text(files),
    }
}

fn kind_text(kind: ItemKind) -> (r: &'static str)
    ensures
        r@ == kind_name(kind),
{
    proof {
        reveal_strlit("statement");
        reveal_strlit("branch");
        reveal_strlit("line");
    }
    let r = match kind {
        ItemKind::Statement => "statement",
        ItemKind::Branch => "branch",
        ItemKind::Line => "line",
    };
    r
}

fn push_debug_line(out: &mut String, path: &str, item: &CoverageItem)
    ensures
        final(out)@ == old(out)@ + debug_line(path@, *item),
{
    proof {
        reveal_strlit(": ");
        reveal_strlit(" ");
        reveal_strlit("..");
        reveal_strlit("\n");
    }
    let end: u128 = item.range.start as u128 + item.range.length as u128;
    out.append(path);
    out.append(": ");
    out.append(kind_text(item.kind));
    out.append(" ");
    push_decimal(out, item.range.start as u128);
    out.append("..");
    push_decimal(out, end);
    out.append(": ");
    push_decimal(out, item.hits as u128);
    out.append("\n");
}

/// Renders the dump of every item of `map`.
pub fn render_debug(map: &CoverageMap) -> (r: String)
    ensures
        r@ == debug_text(map@),
{
    let mut out = String::new();
    let mut i: usize = 0;
    while i < map.len()
        invariant
            i <= map@.len(),
            out@ == debug_files(map@, i as nat),
        decreases map@.len() - i,
    {
        match map.file(i) {
            Some(file) => {
                let ghost head = out@;
                let mut j: usize = 0;
                while j < file.items.len()
                    invariant
                        j <= file.items.len(),
                        out@ == head + debug_lines(file.path@, file.items@, j as nat),
                    decreases file.items.len() - j,
                {
                    push_debug_line(&mut out, file.path.as_str(), &file.items[j]);
                    j += 1;
                }
            },
            None => {},
        }
        i += 1;
    }
    out
}

/// Renders the report of `kind` on `map`, with the place it is meant for.
pub fn render(kind: CoverageReportKind, map: &CoverageMap) -> (r: Report)
    ensures
        r.text@ == rendered(kind, map@),
        destined(kind, r.destination),
{
    match kind {
        CoverageReportKind::Summary => Report {
            destination: Destination::StandardOutput,
            text: render_summary(map),
        },
        CoverageReportKind::Lcov => {
            proof {
                reveal_strlit("lcov.info");
            }
            let name = String::from_str("lcov.info");
            assert(name@ =~= lcov_file_name());
            Report { destination: Destination::ProjectFile(name), text: render_lcov(map) }
        },
        CoverageReportKind::Debug => Report {
            destination: Destination::StandardOutput,
            text: render_debug(map),
        },
    }
}

/// What a reporter holds.
pub struct ReporterView {
    pub kind: CoverageReportKind,
    pub files: Seq<FileView>,
    pub built: bool,
}

/// Renders one coverage map as a report of one kind: `build` takes the map
/// in, `finalize` renders it.
pub struct CoverageReporter {
    kind: CoverageReportKind,
    map: CoverageMap,
    built: bool,
}

impl View for CoverageReporter {
    type V = ReporterView;

    closed spec fn view(&self) -> ReporterView {
        ReporterView { kind: self.kind, files: self.map@, built: self.built }
    }
}

impl CoverageReporter {
    /// A reporter of `kind` that has taken in no map yet.
    pub fn new(kind: CoverageReportKind) -> (r: CoverageReporter)
        ensures
            r@ == (ReporterView { kind, files: Seq::empty(), built: false }),
    {
        CoverageReporter { kind, map: CoverageMap::new(), built: false }
    }

    /// Takes in the finished `map`. A reporter takes in one map only: any
    /// further one is turned down, and the first stays.
    pub fn build(&mut self, map: CoverageMap) -> (taken: bool)
        ensures
            taken == !old(self)@.built,
            final(self)@ == (ReporterView {
                kind: old(self)@.kind,
                files: if taken {
                    map@
                } else {
                    old(self)@.files
                },
                built: true,
            }),
    {
        if self.built {
            false
        } else {
            self.map = map;
            self.built = true;
            true
        }
    }

    /// Renders the report. Without a map taken in, it is the report on an
    /// empty map.
    pub fn finalize(self) -> (r: Report)
        ensures
            r.text@ == rendered(self@.kind, self@.files),
            destined(self@.kind, r.destination),
    {
        render(self.kind, &self.map)
    }
}

} // verus!
