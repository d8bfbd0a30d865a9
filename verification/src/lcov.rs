//! The line-coverage exchange format: for each file, how often each of its
//! marked lines was executed.

use vstd::prelude::*;
use vstd::string::StringExecFns;
use vstd::utf8::encode_utf8;
use crate::item::{CoverageItem, ItemKind};
use crate::map::{CoverageMap, FileView};
use crate::text::{decimal, push_decimal};

verus! {

/// The number of line feeds among `bytes`.
pub open spec fn newlines(bytes: Seq<u8>) -> nat
    decreases bytes.len(),
{
    if bytes.len() == 0 {
        0
    } else {
        newlines(bytes.drop_last()) + if bytes.last() == 10u8 {
            1nat
        } else {
            0nat
        }
    }
}

/// The line of `text`, counted from 1, that holds the byte at `offset`. An
/// offset beyond the text counts as its end.
pub open spec fn line_of(text: Seq<char>, offset: int) -> nat {
    let bytes = encode_utf8(text);
    1 + newlines(
        bytes.take(
            if offset < bytes.len() {
                offset
            } else {
                bytes.len() as int
            },
        ),
    )
}

/// There are no more line feeds than bytes.
pub proof fn lemma_newlines_bound(bytes: Seq<u8>)
    ensures
        newlines(bytes) <= bytes.len(),
    decreases bytes.len(),
{
    if bytes.len() > 0 {
        lemma_newlines_bound(bytes.drop_last());
    }
}

/// Line `line` was executed `hits` times.
#[derive(Clone, Copy, Debug, PartialEq, Eq, Structural)]
pub struct LineRecord {
    pub line: u128,
    pub hits: u64,
}

/// Whether `records` hold a record of `line`.
pub open spec fn has_line(records: Seq<LineRecord>, line: u128) -> bool {
    exists|i: int| 0 <= i < records.len() && (#[trigger] records[i]).line == line
}

/// `records` after a marker on `line` with `hits` executions was noted: a
/// line that has a record keeps the higher count, a new line gets a record at
/// the end.
pub open spec fn noted(records: Seq<LineRecord>, line: u128, hits: u64) -> Seq<LineRecord> {
    if has_line(records, line) {
        Seq::new(
            records.len(),
            |i: int|
                if records[i].line == line && records[i].hits < hits {
                    LineRecord { line, hits }
                } else {
                    records[i]
                },
        )
    } else {
        records.push(LineRecord { line, hits })
    }
}

/// The line records of a file: one for each line on which a line marker
/// starts, in the order in which the lines first occur among `items`, each
/// with the highest hit count among the markers on its line.
pub open spec fn line_records(text: Seq<char>, items: Seq<CoverageItem>) -> Seq<LineRecord>
    decreases items.len(),
{
    if items.len() == 0 {
        Seq::empty()
    } else {
        let before = line_records(text, items.drop_last());
        let item = items.last();
        if item.kind == ItemKind::Line {
            noted(before, line_of(text, item.range.start as int) as u128, item.hits)
        } else {
            before
        }
    }
}

/// No line has two records.
pub open spec fn distinct_lines(records: Seq<LineRecord>) -> bool {
    forall|i: int, j: int|
        0 <= i < j < records.len() ==> (#[trigger] records[i]).line != (#[trigger] records[j]).line
}

/// Noting a marker keeps every recorded line, in place, with a count no
/// lower than before, and records the marker's line.
pub proof fn lemma_noted(records: Seq<LineRecord>, line: u128, hits: u64)
    ensures
        noted(records, line, hits).len() >= records.len(),
        forall|i: int|
            0 <= i < records.len() ==> (#[trigger] noted(records, line, hits)[i]).line
                == records[i].line && noted(records, line, hits)[i].hits >= records[i].hits,
        forall|i: int|
            0 <= i < records.len() ==> (#[trigger] noted(records, line, hits)[i]) == records[i]
                || noted(records, line, hits)[i] == (LineRecord { line, hits }),
        forall|i: int|
            records.len() <= i < noted(records, line, hits).len() ==> (#[trigger] noted(
                records,
                line,
                hits,
            )[i]) == (LineRecord { line, hits }),
        exists|i: int|
            0 <= i < noted(records, line, hits).len() && (#[trigger] noted(
                records,
                line,
                hits,
            )[i]).line == line && noted(records, line, hits)[i].hits >= hits,
        distinct_lines(records) ==> distinct_lines(noted(records, line, hits)),
{
    let after = noted(records, line, hits);
    if has_line(records, line) {
        let i = choose|i: int| 0 <= i < records.len() && (#[trigger] records[i]).line == line;
        assert(after[i].line == line && after[i].hits >= hits);
    } else {
        assert(after[records.len() as int].line == line);
        if distinct_lines(records) {
            assert forall|i: int, j: int| 0 <= i < j < after.len() implies (
            #[trigger] after[i]).line != (#[trigger] after[j]).line by {
                if j < records.len() {
                    assert(records[i].line != records[j].line);
                } else {
                    assert(records[i].line != line);
                }
            }
        }
    }
}

/// No line has two records.
pub proof fn lemma_line_records_distinct(text: Seq<char>, items: Seq<CoverageItem>)
    ensures
        distinct_lines(line_records(text, items)),
    decreases items.len(),
{
    if items.len() > 0 {
        lemma_line_records_distinct(text, items.drop_last());
    }
}

/// The line of every line marker has a record, and its count is no lower
/// than the marker's.
pub proof fn lemma_line_records_complete(text: Seq<char>, items: Seq<CoverageItem>, k: int)
    requires
        0 <= k < items.len(),
        items[k].kind == ItemKind::Line,
    ensures
        exists|i: int|
            0 <= i < line_records(text, items).len() && (#[trigger] line_records(
                text,
                items,
            )[i]).line == line_of(text, items[k].range.start as int) as u128 && line_records(
                text,
                items,
            )[i].hits >= items[k].hits,
    decreases items.len(),
{
    let rest = items.drop_last();
    let item = items.last();
    let before = line_records(text, rest);
    let after = line_records(text, items);
    if item.kind == ItemKind::Line {
        lemma_noted(before, line_of(text, item.range.start as int) as u128, item.hits);
    }
    if k < rest.len() {
        lemma_line_records_complete(text, rest, k);
        let i = choose|i: int|
            0 <= i < before.len() && (#[trigger] before[i]).line == line_of(
                text,
                rest[k].range.start as int,
            ) as u128 && before[i].hits >= rest[k].hits;
        assert(after[i].line == before[i].line && after[i].hits >= before[i].hits);
    }
}

/// Every record stems from a line marker on its line, and its count is that
/// of such a marker.
pub proof fn lemma_line_records_sound(text: Seq<char>, items: Seq<CoverageItem>, i: int)
    requires
        0 <= i < line_records(text, items).len(),
    ensures
        exists|k: int|
            0 <= k < items.len() && (#[trigger] items[k]).kind == ItemKind::Line && line_of(
                text,
                items[k].range.start as int,
            ) as u128 == line_records(text, items)[i].line && items[k].hits == line_records(
                text,
                items,
            )[i].hits,
    decreases items.len(),
{
    let rest = items.drop_last();
    let before = line_records(text, rest);
    let after = line_records(text, items);
    if i < before.len() && after[i] == before[i] {
        lemma_line_records_sound(text, rest, i);
    }
}

/// The number of line feeds among the first `to` bytes, counted on from the
/// first `from` bytes, which hold `seen` of them.
fn count_newlines(bytes: &[u8], from: usize, seen: usize, to: usize) -> (r: usize)
    requires
        from <= to <= bytes@.len(),
        seen == newlines(bytes@.take(from as int)),
    ensures
        r == newlines(bytes@.take(to as int)),
{
    let mut at: usize = from;
    let mut count: usize = seen;
    proof {
        lemma_newlines_bound(bytes@.take(from as int));
    }
    while at < to
        invariant
            from <= at <= to <= bytes@.len(),
            count == newlines(bytes@.take(at as int)),
            count <= at,
        decreases to - at,
    {
        proof {
            assert(bytes@.take(at + 1).drop_last() == bytes@.take(at as int));
        }
        if bytes[at] == 10u8 {
            count += 1;
        }
        at += 1;
    }
    count
}

/// The line of `text`, counted from 1, that holds the byte at `offset`.
pub fn line_number(text: &str, offset: usize) -> (r: u128)
    ensures
        r == line_of(text@, offset as int),
{
    let bytes = text.as_bytes();
    let to = if offset < bytes.len() {
        offset
    } else {
        bytes.len()
    };
    let count = count_newlines(bytes, 0, 0, to);
    count as u128 + 1
}

/// Notes a marker on `line` with `hits` executions.
fn note(records: &mut Vec<LineRecord>, line: u128, hits: u64)
    ensures
        final(records)@ == noted(old(records)@, line, hits),
{
    let mut i: usize = 0;
    while i < records.len() && records[i].line != line
        invariant
            i <= records.len(),
            records@ == old(records)@,
            forall|k: int| 0 <= k < i ==> (#[trigger] records[k]).line != line,
        decreases records.len() - i,
    {
        i += 1;
    }
    if i < records.len() {
        let mut j: usize = i;
        while j < records.len()
            invariant
                i <= j <= records.len(),
                records.len() == old(records).len(),
                forall|k: int| 0 <= k < i ==> (#[trigger] old(records)[k]).line != line,
                forall|k: int| 0 <= k < j ==> records[k] == noted(old(records)@, line, hits)[k],
                forall|k: int| j <= k < records.len() ==> records[k] == old(records)[k],
                has_line(old(records)@, line),
            decreases records.len() - j,
        {
            if records[j].line == line && records[j].hits < hits {
                records[j].hits = hits;
            }
            j += 1;
        }
    } else {
        records.push(LineRecord { line, hits });
    }
}

/// The line records of the file with the given text and items.
pub fn line_records_of(text: &str, items: &Vec<CoverageItem>) -> (r: Vec<LineRecord>)
    ensures
        r@ == line_records(text@, items@),
{
    let bytes = text.as_bytes();
    let mut records: Vec<LineRecord> = Vec::new();
    let mut at: usize = 0;
    let mut seen: usize = 0;
    let mut k: usize = 0;
    while k < items.len()
        invariant
            k <= items.len(),
            bytes@ == encode_utf8(text@),
            at <= bytes@.len(),
            seen == newlines(bytes@.take(at as int)),
            records@ == line_records(text@, items@.take(k as int)),
        decreases items.len() - k,
    {
        let item = items[k];
        proof {
            assert(items@.take(k + 1).drop_last() == items@.take(k as int));
        }
        if item.kind == ItemKind::Line {
            let to = if item.range.start < bytes.len() {
                item.range.start
            } else {
                bytes.len()
            };
            if to < at {
                seen = count_newlines(bytes, 0, 0, to);
            } else {
                seen = count_newlines(bytes, at, seen, to);
            }
            at = to;
            note(&mut records, seen as u128 + 1, item.hits);
        }
        k += 1;
    }
    assert(items@.take(items.len() as int) == items@);
    records
}

/// The records of one file: its path and its line records.
#[derive(Debug)]
pub struct FileRecord {
    pub path: String,
    pub lines: Vec<LineRecord>,
}

/// The records of all files of `map`, one per file, in the map's order.
pub fn lcov_records(map: &CoverageMap) -> (r: Vec<FileRecord>)
    ensures
        r.len() == map@.len(),
        forall|i: int|
            0 <= i < r.len() ==> (#[trigger] r[i]).path@ == map@[i].path && r[i].lines@
                == line_records(map@[i].text, map@[i].items),
        forall|i: int| 0 <= i < r.len() ==> distinct_lines((#[trigger] r[i]).lines@),
{
    let mut records: Vec<FileRecord> = Vec::new();
    let mut i: usize = 0;
    while i < map.len()
        invariant
            i <= map@.len(),
            records.len() == i,
            forall|k: int|
                0 <= k < i ==> (#[trigger] records[k]).path@ == map@[k].path && records[k].lines@
                    == line_records(map@[k].text, map@[k].items),
            forall|k: int| 0 <= k < i ==> distinct_lines((#[trigger] records[k]).lines@),
        decreases map@.len() - i,
    {
        match map.file(i) {
            Some(file) => {
                let lines = line_records_of(file.text.as_str(), file.items);
                proof {
                    lemma_line_records_distinct(file.text@, file.items@);
                }
                records.push(FileRecord { path: file.path.clone(), lines });
            },
            None => {},
        }
        i += 1;
    }
    records
}

/// The record of one line as text.
pub open spec fn lcov_line(record: LineRecord) -> Seq<char> {
    seq!['D', 'A', ':'] + decimal(record.line as nat) + seq![','] + decimal(record.hits as nat)
        + seq!['\n']
}

/// The first `n` of `records` as text.
pub open spec fn lcov_lines(records: Seq<LineRecord>, n: nat) -> Seq<char>
    decreases n,
{
    if n == 0 || n > records.len() {
        Seq::empty()
    } else {
        lcov_lines(records, (n - 1) as nat) + lcov_line(records[n - 1])
    }
}

/// The block of one file: the line that names the file, the file's line
/// records, and the line that ends the block.
pub open spec fn lcov_block(path: Seq<char>, records: Seq<LineRecord>) -> Seq<char> {
    seq!['S', 'F', ':'] + path + seq!['\n'] + lcov_lines(records, records.len()) + seq![
        'e',
        'n',
        'd',
        '_',
        'o',
        'f',
        '_',
        'r',
        'e',
        'c',
        'o',
        'r',
        'd',
        '\n',
    ]
}

/// The blocks of the first `n` files.
pub open spec fn lcov_blocks(files: Seq<FileView>, n: nat) -> Seq<char>
    decreases n,
{
    if n == 0 || n > files.len() {
        Seq::empty()
    } else {
        let file = files[n - 1];
        lcov_blocks(files, (n - 1) as nat) + lcov_block(
            file.path,
            line_records(file.text, file.items),
        )
    }
}

/// The whole report: one block per file, in the map's order.
pub open spec fn lcov_text(files: Seq<FileView>) -> Seq<char> {
    lcov_blocks(files, files.len())
}

fn push_lcov_block(out: &mut String, record: &FileRecord)
    ensures
        final(out)@ == old(out)@ + lcov_block(record.path@, record.lines@),
{
    proof {
        reveal_strlit("SF:");
        reveal_strlit("DA:");
        reveal_strlit(",");
        reveal_strlit("\n");
        reveal_strlit("end_of_record\n");
    }
    out.append("SF:");
    out.append(record.path.as_str());
    out.append("\n");
    let ghost head = out@;
    let mut k: usize = 0;
    while k < record.lines.len()
        invariant
            k <= record.lines.len(),
            out@ == head + lcov_lines(record.lines@, k as nat),
        decreases record.lines.len() - k,
    {
        let line = record.lines[k];
        proof {
            reveal_strlit("DA:");
            reveal_strlit(",");
            reveal_strlit("\n");
        }
        out.append("DA:");
        push_decimal(out, line.line);
        out.append(",");
        push_decimal(out, line.hits as u128);
        out.append("\n");
        k += 1;
    }
    out.append("end_of_record\n");
}

/// Renders `map` in the line-coverage exchange format.
pub fn render_lcov(map: &CoverageMap) -> (r: String)
    ensures
        r@ == lcov_text(map@),
{
    let records = lcov_records(map);
    let mut out = String::new();
    let mut i: usize = 0;
    while i < records.len()
        invariant
            i <= records.len(),
            records.len() == map@.len(),
            forall|k: int|
                0 <= k < records.len() ==> (#[trigger] records[k]).path@ == map@[k].path
                    && records[k].lines@ == line_records(map@[k].text, map@[k].items),
            out@ == lcov_blocks(map@, i as nat),
        decreases records.len() - i,
    {
        push_lcov_block(&mut out, &records[i]);
        i += 1;
    }
    out
}

} // verus!
