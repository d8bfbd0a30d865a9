//! The summary of a coverage map: how many items of each file were hit, and
//! how many of all.

use vstd::prelude::*;
use vstd::string::StringExecFns;
use crate::identity::CompilerVersion;
use crate::item::CoverageItem;
use crate::map::{CoverageMap, FileView};
use crate::text::{decimal, push_decimal};

verus! {

/// How many of `items` were executed at least once.
pub open spec fn hit_count(items: Seq<CoverageItem>) -> nat
    decreases items.len(),
{
    if items.len() == 0 {
        0
    } else {
        hit_count(items.drop_last()) + if items.last().hits > 0 {
            1nat
        } else {
            0nat
        }
    }
}

/// How many items of all `files` were executed at least once.
pub open spec fn total_hit(files: Seq<FileView>) -> nat
    decreases files.len(),
{
    if files.len() == 0 {
        0
    } else {
        total_hit(files.drop_last()) + hit_count(files.last().items)
    }
}

/// How many items `files` hold.
pub open spec fn total_items(files: Seq<FileView>) -> nat
    decreases files.len(),
{
    if files.len() == 0 {
        0
    } else {
        total_items(files.drop_last()) + files.last().items.len()
    }
}

/// No more items are hit than there are.
pub proof fn lemma_hit_count_bound(items: Seq<CoverageItem>)
    ensures
        hit_count(items) <= items.len(),
    decreases items.len(),
{
    if items.len() > 0 {
        lemma_hit_count_bound(items.drop_last());
    }
}

/// The line of the summary for one file.
#[derive(Debug)]
pub struct FileSummary {
    pub path: String,
    pub version: CompilerVersion,
    /// The number of items with a hit count above zero.
    pub hit: usize,
    /// The number of items.
    pub total: usize,
}

/// The summary of a coverage map: one line per file, in the map's order, and
/// the totals.
#[derive(Debug)]
pub struct Summary {
    pub files: Vec<FileSummary>,
    pub hit: u128,
    pub total: u128,
}

/// `summary` reconciles with `files`: line by line and in the totals.
pub open spec fn summarizes(summary: Summary, files: Seq<FileView>) -> bool {
    &&& summary.files.len() == files.len()
    &&& forall|i: int|
        0 <= i < files.len() ==> {
            &&& (#[trigger] summary.files[i]).path@ == files[i].path
            &&& summary.files[i].version@ == files[i].version
            &&& summary.files[i].hit == hit_count(files[i].items)
            &&& summary.files[i].total == files[i].items.len()
        }
    &&& summary.hit == total_hit(files)
    &&& summary.total == total_items(files)
}

/// Counts the items that were hit.
pub fn count_hit(items: &Vec<CoverageItem>) -> (r: usize)
    ensures
        r == hit_count(items@),
{
    let mut count: usize = 0;
    let mut j: usize = 0;
    while j < items.len()
        invariant
            j <= items.len(),
            count == hit_count(items@.take(j as int)),
            count <= j,
        decreases items.len() - j,
    {
        proof {
            assert(items@.take(j + 1).drop_last() == items@.take(j as int));
        }
        if items[j].is_hit() {
            count += 1;
        }
        j += 1;
    }
    assert(items@.take(items.len() as int) == items@);
    count
}

/// Summarizes `map`.
pub fn summarize(map: &CoverageMap) -> (r: Summary)
    ensures
        summarizes(r, map@),
{
    let mut files: Vec<FileSummary> = Vec::new();
    let mut hit: u128 = 0;
    let mut total: u128 = 0;
    let mut i: usize = 0;
    assert(usize::MAX * usize::MAX <= u128::MAX) by (nonlinear_arith)
        requires
            usize::MAX <= 0xffff_ffff_ffff_ffff,
            u128::MAX == 0xffff_ffff_ffff_ffff_ffff_ffff_ffff_ffff,
    ;
    while i < map.len()
        invariant
            i <= map@.len(),
            files.len() == i,
            forall|k: int|
                0 <= k < i ==> {
                    &&& (#[trigger] files[k]).path@ == map@[k].path
                    &&& files[k].version@ == map@[k].version
                    &&& files[k].hit == hit_count(map@[k].items)
                    &&& files[k].total == map@[k].items.len()
                },
            hit == total_hit(map@.take(i as int)),
            total == total_items(map@.take(i as int)),
            total <= i * usize::MAX,
            hit <= total,
            usize::MAX * usize::MAX <= u128::MAX,
        decreases map@.len() - i,
    {
        match map.file(i) {
            Some(file) => {
                proof {
                    assert(map@.take(i + 1).drop_last() == map@.take(i as int));
                    lemma_hit_count_bound(file.items@);
                    assert((i + 1) * usize::MAX <= usize::MAX * usize::MAX) by (nonlinear_arith)
                        requires
                            i + 1 <= usize::MAX,
                    ;
                    assert(i * usize::MAX + usize::MAX == (i + 1) * usize::MAX)
                        by (nonlinear_arith);
                }
                let file_hit = count_hit(file.items);
                let file_total = file.items.len();
                hit = hit + file_hit as u128;
                total = total + file_total as u128;
                files.push(
                    FileSummary {
                        path: file.path.clone(),
                        version: file.version.duplicate(),
                        hit: file_hit,
                        total: file_total,
                    },
                );
            },
            None => {},
        }
        i += 1;
    }
    assert(map@.take(map@.len() as int) == map@);
    Summary { files, hit, total }
}

/// The summary's line for one file: its path, then the number of its items
/// that were hit and the number of its items.
pub open spec fn summary_line(path: Seq<char>, hit: nat, total: nat) -> Seq<char> {
    path + seq![':', ' '] + decimal(hit) + seq!['/'] + decimal(total) + seq!['\n']
}

/// The lines of the first `n` files.
pub open spec fn summary_lines(files: Seq<FileView>, n: nat) -> Seq<char>
    decreases n,
{
    if n == 0 || n > files.len() {
        Seq::empty()
    } else {
        let file = files[n - 1];
        summary_lines(files, (n - 1) as nat) + summary_line(
            file.path,
            hit_count(file.items),
            file.items.len(),
        )
    }
}

/// The summary as text: a line for each file, then the line of the totals.
pub open spec fn summary_text(files: Seq<FileView>) -> Seq<char> {
    summary_lines(files, files.len()) + summary_line(
        seq!['T', 'o', 't', 'a', 'l'],
        total_hit(files),
        total_items(files),
    )
}

fn push_summary_line(out: &mut String, path: &str, hit: u128, total: u128)
    ensures
        final(out)@ == old(out)@ + summary_line(path@, hit as nat, total as nat),
{
    proof {
        reveal_strlit(": ");
        reveal_strlit("/");
        reveal_strlit("\n");
    }
    out.append(path);
    out.append(": ");
    push_decimal(out, hit);
    out.append("/");
    push_decimal(out, total);
    out.append("\n");
}

/// Renders the summary of `map`.
pub fn render_summary(map: &CoverageMap) -> (r: String)
    ensures
        r@ == summary_text(map@),
{
    let summary = summarize(map);
    let mut out = String::new();
    let mut i: usize = 0;
    while i < summary.files.len()
        invariant
            i <= summary.files.len(),
            summarizes(summary, map@),
            out@ == summary_lines(map@, i as nat),
        decreases summary.files.len() - i,
    {
        let line = &summary.files[i];
        push_summary_line(&mut out, line.path.as_str(), line.hit as u128, line.total as u128);
        i += 1;
    }
    proof {
        reveal_strlit("Total");
    }
    push_summary_line(&mut out, "Total", summary.hit, summary.total);
    out
}

} // verus!
