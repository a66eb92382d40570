//! Deciding, line by line, which lint output lines touch changed code.
use vstd::prelude::*;
use crate::hunk_map::HunkMap;
use crate::location::{lint_location, parse_lint_location, remove_ansi_colors, strip_colors};
use crate::ranges::{HunkRange, covers};

verus! {

/// A line passes when, with its color codes removed, it has a location whose
/// file has ranges and one of them holds the line number.
pub open spec fn line_selected(m: Map<Seq<char>, Seq<HunkRange>>, line: Seq<char>) -> bool {
    match lint_location(strip_colors(line)) {
        Some((path, number)) => m.contains_key(path) && covers(m[path], number),
        None => false,
    }
}

/// The lines that pass, in input order.
pub open spec fn selected_lines(m: Map<Seq<char>, Seq<HunkRange>>, lines: Seq<Seq<char>>) -> Seq<
    Seq<char>,
>
    decreases lines.len(),
{
    if lines.len() == 0 {
        Seq::empty()
    } else {
        let rest = selected_lines(m, lines.drop_last());
        if line_selected(m, lines.last()) {
            rest.push(lines.last())
        } else {
            rest
        }
    }
}

/// Filtering is idempotent: the lines that passed all pass again, so a second
/// run over the output gives the same output.
pub proof fn filtering_is_idempotent(m: Map<Seq<char>, Seq<HunkRange>>, lines: Seq<Seq<char>>)
    ensures
        selected_lines(m, selected_lines(m, lines)) == selected_lines(m, lines),
    decreases lines.len(),
{
    if lines.len() > 0 {
        filtering_is_idempotent(m, lines.drop_last());
        let rest = selected_lines(m, lines.drop_last());
        if line_selected(m, lines.last()) {
            assert(rest.push(lines.last()).drop_last() =~= rest);
        }
    }
}

/// Two runs of the filter over the same map and input give the same output:
/// what `filter_lines` returns is fixed by the map and the lines alone.
pub proof fn filter_runs_agree(
    m: Map<Seq<char>, Seq<HunkRange>>,
    lines: Seq<Seq<char>>,
    first: Seq<Seq<char>>,
    second: Seq<Seq<char>>,
)
    requires
        first == selected_lines(m, lines),
        second == selected_lines(m, lines),
    ensures
        first == second,
        first.len() > 0 <==> second.len() > 0,
{
}

/// The text of each string.
pub open spec fn texts(v: Seq<String>) -> Seq<Seq<char>> {
    v.map_values(|s: String| s@)
}

/// Whether `line` touches a changed range.
pub fn line_matches(map: &HunkMap, line: &str) -> (r: bool)
    requires
        map.wf(),
    ensures
        r == line_selected(map@, line@),
{
    let plain = remove_ansi_colors(line);
    match parse_lint_location(plain.as_str()) {
        Some((path, number)) => map.contains(path.as_str(), number),
        None => false,
    }
}

/// The outcome of filtering a run of lines.
pub struct FilterOutcome {
    /// The lines that passed, unchanged and in input order.
    pub lines: Vec<String>,
    /// Whether any line passed.
    pub matched: bool,
}

impl FilterOutcome {
    /// The process status that reports the outcome: 1 where a line passed,
    /// 0 where none did.
    pub fn exit_code(&self) -> (r: i32)
        ensures
            r == (if self.matched { 1i32 } else { 0i32 }),
    {
        if self.matched {
            1
        } else {
            0
        }
    }
}

/// Keeps the lines that touch a changed range, in order and unchanged.
pub fn filter_lines(map: &HunkMap, lines: &Vec<String>) -> (r: FilterOutcome)
    requires
        map.wf(),
    ensures
        r.matched == (r.lines@.len() > 0),
        texts(r.lines@) == selected_lines(map@, texts(lines@)),
{
    let mut out: Vec<String> = Vec::new();
    let mut matched = false;
    let mut i: usize = 0;
    while i < lines.len()
        invariant
            map.wf(),
            i <= lines@.len(),
            matched == (out@.len() > 0),
            texts(out@) == selected_lines(map@, texts(lines@.take(i as int))),
        decreases lines@.len() - i,
    {
        proof {
            assert(texts(lines@.take(i + 1)).drop_last() =~= texts(lines@.take(i as int)));
            assert(texts(lines@.take(i + 1)).last() == lines@[i as int]@);
        }
        if line_matches(map, lines[i].as_str()) {
            let ghost before = out@;
            out.push(lines[i].clone());
            proof {
                assert(texts(out@) =~= texts(before).push(lines@[i as int]@));
            }
            matched = true;
        }
        i = i + 1;
    }
    assert(lines@.take(i as int) =~= lines@);
    FilterOutcome { lines: out, matched }
}

} // verus!
