//! The changed-line ranges of every modified file, built from a diff.
use vstd::prelude::*;
use crate::ranges::{
    HunkRange, covers, is_number_in_ranges, is_number_in_sorted_ranges, ranges_are_sorted,
    ranges_sorted,
};

verus! {

/// How a file differs between the reference tree and the working tree.
#[derive(Clone, Copy, Debug, PartialEq, Eq, Structural)]
pub enum ChangeKind {
    Modified,
    Added,
    Deleted,
    Renamed,
    Copied,
    TypeChanged,
    Other,
}

/// One hunk of a diff, seen from the new revision of the file.
#[derive(Clone, Copy, Debug, PartialEq, Eq, Structural)]
pub struct Hunk {
    pub new_start: u32,
    pub new_lines: u32,
}

/// One file of a diff: its path in the new revision, how it changed and its
/// hunks, in the order the diff lists them.
#[derive(Clone, Debug)]
pub struct FileChange {
    pub path: String,
    pub kind: ChangeKind,
    pub hunks: Vec<Hunk>,
}

/// The range a hunk covers: from its first new line to the line just past it.
pub open spec fn hunk_range(h: Hunk) -> HunkRange {
    (h.new_start, (h.new_start + h.new_lines) as u32)
}

/// The ranges of a sequence of hunks, in the same order.
pub open spec fn ranges_of_hunks(hunks: Seq<Hunk>) -> Seq<HunkRange> {
    hunks.map_values(|h: Hunk| hunk_range(h))
}

/// The end of the hunk's range fits in a `u32`.
pub open spec fn hunk_fits(h: Hunk) -> bool {
    h.new_start + h.new_lines <= u32::MAX
}

/// The ranges a map holds for `path`, or none.
pub open spec fn ranges_for(m: Map<Seq<char>, Seq<HunkRange>>, path: Seq<char>) -> Seq<HunkRange> {
    if m.contains_key(path) {
        m[path]
    } else {
        Seq::empty()
    }
}

/// `m` with the ranges of `hunks` appended to those of `path`; a path gets
/// an entry only once it has a hunk.
pub open spec fn with_hunks(
    m: Map<Seq<char>, Seq<HunkRange>>,
    path: Seq<char>,
    hunks: Seq<Hunk>,
) -> Map<Seq<char>, Seq<HunkRange>> {
    if hunks.len() == 0 {
        m
    } else {
        m.insert(path, ranges_for(m, path) + ranges_of_hunks(hunks))
    }
}

/// `m` after one file of the diff: only a modified file adds ranges.
pub open spec fn with_change(m: Map<Seq<char>, Seq<HunkRange>>, c: FileChange) -> Map<
    Seq<char>,
    Seq<HunkRange>,
> {
    if c.kind == ChangeKind::Modified {
        with_hunks(m, c.path@, c.hunks@)
    } else {
        m
    }
}

/// The hunk map of a whole diff, file by file.
pub open spec fn hunk_map_of(changes: Seq<FileChange>) -> Map<Seq<char>, Seq<HunkRange>>
    decreases changes.len(),
{
    if changes.len() == 0 {
        Map::empty()
    } else {
        with_change(hunk_map_of(changes.drop_last()), changes.last())
    }
}

/// Every hunk of every modified file has a range end that fits in a `u32`.
pub open spec fn changes_fit(changes: Seq<FileChange>) -> bool {
    forall|i: int, j: int|
        0 <= i < changes.len() && changes[i].kind == ChangeKind::Modified && 0 <= j
            < changes[i].hunks@.len() ==> hunk_fits(#[trigger] changes[i].hunks@[j])
}

/// From file path to that file's changed-line ranges.
pub struct HunkMap {
    paths: Vec<String>,
    ranges: Vec<Vec<HunkRange>>,
    sorted: Vec<bool>,
    contents: Ghost<Map<Seq<char>, Seq<HunkRange>>>,
}

impl View for HunkMap {
    type V = Map<Seq<char>, Seq<HunkRange>>;

    closed spec fn view(&self) -> Map<Seq<char>, Seq<HunkRange>> {
        self.contents@
    }
}

impl HunkMap {
    /// Each path is stored once, next to its ranges and whether they are
    /// sorted, and the map is what the vectors hold.
    pub closed spec fn wf(&self) -> bool {
        &&& self.paths@.len() == self.ranges@.len()
        &&& self.sorted@.len() == self.ranges@.len()
        &&& forall|i: int|
            0 <= i < self.ranges@.len() ==> #[trigger] self.sorted@[i] == ranges_sorted(
                self.ranges@[i]@,
            )
        &&& forall|i: int, j: int|
            0 <= i < j < self.paths@.len() ==> self.paths@[i]@ != self.paths@[j]@
        &&& forall|p: Seq<char>|
            #[trigger] self.contents@.contains_key(p) <==> exists|i: int|
                0 <= i < self.paths@.len() && self.paths@[i]@ == p
        &&& forall|i: int|
            0 <= i < self.paths@.len() ==> self.contents@[#[trigger] self.paths@[i]@]
                == self.ranges@[i]@
    }

    /// An empty map.
    pub fn new() -> (r: HunkMap)
        ensures
            r.wf(),
            r@ == Map::<Seq<char>, Seq<HunkRange>>::empty(),
    {
        HunkMap {
            paths: Vec::new(),
            ranges: Vec::new(),
            sorted: Vec::new(),
            contents: Ghost(Map::empty()) }
    }

    fn find(&self, path: &String) -> (r: Option<usize>)
        requires
            self.wf(),
        ensures
            match r {
                Some(i) => i < self.paths@.len() && self.paths@[i as int]@ == path@,
                None => !self@.contains_key(path@),
            },
    {
        let mut i: usize = 0;
        while i < self.paths.len()
            invariant
                self.wf(),
                i <= self.paths@.len(),
                forall|j: int| 0 <= j < i ==> self.paths@[j]@ != path@,
            decreases self.paths@.len() - i,
        {
            if self.paths[i] == *path {
                return Some(i);
            }
            i = i + 1;
        }
        None
    }

    /// Appends `range` to the ranges of `path`, giving the path an entry if it
    /// has none.
    pub fn add_range(&mut self, path: &str, range: HunkRange)
        requires
            old(self).wf(),
        ensures
            final(self).wf(),
            final(self)@ == old(self)@.insert(path@, ranges_for(old(self)@, path@) + seq![range]),
    {
        let key = String::from_str(path);
        match self.find(&key) {
            Some(i) => {
                let mut rs = self.ranges.remove(i);
                rs.push(range);
                let in_order = ranges_are_sorted(rs.as_slice());
                self.ranges.insert(i, rs);
                self.sorted.remove(i);
                self.sorted.insert(i, in_order);
                self.contents = Ghost(self.contents@.insert(path@, ranges_for(self.contents@, path@) + seq![range]));
                assert forall|j: int| 0 <= j < self.paths@.len() implies self.contents@[#[trigger] self.paths@[j]@]
                    == self.ranges@[j]@ by {
                    if j != i {
                        assert(self.paths@[j]@ != path@);
                    }
                }
            },
            None => {
                self.paths.push(key);
                let mut rs: Vec<HunkRange> = Vec::new();
                rs.push(range);
                let in_order = ranges_are_sorted(rs.as_slice());
                self.ranges.push(rs);
                self.sorted.push(in_order);
                self.contents = Ghost(self.contents@.insert(path@, seq![range]));
                assert(seq![range] =~= ranges_for(old(self)@, path@) + seq![range]);
                assert forall|p: Seq<char>|
                    #[trigger] self.contents@.contains_key(p) <==> exists|i: int|
                        0 <= i < self.paths@.len() && self.paths@[i]@ == p by {
                    if p != path@ && self.contents@.contains_key(p) {
                        let i = choose|i: int| 0 <= i < old(self).paths@.len() && old(self).paths@[i]@ == p;
                        assert(self.paths@[i]@ == p);
                    }
                    if p == path@ {
                        assert(self.paths@[self.paths@.len() - 1]@ == p);
                    }
                }
            },
        }
    }

    /// Whether some range of `path` holds `number`. Sorted ranges are
    /// searched by halves, others scanned in full.
    pub fn contains(&self, path: &str, number: u32) -> (r: bool)
        requires
            self.wf(),
        ensures
            r == (self@.contains_key(path@) && covers(self@[path@], number as int)),
    {
        let key = String::from_str(path);
        match self.find(&key) {
            Some(i) => {
                if self.sorted[i] {
                    is_number_in_sorted_ranges(self.ranges[i].as_slice(), number)
                } else {
                    is_number_in_ranges(self.ranges[i].as_slice(), number)
                }
            },
            None => false,
        }
    }

    /// The ranges of `path`, if it has any.
    pub fn get(&self, path: &str) -> (r: Option<&Vec<HunkRange>>)
        requires
            self.wf(),
        ensures
            match r {
                Some(v) => self@.contains_key(path@) && v@ == self@[path@],
                None => !self@.contains_key(path@),
            },
    {
        let key = String::from_str(path);
        match self.find(&key) {
            Some(i) => Some(&self.ranges[i]),
            None => None,
        }
    }
}

/// Builds the hunk map of a diff: every hunk of a modified file adds the
/// range `(new_start, new_start + new_lines)` to that file's ranges, in diff
/// order; files of any other kind add nothing.
pub fn build_hunk_map(changes: &Vec<FileChange>) -> (r: HunkMap)
    requires
        changes_fit(changes@),
    ensures
        r.wf(),
        r@ == hunk_map_of(changes@),
{
    let mut map = HunkMap::new();
    let mut i: usize = 0;
    while i < changes.len()
        invariant
            i <= changes@.len(),
            changes_fit(changes@),
            map.wf(),
            map@ == hunk_map_of(changes@.take(i as int)),
        decreases changes@.len() - i,
    {
        let change = &changes[i];
        proof {
            assert(changes@.take(i + 1).drop_last() =~= changes@.take(i as int));
        }
        let ghost before = map@;
        match change.kind {
            ChangeKind::Modified => {
                let mut j: usize = 0;
                while j < change.hunks.len()
                    invariant
                        i < changes@.len(),
                        change == changes@[i as int],
                        change.kind == ChangeKind::Modified,
                        changes_fit(changes@),
                        j <= change.hunks@.len(),
                        map.wf(),
                        map@ == with_hunks(before, change.path@, change.hunks@.take(j as int)),
                    decreases change.hunks@.len() - j,
                {
                    let h = change.hunks[j];
                    assert(hunk_fits(changes@[i as int].hunks@[j as int]));
                    let range: HunkRange = (h.new_start, h.new_start + h.new_lines);
                    map.add_range(change.path.as_str(), range);
                    proof {
                        assert(ranges_of_hunks(change.hunks@.take(j + 1)) =~= ranges_of_hunks(
                            change.hunks@.take(j as int),
                        ) + seq![range]);
                        if j == 0 {
                            assert(ranges_of_hunks(change.hunks@.take(0)) =~= Seq::empty());
                            assert(ranges_for(before, change.path@) + seq![range] =~= ranges_for(
                                before,
                                change.path@,
                            ) + ranges_of_hunks(change.hunks@.take(1)));
                        } else {
                            assert(ranges_for(before, change.path@) + ranges_of_hunks(
                                change.hunks@.take(j as int),
                            ) + seq![range] =~= ranges_for(before, change.path@)
                                + ranges_of_hunks(change.hunks@.take(j + 1)));
                        }
                        assert(map@ =~= with_hunks(
                            before,
                            change.path@,
                            change.hunks@.take(j + 1),
                        ));
                    }
                    j = j + 1;
                }
                assert(change.hunks@.take(j as int) =~= change.hunks@);
            },
            _ => {},
        }
        i = i + 1;
    }
    assert(changes@.take(i as int) =~= changes@);
    map
}

/// Every hunk of every modified file has a range end that fits in a `u32`,
/// as `build_hunk_map` asks.
pub fn all_hunks_fit(changes: &Vec<FileChange>) -> (r: bool)
    ensures
        r == changes_fit(changes@),
{
    let mut i: usize = 0;
    while i < changes.len()
        invariant
            i <= changes@.len(),
            forall|i2: int, j: int|
                0 <= i2 < i && changes@[i2].kind == ChangeKind::Modified && 0 <= j
                    < changes@[i2].hunks@.len() ==> hunk_fits(#[trigger] changes@[i2].hunks@[j]),
        decreases changes@.len() - i,
    {
        if changes[i].kind == ChangeKind::Modified {
            let mut j: usize = 0;
            while j < changes[i].hunks.len()
                invariant
                    i < changes@.len(),
                    changes@[i as int].kind == ChangeKind::Modified,
                    j <= changes@[i as int].hunks@.len(),
                    forall|j2: int| 0 <= j2 < j ==> hunk_fits(#[trigger] changes@[i as int].hunks@[j2]),
                decreases changes@[i as int].hunks@.len() - j,
            {
                let h = changes[i].hunks[j];
                if h.new_start > u32::MAX - h.new_lines {
                    return false;
                }
                j = j + 1;
            }
        }
        i = i + 1;
    }
    true
}

} // verus!
