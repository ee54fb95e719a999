//! Gives the entries of a unit, read one after the other, their places in
//! the tree.

use crate::dwarf::Entry;
use vstd::prelude::*;

verus! {

/// The level of entry `j`: the first entry stands at level zero, and every
/// other one `steps[j]` levels below the entry before it.
pub open spec fn level(steps: Seq<isize>, j: int) -> int
    decreases j,
{
    if j <= 0 {
        0
    } else {
        level(steps, j - 1) + steps[j]
    }
}

/// Whether entry `j` has a place in the tree under the first entry: there
/// is a step for it, it stands at most one level below the entry before it,
/// and below the first entry.
pub open spec fn fits(steps: Seq<isize>, j: int) -> bool {
    0 < j < steps.len() && steps[j] <= 1 && level(steps, j) >= 1
}

/// The position, from `j` on, of the first of `count` entries that has no
/// place in the tree; `count` where all have one.
pub open spec fn reach(steps: Seq<isize>, count: int, j: int) -> int
    decreases count - j,
{
    if j >= count {
        count
    } else if !fits(steps, j) {
        j
    } else {
        reach(steps, count, j + 1)
    }
}

/// How many of `count` entries form the tree: the first entry and all that
/// follow it up to the first that has no place.
pub open spec fn tree_len(steps: Seq<isize>, count: int) -> int {
    if count <= 0 {
        0
    } else {
        reach(steps, count, 1)
    }
}

/// The last entry at or before position `k` that stands at level `target`;
/// -1 where there is none.
pub open spec fn seek(steps: Seq<isize>, target: int, k: int) -> int
    decreases k + 1,
{
    if k < 0 {
        -1
    } else if level(steps, k) == target {
        k
    } else {
        seek(steps, target, k - 1)
    }
}

/// The parent of entry `j`: the last entry before it that stands one level
/// higher.
pub open spec fn parent(steps: Seq<isize>, j: int) -> int {
    seek(steps, level(steps, j) - 1, j - 1)
}

/// The children of entry `i` among the first `m` entries, in their order.
pub open spec fn kids(steps: Seq<isize>, i: int, m: int) -> Seq<usize>
    decreases m,
{
    if m <= 0 || m <= i + 1 {
        Seq::empty()
    } else if parent(steps, m - 1) == i {
        kids(steps, i, m - 1).push((m - 1) as usize)
    } else {
        kids(steps, i, m - 1)
    }
}

/// What `seek` finds lies at or before the position it started from.
pub proof fn lemma_seek_bounds(steps: Seq<isize>, target: int, k: int)
    ensures
        -1 <= seek(steps, target, k) <= k || (k < -1 && seek(steps, target, k) == -1),
        seek(steps, target, k) >= 0 ==> level(steps, seek(steps, target, k)) == target,
    decreases k + 1,
{
    if k >= 0 && level(steps, k) != target {
        lemma_seek_bounds(steps, target, k - 1);
    }
}

/// Every child of entry `i` stands after it, among the first `m` entries.
pub proof fn lemma_kids_bounds(steps: Seq<isize>, i: int, m: int)
    requires
        m <= usize::MAX,
    ensures
        forall|j: int| 0 <= j < kids(steps, i, m).len() ==> i < #[trigger] kids(steps, i, m)[j] < m,
    decreases m,
{
    if m > 0 && m > i + 1 {
        lemma_kids_bounds(steps, i, m - 1);
        let before = kids(steps, i, m - 1);
        assert forall|j: int| 0 <= j < kids(steps, i, m).len() implies i < #[trigger] kids(
            steps,
            i,
            m,
        )[j] < m by {
            if j < before.len() {
                assert(kids(steps, i, m)[j] == before[j]);
            }
        }
    }
}

/// Gives the entries their places in the tree. `steps[j]` says how many
/// levels entry `j` stands below the entry before it. The entries from the
/// first without a place on are dropped, and every entry that stays gets
/// its children appended to those it has.
pub fn link(entries: &mut Vec<Entry>, steps: &Vec<isize>)
    ensures
        final(entries)@.len() == tree_len(steps@, old(entries)@.len() as int),
        final(entries)@.len() <= old(entries)@.len(),
        forall|i: int|
            0 <= i < final(entries)@.len() ==> {
                &&& (#[trigger] final(entries)@[i]).offset == old(entries)@[i].offset
                &&& final(entries)@[i].tag == old(entries)@[i].tag
                &&& final(entries)@[i].has_children == old(entries)@[i].has_children
                &&& final(entries)@[i].attrs == old(entries)@[i].attrs
                &&& final(entries)@[i].children@ == old(entries)@[i].children@ + kids(
                    steps@,
                    i,
                    final(entries)@.len() as int,
                )
            },
{
    let count: usize = entries.len();
    if count == 0 {
        return ;
    }
    // The last entry so far at each level from the first entry's down to
    // that of the entry before the next one.
    let mut path: Vec<usize> = Vec::new();
    path.push(0);
    let mut m: usize = 1;
    proof {
        assert forall|i: int| 0 <= i < count implies (#[trigger] entries@[i]).children@
            == old(entries)@[i].children@ + kids(steps@, i, 1) by {
            assert(old(entries)@[i].children@ + Seq::<usize>::empty() =~= old(
                entries,
            )@[i].children@);
        }
    }
    while m < count
        invariant
            1 <= m <= count,
            count == entries@.len(),
            count == old(entries)@.len(),
            reach(steps@, count as int, 1) == reach(steps@, count as int, m as int),
            path@.len() == level(steps@, m - 1) + 1,
            forall|d: int| 0 <= d < path@.len() ==> (#[trigger] path@[d]) as int == seek(steps@, d, m - 1),
            forall|i: int|
                0 <= i < count ==> {
                    &&& (#[trigger] entries@[i]).offset == old(entries)@[i].offset
                    &&& entries@[i].tag == old(entries)@[i].tag
                    &&& entries@[i].has_children == old(entries)@[i].has_children
                    &&& entries@[i].attrs == old(entries)@[i].attrs
                    &&& entries@[i].children@ == old(entries)@[i].children@ + kids(
                        steps@,
                        i,
                        m as int,
                    )
                },
        ensures
            1 <= m <= count,
            count == entries@.len(),
            m == reach(steps@, count as int, 1),
            forall|i: int|
                0 <= i < count ==> {
                    &&& (#[trigger] entries@[i]).offset == old(entries)@[i].offset
                    &&& entries@[i].tag == old(entries)@[i].tag
                    &&& entries@[i].has_children == old(entries)@[i].has_children
                    &&& entries@[i].attrs == old(entries)@[i].attrs
                    &&& entries@[i].children@ == old(entries)@[i].children@ + kids(
                        steps@,
                        i,
                        m as int,
                    )
                },
        decreases count - m,
    {
        if m >= steps.len() {
            break ;
        }
        let step: isize = steps[m];
        if step > 1 {
            break ;
        }
        let here: i128 = path.len() as i128 - 1 + step as i128;
        if here < 1 {
            break ;
        }
        let ghost above = path@;
        path.truncate(here as usize);
        let up: usize = path[path.len() - 1];
        proof {
            lemma_seek_bounds(steps@, here - 1, m - 1);
            assert(up as int == parent(steps@, m as int));
            assert forall|d: int| 0 <= d < path@.len() implies (#[trigger] path@[d]) as int
                == seek(steps@, d, m as int) by {
                assert(path@[d] == above[d]);
            }
        }
        let ghost before = entries@;
        entries[up].children.push(m);
        path.push(m);
        proof {
            assert forall|i: int| 0 <= i < count implies (#[trigger] entries@[i]).children@
                == old(entries)@[i].children@ + kids(steps@, i, m + 1) by {
                if i == up {
                    assert(entries@[i].children@ == before[i].children@.push(m));
                    assert((old(entries)@[i].children@ + kids(steps@, i, m as int)).push(m)
                        =~= old(entries)@[i].children@ + kids(steps@, i, m as int).push(m));
                } else {
                    assert(entries@[i] == before[i]);
                }
            }
            assert forall|i: int| 0 <= i < count implies (#[trigger] entries@[i]).attrs == old(
                entries,
            )@[i].attrs && entries@[i].offset == old(entries)@[i].offset && entries@[i].tag
                == old(entries)@[i].tag && entries@[i].has_children == old(
                entries,
            )@[i].has_children by {
                if i != up {
                    assert(entries@[i] == before[i]);
                }
            }
        }
        m += 1;
    }
    entries.truncate(m);
}

} // verus!
