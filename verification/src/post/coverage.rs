//! Every file within reach is collected, and collected once.
//!
//! A file below a directory is named by its position: the index of the
//! entry to follow at each level, down to the file itself. The lemmas here
//! list the positions from which the collected files were taken, in the
//! order of the files, and show that the list holds every position within
//! reach and none twice.

use super::descent::{
    directory_files, entry_file, listed_files, nested_files, subdirectory_files, FileView,
    MAX_DEPTH,
};
use super::naming::{date_prefix, directory_kind};
use super::{archive_groups, directory_groups, entry_group};
use crate::tree::{Entry, EntryKind};
use vstd::prelude::*;

verus! {

/// The entries of a directory that was read; none for any other entry.
pub open spec fn children(entry: Entry) -> Seq<Entry> {
    match entry.kind {
        EntryKind::Directory { entries } => entries@,
        _ => Seq::empty(),
    }
}

/// `position` leads from a directory at `level` that holds `entries` to a
/// regular file that the descent reads: every entry on the way is visible,
/// every one but the last is a directory that was read, and the directory
/// that holds the file lies within the depth limit.
pub open spec fn reaches_file(entries: Seq<Entry>, level: nat, position: Seq<int>) -> bool
    decreases position.len(),
{
    if position.len() == 0 {
        false
    } else {
        let entry = entries[position[0]];
        &&& 0 <= position[0] < entries.len()
        &&& level <= MAX_DEPTH
        &&& entry.visible()
        &&& if position.len() == 1 {
            entry.kind is File
        } else {
            entry.kind is Directory && reaches_file(children(entry), level + 1, position.skip(1))
        }
    }
}

/// The file reference of the file at `position` below `entries`.
pub open spec fn file_at(entries: Seq<Entry>, position: Seq<int>) -> FileView
    decreases position.len(),
{
    if position.len() <= 1 {
        entry_file(entries[position[0]])
    } else {
        file_at(children(entries[position[0]]), position.skip(1))
    }
}

/// Each of `positions` with `i` put in front.
pub open spec fn prefixed(i: int, positions: Seq<Seq<int>>) -> Seq<Seq<int>> {
    positions.map_values(|position: Seq<int>| seq![i] + position)
}

/// The positions of the visible regular files among `entries`, in order.
pub open spec fn listed_positions(entries: Seq<Entry>) -> Seq<Seq<int>>
    decreases entries.len(),
{
    if entries.len() == 0 {
        Seq::empty()
    } else {
        let before = listed_positions(entries.drop_last());
        if entries.last().visible() && entries.last().kind is File {
            before.push(seq![entries.len() - 1])
        } else {
            before
        }
    }
}

/// The positions of the files collected from a directory at `level` that
/// holds `entries`, in the order of [`directory_files`].
pub open spec fn directory_positions(entries: Seq<Entry>, level: nat) -> Seq<Seq<int>>
    decreases MAX_DEPTH + 1 - level, 2nat, 0nat,
{
    if level > MAX_DEPTH {
        Seq::empty()
    } else {
        listed_positions(entries) + nested_positions(entries, level + 1)
    }
}

/// The positions of the files collected below the subdirectories among
/// `entries`, which lie at `level`, in the order of [`nested_files`].
pub open spec fn nested_positions(entries: Seq<Entry>, level: nat) -> Seq<Seq<int>>
    decreases MAX_DEPTH + 2 - level, 1nat, entries.len(),
{
    if entries.len() == 0 {
        Seq::empty()
    } else {
        nested_positions(entries.drop_last(), level) + child_positions(
            entries.last(),
            entries.len() - 1,
            level,
        )
    }
}

/// The positions of the files collected below `entry`, the `i`-th entry of
/// its directory, taken as a directory at `level`.
pub open spec fn child_positions(entry: Entry, i: int, level: nat) -> Seq<Seq<int>>
    decreases MAX_DEPTH + 2 - level, 0nat, 0nat,
{
    if entry.visible() && level <= MAX_DEPTH && entry.kind is Directory {
        prefixed(i, directory_positions(children(entry), level))
    } else {
        Seq::empty()
    }
}

/// A position stands in a prefixed list exactly if it begins with the
/// prefix and its rest stands in the list.
pub proof fn lemma_prefixed_contains(i: int, positions: Seq<Seq<int>>, position: Seq<int>)
    ensures
        prefixed(i, positions).contains(position) <==> position.len() > 0 && position[0] == i
            && positions.contains(position.skip(1)),
{
    let list = prefixed(i, positions);
    if list.contains(position) {
        let k = choose|k: int| 0 <= k < list.len() && list[k] == position;
        assert(position.skip(1) =~= positions[k]);
    }
    if position.len() > 0 && position[0] == i && positions.contains(position.skip(1)) {
        let k = choose|k: int| 0 <= k < positions.len() && positions[k] == position.skip(1);
        assert(list[k] =~= position);
    }
}

/// Putting a prefix in front keeps positions apart.
pub proof fn lemma_prefixed_distinct(i: int, positions: Seq<Seq<int>>)
    requires
        positions.no_duplicates(),
    ensures
        prefixed(i, positions).no_duplicates(),
{
    let list = prefixed(i, positions);
    assert forall|a: int, b: int| 0 <= a < list.len() && 0 <= b < list.len() && a != b implies list[a]
        != list[b] by {
        if list[a] == list[b] {
            assert(list[a].skip(1) =~= positions[a]);
            assert(list[b].skip(1) =~= positions[b]);
        }
    }
}

/// The listed positions are those of the visible regular files: one index
/// each, in rising order.
pub proof fn lemma_listed_positions(entries: Seq<Entry>)
    ensures
        listed_positions(entries).len() == listed_files(entries).len(),
        forall|k: int|
            0 <= k < listed_positions(entries).len() ==> {
                let position = #[trigger] listed_positions(entries)[k];
                &&& position.len() == 1
                &&& 0 <= position[0] < entries.len()
                &&& entries[position[0]].visible()
                &&& entries[position[0]].kind is File
                &&& entry_file(entries[position[0]]) == listed_files(entries)[k]
            },
        forall|j: int, k: int|
            0 <= j < k < listed_positions(entries).len() ==> (#[trigger] listed_positions(
                entries,
            )[j])[0] < (#[trigger] listed_positions(entries)[k])[0],
        forall|i: int|
            0 <= i < entries.len() && entries[i].visible() && entries[i].kind is File
                ==> listed_positions(entries).contains(seq![i]),
    decreases entries.len(),
{
    if entries.len() > 0 {
        let front = entries.drop_last();
        lemma_listed_positions(front);
        let list = listed_positions(entries);
        let before = listed_positions(front);
        assert forall|k: int| 0 <= k < list.len() implies {
            let position = #[trigger] list[k];
            &&& position.len() == 1
            &&& 0 <= position[0] < entries.len()
            &&& entries[position[0]].visible()
            &&& entries[position[0]].kind is File
            &&& entry_file(entries[position[0]]) == listed_files(entries)[k]
        } by {
            if k < before.len() {
                assert(list[k] == before[k]);
                assert(front[before[k][0]] == entries[before[k][0]]);
            }
        }
        assert forall|j: int, k: int| 0 <= j < k < list.len() implies (#[trigger] list[j])[0] < (
        #[trigger] list[k])[0] by {
            assert(list[j] == before[j]);
            if k < before.len() {
                assert(list[k] == before[k]);
            }
        }
        assert forall|i: int|
            0 <= i < entries.len() && entries[i].visible()
                && entries[i].kind is File implies list.contains(seq![i]) by {
            if i < entries.len() - 1 {
                assert(front[i] == entries[i]);
                let k = choose|k: int| 0 <= k < before.len() && before[k] == seq![i];
                assert(list[k] == seq![i]);
            } else {
                assert(list[list.len() - 1] == seq![i]);
            }
        }
    }
}

/// What stands in two lists put together stands in one of them.
pub proof fn lemma_concat_contains(a: Seq<Seq<int>>, b: Seq<Seq<int>>, position: Seq<int>)
    ensures
        (a + b).contains(position) <==> a.contains(position) || b.contains(position),
{
    let both = a + b;
    if both.contains(position) {
        let k = choose|k: int| 0 <= k < both.len() && both[k] == position;
        if k < a.len() {
            assert(a[k] == position);
        } else {
            assert(b[k - a.len()] == position);
        }
    }
    if a.contains(position) {
        let k = choose|k: int| 0 <= k < a.len() && a[k] == position;
        assert(both[k] == position);
    }
    if b.contains(position) {
        let k = choose|k: int| 0 <= k < b.len() && b[k] == position;
        assert(both[a.len() + k] == position);
    }
}

/// Two lists without repetition that share no position give a list without
/// repetition when put together.
pub proof fn lemma_concat_distinct(a: Seq<Seq<int>>, b: Seq<Seq<int>>)
    requires
        a.no_duplicates(),
        b.no_duplicates(),
        forall|position: Seq<int>| !(a.contains(position) && b.contains(position)),
    ensures
        (a + b).no_duplicates(),
{
    let both = a + b;
    assert forall|i: int, j: int| 0 <= i < both.len() && 0 <= j < both.len() && i != j implies both[i]
        != both[j] by {
        if i < a.len() && j >= a.len() {
            assert(a.contains(a[i]) && b.contains(b[j - a.len()]));
        }
        if j < a.len() && i >= a.len() {
            assert(a.contains(a[j]) && b.contains(b[i - a.len()]));
        }
    }
}

/// `position` leads through `entry`, the `i`-th entry of a directory whose
/// subdirectories lie at `level`, to a file that the descent reads.
pub open spec fn reaches_through(entry: Entry, i: int, level: nat, position: Seq<int>) -> bool {
    &&& position.len() >= 2
    &&& position[0] == i
    &&& level <= MAX_DEPTH
    &&& entry.visible()
    &&& entry.kind is Directory
    &&& reaches_file(children(entry), level, position.skip(1))
}

/// Nothing is within reach of a directory above the depth limit.
pub proof fn lemma_reach_is_within_depth(entries: Seq<Entry>, level: nat, position: Seq<int>)
    requires
        reaches_file(entries, level, position),
    ensures
        level <= MAX_DEPTH,
        position.len() >= 1,
{
}

/// The positions collected from a directory are the positions within reach.
pub proof fn lemma_directory_member(entries: Seq<Entry>, level: nat, position: Seq<int>)
    ensures
        directory_positions(entries, level).contains(position) <==> reaches_file(
            entries,
            level,
            position,
        ),
    decreases MAX_DEPTH + 1 - level, 2nat, 0nat,
{
    if level <= MAX_DEPTH {
        let listed = listed_positions(entries);
        let nested = nested_positions(entries, level + 1);
        lemma_concat_contains(listed, nested, position);
        lemma_listed_positions(entries);
        lemma_nested_member(entries, level + 1, position);
        if listed.contains(position) {
            let k = choose|k: int| 0 <= k < listed.len() && listed[k] == position;
            assert(listed[k].len() == 1);
            assert(reaches_file(entries, level, position));
        }
        if nested.contains(position) {
            assert(reaches_through(entries[position[0]], position[0], level + 1, position));
            assert(reaches_file(entries, level, position));
        }
        if reaches_file(entries, level, position) {
            if position.len() == 1 {
                assert(position =~= seq![position[0]]);
                assert(listed.contains(position));
            } else {
                lemma_reach_is_within_depth(
                    children(entries[position[0]]),
                    level + 1,
                    position.skip(1),
                );
                assert(reaches_through(entries[position[0]], position[0], level + 1, position));
                assert(nested.contains(position));
            }
        }
    } else {
        assert(!reaches_file(entries, level, position));
    }
}

/// The positions collected below the subdirectories among `entries` are
/// those that lead through one of them to a file within reach.
pub proof fn lemma_nested_member(entries: Seq<Entry>, level: nat, position: Seq<int>)
    ensures
        nested_positions(entries, level).contains(position) <==> position.len() >= 2 && 0
            <= position[0] < entries.len() && reaches_through(
            entries[position[0]],
            position[0],
            level,
            position,
        ),
    decreases MAX_DEPTH + 2 - level, 1nat, entries.len(),
{
    if entries.len() > 0 {
        let front = entries.drop_last();
        let last = entries.len() - 1;
        lemma_concat_contains(
            nested_positions(front, level),
            child_positions(entries.last(), last, level),
            position,
        );
        lemma_nested_member(front, level, position);
        lemma_child_member(entries.last(), last, level, position);
        if position.len() >= 2 && 0 <= position[0] < last {
            assert(front[position[0]] == entries[position[0]]);
        }
    }
}

/// The positions collected below one entry are those that lead through it
/// to a file within reach.
pub proof fn lemma_child_member(entry: Entry, i: int, level: nat, position: Seq<int>)
    ensures
        child_positions(entry, i, level).contains(position) <==> reaches_through(
            entry,
            i,
            level,
            position,
        ),
    decreases MAX_DEPTH + 2 - level, 0nat, 0nat,
{
    if entry.visible() && level <= MAX_DEPTH && entry.kind is Directory {
        let below = directory_positions(children(entry), level);
        lemma_prefixed_contains(i, below, position);
        if position.len() > 0 {
            lemma_directory_member(children(entry), level, position.skip(1));
        }
    }
}

/// No position is collected twice from a directory.
pub proof fn lemma_directory_distinct(entries: Seq<Entry>, level: nat)
    ensures
        directory_positions(entries, level).no_duplicates(),
    decreases MAX_DEPTH + 1 - level, 2nat, 0nat,
{
    if level <= MAX_DEPTH {
        let listed = listed_positions(entries);
        let nested = nested_positions(entries, level + 1);
        lemma_listed_positions(entries);
        lemma_nested_distinct(entries, level + 1);
        assert forall|position: Seq<int>|
            !(listed.contains(position) && nested.contains(position)) by {
            lemma_nested_member(entries, level + 1, position);
            if listed.contains(position) {
                let k = choose|k: int| 0 <= k < listed.len() && listed[k] == position;
                assert(listed[k].len() == 1);
            }
        }
        assert forall|j: int, k: int| 0 <= j < listed.len() && 0 <= k < listed.len() && j
            != k implies listed[j] != listed[k] by {
            if j < k {
                assert(listed[j][0] < listed[k][0]);
            } else {
                assert(listed[k][0] < listed[j][0]);
            }
        }
        lemma_concat_distinct(listed, nested);
    }
}

/// No position is collected twice below the subdirectories among `entries`.
pub proof fn lemma_nested_distinct(entries: Seq<Entry>, level: nat)
    ensures
        nested_positions(entries, level).no_duplicates(),
    decreases MAX_DEPTH + 2 - level, 1nat, entries.len(),
{
    if entries.len() > 0 {
        let front = entries.drop_last();
        let last = entries.len() - 1;
        let before = nested_positions(front, level);
        let child = child_positions(entries.last(), last, level);
        lemma_nested_distinct(front, level);
        lemma_child_distinct(entries.last(), last, level);
        assert forall|position: Seq<int>|
            !(before.contains(position) && child.contains(position)) by {
            lemma_nested_member(front, level, position);
            lemma_child_member(entries.last(), last, level, position);
        }
        lemma_concat_distinct(before, child);
    }
}

/// No position is collected twice below one entry.
pub proof fn lemma_child_distinct(entry: Entry, i: int, level: nat)
    ensures
        child_positions(entry, i, level).no_duplicates(),
    decreases MAX_DEPTH + 2 - level, 0nat, 0nat,
{
    if entry.visible() && level <= MAX_DEPTH && entry.kind is Directory {
        lemma_directory_distinct(children(entry), level);
        lemma_prefixed_distinct(i, directory_positions(children(entry), level));
    }
}

/// The files collected from a directory are those at the collected
/// positions, in the same order.
pub proof fn lemma_directory_aligned(entries: Seq<Entry>, level: nat)
    requires
        directory_files(entries, level) is Ok,
    ensures
        directory_positions(entries, level).len() == directory_files(entries, level)->Ok_0.len(),
        forall|k: int|
            0 <= k < directory_positions(entries, level).len() ==> file_at(
                entries,
                #[trigger] directory_positions(entries, level)[k],
            ) == directory_files(entries, level)->Ok_0[k],
    decreases MAX_DEPTH + 1 - level, 2nat, 0nat,
{
    if level <= MAX_DEPTH {
        lemma_listed_positions(entries);
        lemma_nested_aligned(entries, level + 1);
    }
}

/// The files collected below the subdirectories among `entries` are those
/// at the collected positions, in the same order.
pub proof fn lemma_nested_aligned(entries: Seq<Entry>, level: nat)
    requires
        nested_files(entries, level) is Ok,
    ensures
        nested_positions(entries, level).len() == nested_files(entries, level)->Ok_0.len(),
        forall|k: int|
            0 <= k < nested_positions(entries, level).len() ==> file_at(
                entries,
                #[trigger] nested_positions(entries, level)[k],
            ) == nested_files(entries, level)->Ok_0[k],
    decreases MAX_DEPTH + 2 - level, 1nat, entries.len(),
{
    if entries.len() > 0 {
        let front = entries.drop_last();
        let last = entries.len() - 1;
        let before = nested_positions(front, level);
        let child = child_positions(entries.last(), last, level);
        lemma_nested_aligned(front, level);
        lemma_child_aligned(entries.last(), last, level);
        let list = nested_positions(entries, level);
        assert forall|k: int| 0 <= k < list.len() implies file_at(entries, #[trigger] list[k])
            == nested_files(entries, level)->Ok_0[k] by {
            if k < before.len() {
                assert(list[k] == before[k]);
                assert(before.contains(before[k]));
                lemma_nested_member(front, level, before[k]);
                assert(front[before[k][0]] == entries[before[k][0]]);
            } else {
                let c = k - before.len();
                assert(list[k] == child[c]);
                assert(child.contains(child[c]));
                lemma_child_member(entries.last(), last, level, child[c]);
            }
        }
    }
}

/// The files collected below one entry are those at the collected
/// positions, in the same order.
pub proof fn lemma_child_aligned(entry: Entry, i: int, level: nat)
    requires
        subdirectory_files(entry, level) is Ok,
    ensures
        child_positions(entry, i, level).len() == subdirectory_files(entry, level)->Ok_0.len(),
        forall|k: int|
            0 <= k < child_positions(entry, i, level).len() ==> file_at(
                children(entry),
                (#[trigger] child_positions(entry, i, level)[k]).skip(1),
            ) == subdirectory_files(entry, level)->Ok_0[k],
    decreases MAX_DEPTH + 2 - level, 0nat, 0nat,
{
    if entry.visible() && level <= MAX_DEPTH && entry.kind is Directory {
        let below = directory_positions(children(entry), level);
        lemma_directory_aligned(children(entry), level);
        let child = child_positions(entry, i, level);
        assert forall|k: int| 0 <= k < child.len() implies file_at(
            children(entry),
            (#[trigger] child[k]).skip(1),
        ) == subdirectory_files(entry, level)->Ok_0[k] by {
            assert(child[k].skip(1) =~= below[k]);
        }
    }
}

/// Every regular file within reach of a directory is collected exactly
/// once: the collected files are the files at the positions of
/// [`directory_positions`], in order; each of these positions leads to a
/// file within reach; no position occurs twice; and every position that
/// leads to a file within reach is among them.
pub proof fn lemma_directory_files_exactly_once(entries: Seq<Entry>, level: nat)
    requires
        directory_files(entries, level) is Ok,
    ensures
        directory_positions(entries, level).len() == directory_files(entries, level)->Ok_0.len(),
        forall|k: int|
            0 <= k < directory_positions(entries, level).len() ==> {
                let position = #[trigger] directory_positions(entries, level)[k];
                &&& reaches_file(entries, level, position)
                &&& file_at(entries, position) == directory_files(entries, level)->Ok_0[k]
            },
        directory_positions(entries, level).no_duplicates(),
        forall|position: Seq<int>|
            reaches_file(entries, level, position) ==> directory_positions(
                entries,
                level,
            ).contains(position),
{
    let positions = directory_positions(entries, level);
    lemma_directory_aligned(entries, level);
    lemma_directory_distinct(entries, level);
    assert forall|k: int| 0 <= k < positions.len() implies reaches_file(
        entries,
        level,
        #[trigger] positions[k],
    ) by {
        assert(positions.contains(positions[k]));
        lemma_directory_member(entries, level, positions[k]);
    }
    assert forall|position: Seq<int>|
        reaches_file(entries, level, position) implies positions.contains(position) by {
        lemma_directory_member(entries, level, position);
    }
}

/// `entry` is a directory that was read and whose name makes it a plan or
/// a post.
pub open spec fn is_group_directory(entry: Entry) -> bool {
    &&& entry.visible()
    &&& entry.kind is Directory
    &&& directory_kind(entry.name@, date_prefix(entry.name@)) matches Ok(kind)
    &&& !(kind is Ignored)
}

/// `position` names a file of the creator that belongs in a post: a visible
/// regular file directly under the creator, or a file within reach of a
/// plan or post directory.
pub open spec fn in_scope(entries: Seq<Entry>, position: Seq<int>) -> bool {
    &&& position.len() >= 1
    &&& 0 <= position[0] < entries.len()
    &&& if position.len() == 1 {
        entries[position[0]].visible() && entries[position[0]].kind is File
    } else {
        is_group_directory(entries[position[0]]) && reaches_file(
            children(entries[position[0]]),
            1,
            position.skip(1),
        )
    }
}

/// The positions of the files of the group that `entry`, the `i`-th entry
/// of the creator, gives rise to.
pub open spec fn entry_positions(entry: Entry, i: int) -> Seq<Seq<int>> {
    if is_group_directory(entry) {
        child_positions(entry, i, 1)
    } else {
        Seq::empty()
    }
}

/// The entries that give rise to a group, by index and in order.
pub open spec fn group_origins(entries: Seq<Entry>) -> Seq<int>
    decreases entries.len(),
{
    if entries.len() == 0 {
        Seq::empty()
    } else {
        let before = group_origins(entries.drop_last());
        if entry_positions(entries.last(), entries.len() - 1).len() == 0 {
            before
        } else {
            before.push(entries.len() - 1)
        }
    }
}

/// For each group of [`archive_groups`], in order, the positions from which
/// its files were taken, in the order of the files.
pub open spec fn archive_positions(entries: Seq<Entry>) -> Seq<Seq<Seq<int>>> {
    let groups = group_origins(entries).map_values(
        |i: int| entry_positions(entries[i], i),
    );
    if listed_positions(entries).len() == 0 {
        groups
    } else {
        groups.push(listed_positions(entries))
    }
}

/// The origins are indices of entries that give rise to a group, in rising
/// order, and every such entry is among them.
pub proof fn lemma_group_origins(entries: Seq<Entry>)
    ensures
        forall|g: int|
            0 <= g < group_origins(entries).len() ==> 0 <= (#[trigger] group_origins(entries)[g])
                < entries.len() && entry_positions(
                entries[group_origins(entries)[g]],
                group_origins(entries)[g],
            ).len() > 0,
        forall|g: int, h: int|
            0 <= g < h < group_origins(entries).len() ==> (#[trigger] group_origins(entries)[g])
                < (#[trigger] group_origins(entries)[h]),
        forall|i: int|
            0 <= i < entries.len() && entry_positions(entries[i], i).len() > 0 ==> group_origins(
                entries,
            ).contains(i),
    decreases entries.len(),
{
    if entries.len() > 0 {
        let front = entries.drop_last();
        let before = group_origins(front);
        let origins = group_origins(entries);
        lemma_group_origins(front);
        assert forall|g: int| 0 <= g < origins.len() implies 0 <= (#[trigger] origins[g])
            < entries.len() && entry_positions(entries[origins[g]], origins[g]).len() > 0 by {
            if g < before.len() {
                assert(origins[g] == before[g]);
                assert(front[before[g]] == entries[before[g]]);
            }
        }
        assert forall|g: int, h: int| 0 <= g < h < origins.len() implies (#[trigger] origins[g]) < (
        #[trigger] origins[h]) by {
            assert(origins[g] == before[g]);
            if h < before.len() {
                assert(origins[h] == before[h]);
            }
        }
        assert forall|i: int|
            0 <= i < entries.len() && entry_positions(entries[i], i).len()
                > 0 implies origins.contains(i) by {
            if i < entries.len() - 1 {
                assert(front[i] == entries[i]);
                assert(entry_positions(front[i], i).len() > 0);
                assert(before.contains(i));
                let g = choose|g: int| 0 <= g < before.len() && before[g] == i;
                assert(origins[g] == before[g]);
            } else {
                assert(origins[origins.len() - 1] == i);
            }
        }
    }
}

/// The groups of the directories are those of the origins: group for group
/// the files are as many as the positions.
pub proof fn lemma_groups_follow_origins(entries: Seq<Entry>)
    requires
        directory_groups(entries) is Ok,
    ensures
        directory_groups(entries)->Ok_0.len() == group_origins(entries).len(),
        forall|g: int|
            0 <= g < group_origins(entries).len() ==> entry_group(
                entries[#[trigger] group_origins(entries)[g]],
            ) == Ok::<_, super::descent::ArchiveError>(Some(directory_groups(entries)->Ok_0[g])),
    decreases entries.len(),
{
    if entries.len() > 0 {
        let front = entries.drop_last();
        let last = entries.len() - 1;
        let entry = entries.last();
        let before = group_origins(front);
        let origins = group_origins(entries);
        lemma_groups_follow_origins(front);
        lemma_group_origins(front);
        if entry.visible() && entry.kind is Directory {
            if subdirectory_files(entry, 1) is Ok {
                lemma_child_aligned(entry, last, 1);
            }
        }
        assert forall|g: int| 0 <= g < origins.len() implies entry_group(
            entries[#[trigger] origins[g]],
        ) == Ok::<_, super::descent::ArchiveError>(Some(directory_groups(entries)->Ok_0[g])) by {
            if g < before.len() {
                assert(origins[g] == before[g]);
                assert(front[before[g]] == entries[before[g]]);
            }
        }
    }
}

/// Every file of a creator that belongs in a post stands in exactly one
/// group, and there once.
///
/// Where the creator's entries give groups, [`archive_positions`] names for
/// each file of each group the position it was taken from. Each of these
/// positions names a file in scope, no position is named twice, whether in
/// one group or in two, and every position in scope is named.
pub proof fn lemma_archive_files_exactly_once(entries: Seq<Entry>)
    requires
        archive_groups(entries) is Ok,
    ensures
        archive_positions(entries).len() == archive_groups(entries)->Ok_0.len(),
        forall|g: int|
            0 <= g < archive_positions(entries).len() ==> (#[trigger] archive_positions(
                entries,
            )[g]).len() == archive_groups(entries)->Ok_0[g].files.len(),
        forall|g: int, k: int|
            0 <= g < archive_positions(entries).len() && 0 <= k < archive_positions(
                entries,
            )[g].len() ==> {
                let position = #[trigger] archive_positions(entries)[g][k];
                &&& in_scope(entries, position)
                &&& file_at(entries, position) == archive_groups(entries)->Ok_0[g].files[k]
            },
        forall|g: int, k: int, h: int, l: int|
            0 <= g < archive_positions(entries).len() && 0 <= k < archive_positions(
                entries,
            )[g].len() && 0 <= h < archive_positions(entries).len() && 0 <= l
                < archive_positions(entries)[h].len() && #[trigger] archive_positions(
                entries,
            )[g][k] == #[trigger] archive_positions(entries)[h][l] ==> g == h && k == l,
        forall|position: Seq<int>|
            in_scope(entries, position) ==> exists|g: int, k: int|
                0 <= g < archive_positions(entries).len() && 0 <= k < archive_positions(
                    entries,
                )[g].len() && #[trigger] archive_positions(entries)[g][k] == position,
{
    let positions = archive_positions(entries);
    let origins = group_origins(entries);
    let groups = archive_groups(entries)->Ok_0;
    let listed = listed_positions(entries);
    lemma_group_origins(entries);
    lemma_groups_follow_origins(entries);
    lemma_listed_positions(entries);
    // What each block of positions holds.
    assert forall|g: int, k: int| 0 <= g < positions.len() && 0 <= k < positions[g].len() implies {
        let position = #[trigger] positions[g][k];
        &&& in_scope(entries, position)
        &&& file_at(entries, position) == groups[g].files[k]
        &&& positions[g].len() == groups[g].files.len()
        &&& g < origins.len() ==> position.len() >= 2 && position[0] == origins[g]
        &&& g >= origins.len() ==> position.len() == 1
    } by {
        if g < origins.len() {
            let i = origins[g];
            let block = entry_positions(entries[i], i);
            assert(positions[g] == block);
            assert(block.contains(block[k]));
            lemma_child_member(entries[i], i, 1, block[k]);
            lemma_child_aligned(entries[i], i, 1);
        } else {
            assert(positions[g] == listed);
        }
    }
    assert forall|g: int| 0 <= g < positions.len() implies (#[trigger] positions[g]).len()
        == groups[g].files.len() by {
        if g < origins.len() {
            let i = origins[g];
            assert(positions[g] == entry_positions(entries[i], i));
            lemma_child_aligned(entries[i], i, 1);
        } else {
            assert(positions[g] == listed);
        }
    }
    assert forall|g: int, k: int, h: int, l: int|
        0 <= g < positions.len() && 0 <= k < positions[g].len() && 0 <= h < positions.len() && 0
            <= l < positions[h].len() && #[trigger] positions[g][k]
            == #[trigger] positions[h][l] implies g == h && k == l by {
        if g < origins.len() && h < origins.len() {
            if g < h {
                assert(origins[g] < origins[h]);
            } else if h < g {
                assert(origins[h] < origins[g]);
            } else {
                let i = origins[g];
                assert(positions[g] == entry_positions(entries[i], i));
                lemma_child_distinct(entries[i], i, 1);
            }
        } else if g >= origins.len() && h >= origins.len() {
            assert(positions[g] == listed);
            if k < l {
                assert(listed[k][0] < listed[l][0]);
            } else if l < k {
                assert(listed[l][0] < listed[k][0]);
            }
        }
    }
    assert forall|position: Seq<int>| in_scope(entries, position) implies exists|g: int, k: int|
        0 <= g < positions.len() && 0 <= k < positions[g].len() && #[trigger] positions[g][k]
            == position by {
        let i = position[0];
        if position.len() == 1 {
            assert(position =~= seq![i]);
            assert(listed.contains(seq![i]));
            let k = choose|k: int| 0 <= k < listed.len() && listed[k] == seq![i];
            let g = origins.len() as int;
            assert(positions[g][k] == position);
        } else {
            let block = entry_positions(entries[i], i);
            lemma_child_member(entries[i], i, 1, position);
            assert(block.contains(position));
            let k = choose|k: int| 0 <= k < block.len() && block[k] == position;
            assert(origins.contains(i));
            let g = choose|g: int| 0 <= g < origins.len() && origins[g] == i;
            assert(positions[g] == block);
            assert(positions[g][k] == position);
        }
    }
}

} // verus!
