//! Which cells need a count badge: those holding more than one creature of a
//! kind.

use crate::types::{Coordinates, CreatureSnapshot, CreatureSnapshotKind};
use vstd::prelude::*;

verus! {

/// A badge key: row, column, and kind index (0 for aphids, 1 for ladybugs).
pub type BadgeKey = (usize, usize, usize);

/// The kind index of a snapshot kind: 0 for aphids, 1 for ladybugs.
pub open spec fn kind_index(kind: CreatureSnapshotKind) -> usize {
    match kind {
        CreatureSnapshotKind::Aphid => 0,
        CreatureSnapshotKind::Ladybug => 1,
    }
}

/// The badge key of a creature.
pub open spec fn snapshot_key(snapshot: CreatureSnapshot) -> BadgeKey {
    (snapshot.location.x, snapshot.location.y, kind_index(snapshot.kind))
}

/// The badge key of a badge.
pub open spec fn badge_key(badge: (Coordinates, usize, usize)) -> BadgeKey {
    (badge.0.x, badge.0.y, badge.1)
}

/// Keys in row, then column, then kind order.
pub open spec fn key_before(a: BadgeKey, b: BadgeKey) -> bool {
    ||| a.0 < b.0
    ||| a.0 == b.0 && a.1 < b.1
    ||| a.0 == b.0 && a.1 == b.1 && a.2 < b.2
}

/// How many of the creatures have the key.
pub open spec fn key_count(snapshots: Seq<CreatureSnapshot>, key: BadgeKey) -> nat
    decreases snapshots.len(),
{
    if snapshots.len() == 0 {
        0
    } else {
        key_count(snapshots.drop_last(), key) + if snapshot_key(snapshots.last()) == key {
            1nat
        } else {
            0nat
        }
    }
}

/// Whether `badges` are the crowded cells of `snapshots`: in key order, each
/// with the count of its key, which is above one, and every key counted above
/// one is there.
pub open spec fn are_crowded_cells(snapshots: Seq<CreatureSnapshot>, badges: Seq<(Coordinates, usize, usize)>) -> bool {
    &&& forall|a: int, b: int|
        0 <= a < b < badges.len() ==> key_before(#[trigger] badge_key(badges[a]), #[trigger] badge_key(badges[b]))
    &&& forall|m: int|
        0 <= m < badges.len() ==> {
            &&& (#[trigger] badges[m]).2 == key_count(snapshots, badge_key(badges[m]))
            &&& badges[m].2 > 1
        }
    &&& forall|t: int|
        0 <= t < snapshots.len() && key_count(snapshots, snapshot_key(#[trigger] snapshots[t])) > 1 ==> exists|m: int|
            0 <= m < badges.len() && #[trigger] badge_key(badges[m]) == snapshot_key(snapshots[t])
}

proof fn lemma_counted_key_appears(snapshots: Seq<CreatureSnapshot>, key: BadgeKey)
    requires
        key_count(snapshots, key) > 0,
    ensures
        exists|t: int| 0 <= t < snapshots.len() && snapshot_key(#[trigger] snapshots[t]) == key,
    decreases snapshots.len(),
{
    let rest = snapshots.drop_last();
    if snapshot_key(snapshots.last()) == key {
        assert(snapshot_key(snapshots[snapshots.len() - 1]) == key);
    } else {
        lemma_counted_key_appears(rest, key);
        let t = choose|t: int| 0 <= t < rest.len() && snapshot_key(#[trigger] rest[t]) == key;
        assert(snapshots[t] == rest[t]);
    }
}

/// The key of a badge entry, computed.
fn entry_key(entry: (Coordinates, usize, usize)) -> (key: BadgeKey)
    ensures
        key == badge_key(entry),
{
    (entry.0.x, entry.0.y, entry.1)
}

/// Whether one key comes before another, computed.
fn is_before(a: BadgeKey, b: BadgeKey) -> (before: bool)
    ensures
        before == key_before(a, b),
{
    a.0 < b.0 || (a.0 == b.0 && a.1 < b.1) || (a.0 == b.0 && a.1 == b.1 && a.2 < b.2)
}

/// Cells holding more than one creature of a kind, as `(location, kind index,
/// count)`, in row, column and kind order. Kind index 0 is aphids and 1
/// ladybugs.
pub fn crowded_cells(snapshots: &[CreatureSnapshot]) -> (badges: Vec<(Coordinates, usize, usize)>)
    ensures
        are_crowded_cells(snapshots@, badges@),
{
    let ghost all = snapshots@;
    let mut counts: Vec<(Coordinates, usize, usize)> = Vec::new();
    let mut i: usize = 0;
    while i < snapshots.len()
        invariant
            all == snapshots@,
            i <= all.len(),
            forall|a: int, b: int|
                0 <= a < b < counts@.len() ==> key_before(
                    #[trigger] badge_key(counts@[a]),
                    #[trigger] badge_key(counts@[b]),
                ),
            forall|m: int|
                0 <= m < counts@.len() ==> {
                    &&& (#[trigger] counts@[m]).2 == key_count(all.subrange(0, i as int), badge_key(counts@[m]))
                    &&& counts@[m].2 >= 1
                },
            forall|t: int|
                #![trigger all[t]]
                0 <= t < i ==> exists|m: int|
                    0 <= m < counts@.len() && #[trigger] badge_key(counts@[m]) == snapshot_key(all[t]),
            counts@.len() <= i,
        decreases all.len() - i,
    {
        let snapshot = snapshots[i];
        let kind: usize = match snapshot.kind {
            CreatureSnapshotKind::Aphid => 0,
            CreatureSnapshotKind::Ladybug => 1,
        };
        let key: BadgeKey = (snapshot.location.x, snapshot.location.y, kind);
        proof {
            assert(key == snapshot_key(all[i as int]));
        }
        let ghost prefix = all.subrange(0, i as int);
        let ghost next = all.subrange(0, i + 1);
        proof {
            assert(next.drop_last() =~= prefix);
            assert(next.last() == all[i as int]);
        }
        let mut p: usize = 0;
        while p < counts.len() && is_before(entry_key(counts[p]), key)
            invariant
                p <= counts@.len(),
                forall|j: int| 0 <= j < p ==> key_before(#[trigger] badge_key(counts@[j]), key),
            decreases counts@.len() - p,
        {
            p = p + 1;
        }
        let ghost old_counts = counts@;
        let found = if p < counts.len() {
            let here = entry_key(counts[p]);
            here.0 == key.0 && here.1 == key.1 && here.2 == key.2
        } else {
            false
        };
        if found {
            let entry = counts[p];
            proof {
                assert(entry.2 == key_count(prefix, key));
                assert(key_count(prefix, key) <= prefix.len()) by {
                    lemma_count_bound(prefix, key);
                }
            }
            counts.set(p, (entry.0, entry.1, entry.2 + 1));
            proof {
                assert forall|a: int, b: int| 0 <= a < b < counts@.len() implies key_before(
                    #[trigger] badge_key(counts@[a]),
                    #[trigger] badge_key(counts@[b]),
                ) by {
                    assert(badge_key(counts@[a]) == badge_key(old_counts[a]));
                    assert(badge_key(counts@[b]) == badge_key(old_counts[b]));
                }
                assert forall|m: int| 0 <= m < counts@.len() implies {
                    &&& (#[trigger] counts@[m]).2 == key_count(next, badge_key(counts@[m]))
                    &&& counts@[m].2 >= 1
                } by {
                    assert(badge_key(counts@[m]) == badge_key(old_counts[m]));
                    if m != p {
                        assert(badge_key(old_counts[m]) != key) by {
                            if (m as int) < (p as int) {
                                assert(key_before(badge_key(old_counts[m]), badge_key(old_counts[p as int])));
                            } else {
                                assert(key_before(badge_key(old_counts[p as int]), badge_key(old_counts[m])));
                            }
                        }
                    }
                }
                assert forall|t: int| #![trigger all[t]] 0 <= t < i + 1 implies exists|m: int|
                    0 <= m < counts@.len() && #[trigger] badge_key(counts@[m]) == snapshot_key(all[t]) by {
                    if t < i {
                        let m = choose|m: int| 0 <= m < old_counts.len() && #[trigger] badge_key(old_counts[m]) == snapshot_key(all[t]);
                        assert(badge_key(counts@[m]) == badge_key(old_counts[m]));
                    } else {
                        assert(badge_key(counts@[p as int]) == key);
                    }
                }
            }
        } else {
            proof {
                assert forall|j: int| 0 <= j < old_counts.len() implies #[trigger] badge_key(old_counts[j]) != key by {
                    if j < p {
                    } else {
                        assert(p < old_counts.len());
                        assert(!key_before(badge_key(old_counts[p as int]), key));
                        assert(badge_key(old_counts[p as int]) != key);
                        if j > p {
                            assert(key_before(badge_key(old_counts[p as int]), badge_key(old_counts[j])));
                        }
                    }
                }
                if key_count(prefix, key) > 0 {
                    lemma_counted_key_appears(prefix, key);
                    let t = choose|t: int| 0 <= t < prefix.len() && snapshot_key(#[trigger] prefix[t]) == key;
                    assert(prefix[t] == all[t]);
                    let m = choose|m: int| 0 <= m < old_counts.len() && #[trigger] badge_key(old_counts[m]) == snapshot_key(all[t]);
                    assert(badge_key(old_counts[m]) != key);
                }
            }
            counts.insert(p, (snapshot.location, kind, 1));
            proof {
                assert forall|a: int, b: int| 0 <= a < b < counts@.len() implies key_before(
                    #[trigger] badge_key(counts@[a]),
                    #[trigger] badge_key(counts@[b]),
                ) by {
                    if b < p {
                        assert(counts@[a] == old_counts[a]);
                        assert(counts@[b] == old_counts[b]);
                    } else if b == p {
                        assert(counts@[a] == old_counts[a]);
                    } else if a < p {
                        assert(counts@[a] == old_counts[a]);
                        assert(counts@[b] == old_counts[b - 1]);
                        assert(key_before(badge_key(old_counts[a]), key));
                        if b - 1 > p {
                            assert(key_before(badge_key(old_counts[p as int]), badge_key(old_counts[b - 1])));
                        }
                        assert(!key_before(badge_key(old_counts[p as int]), key));
                    } else if a == p {
                        assert(counts@[b] == old_counts[b - 1]);
                        if b - 1 > p {
                            assert(key_before(badge_key(old_counts[p as int]), badge_key(old_counts[b - 1])));
                        }
                        assert(!key_before(badge_key(old_counts[p as int]), key));
                        assert(badge_key(old_counts[p as int]) != key);
                    } else {
                        assert(counts@[a] == old_counts[a - 1]);
                        assert(counts@[b] == old_counts[b - 1]);
                    }
                }
                assert forall|m: int| 0 <= m < counts@.len() implies {
                    &&& (#[trigger] counts@[m]).2 == key_count(next, badge_key(counts@[m]))
                    &&& counts@[m].2 >= 1
                } by {
                    if m < p {
                        assert(counts@[m] == old_counts[m]);
                    } else if m > p {
                        assert(counts@[m] == old_counts[m - 1]);
                    }
                }
                assert forall|t: int| #![trigger all[t]] 0 <= t < i + 1 implies exists|m: int|
                    0 <= m < counts@.len() && #[trigger] badge_key(counts@[m]) == snapshot_key(all[t]) by {
                    if t < i {
                        let m = choose|m: int| 0 <= m < old_counts.len() && #[trigger] badge_key(old_counts[m]) == snapshot_key(all[t]);
                        if m < p {
                            assert(counts@[m] == old_counts[m]);
                        } else {
                            assert(counts@[m + 1] == old_counts[m]);
                        }
                    } else {
                        assert(badge_key(counts@[p as int]) == key);
                    }
                }
            }
        }
        i = i + 1;
    }
    proof {
        assert(all.subrange(0, all.len() as int) =~= all);
    }
    let mut badges: Vec<(Coordinates, usize, usize)> = Vec::new();
    let ghost mut sources: Seq<int> = Seq::empty();
    let mut k: usize = 0;
    while k < counts.len()
        invariant
            all == snapshots@,
            k <= counts@.len(),
            forall|a: int, b: int|
                0 <= a < b < counts@.len() ==> key_before(
                    #[trigger] badge_key(counts@[a]),
                    #[trigger] badge_key(counts@[b]),
                ),
            forall|m: int|
                0 <= m < counts@.len() ==> (#[trigger] counts@[m]).2 == key_count(all, badge_key(counts@[m])),
            forall|t: int|
                #![trigger all[t]]
                0 <= t < all.len() ==> exists|m: int|
                    0 <= m < counts@.len() && #[trigger] badge_key(counts@[m]) == snapshot_key(all[t]),
            sources.len() == badges@.len(),
            forall|m: int| 0 <= m < sources.len() ==> 0 <= #[trigger] sources[m] < k,
            forall|m: int| 0 <= m < sources.len() ==> badges@[m] == counts@[#[trigger] sources[m]],
            forall|a: int, b: int| 0 <= a < b < sources.len() ==> #[trigger] sources[a] < #[trigger] sources[b],
            forall|m: int| 0 <= m < badges@.len() ==> (#[trigger] badges@[m]).2 > 1,
            forall|j: int| 0 <= j < k && (#[trigger] counts@[j]).2 > 1 ==> exists|m: int|
                0 <= m < sources.len() && #[trigger] sources[m] == j,
        decreases counts@.len() - k,
    {
        let entry = counts[k];
        let ghost before = sources;
        if entry.2 > 1 {
            badges.push(entry);
            proof {
                sources = sources.push(k as int);
            }
        }
        proof {
            assert forall|j: int| 0 <= j < k + 1 && (#[trigger] counts@[j]).2 > 1 implies exists|m: int|
                0 <= m < sources.len() && #[trigger] sources[m] == j by {
                if j < k {
                    let m = choose|m: int| 0 <= m < before.len() && #[trigger] before[m] == j;
                    assert(sources[m] == before[m]);
                } else {
                    assert(sources[sources.len() - 1] == k);
                }
            }
        }
        k = k + 1;
    }
    proof {
        assert forall|a: int, b: int| 0 <= a < b < badges@.len() implies key_before(
            #[trigger] badge_key(badges@[a]),
            #[trigger] badge_key(badges@[b]),
        ) by {
            assert(sources[a] < sources[b]);
            assert(badges@[a] == counts@[sources[a]]);
            assert(badges@[b] == counts@[sources[b]]);
        }
        assert forall|m: int| 0 <= m < badges@.len() implies {
            &&& (#[trigger] badges@[m]).2 == key_count(all, badge_key(badges@[m]))
            &&& badges@[m].2 > 1
        } by {
            assert(badges@[m] == counts@[sources[m]]);
        }
        assert forall|t: int|
            0 <= t < all.len() && key_count(all, snapshot_key(#[trigger] all[t])) > 1 implies exists|m: int|
            0 <= m < badges@.len() && #[trigger] badge_key(badges@[m]) == snapshot_key(all[t]) by {
            let j = choose|j: int| 0 <= j < counts@.len() && #[trigger] badge_key(counts@[j]) == snapshot_key(all[t]);
            assert(counts@[j].2 > 1);
            let m = choose|m: int| 0 <= m < sources.len() && #[trigger] sources[m] == j;
            assert(badges@[m] == counts@[j]);
        }
    }
    badges
}

proof fn lemma_count_bound(snapshots: Seq<CreatureSnapshot>, key: BadgeKey)
    ensures
        key_count(snapshots, key) <= snapshots.len(),
    decreases snapshots.len(),
{
    if snapshots.len() > 0 {
        lemma_count_bound(snapshots.drop_last(), key);
    }
}

} // verus!
