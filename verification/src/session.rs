//! A run as an interactive front end holds it: hand edits with undo, single
//! turns, the running totals, and the population history a chart draws.
//!
//! Every turn still comes from `Board::refresh`, and every edit from the
//! board's own add and remove operations.

use crate::board::{played_as_drawn, Board};
use crate::model::{aphid_added, last_removed, ladybug_added, turn_outcome, BoardView, CellView};
use crate::options::{bounded_number, read_number};
use crate::random::{drawn_since, extends, Odds, Random};
use crate::text::{decimal, push_decimal, push_signed_decimal, signed_decimal};
use crate::types::{BoardSummary, Coordinates, CreatureKind, TurnStats};
use vstd::prelude::*;

verus! {

/// Seed of the run an interactive front end starts with.
pub const DEFAULT_SEED: u64 = 42;

/// Turns kept in the population history.
pub const HISTORY_LIMIT: usize = 240;

/// Edits that can be undone.
pub const EDIT_UNDO_LIMIT: usize = 20;

/// Starting life of a hand-placed aphid: the life a config file gives one.
pub const EDIT_APHID_LIFE: i32 = 10;

/// Starting life of a hand-placed ladybug: the life a config file gives one.
pub const EDIT_LADYBUG_LIFE: i32 = 15;

/// The populations after one turn.
#[derive(Clone, Copy, Debug, PartialEq, Eq, Structural)]
pub struct HistoryPoint {
    pub turn: usize,
    pub aphids: usize,
    pub ladybugs: usize,
}

impl HistoryPoint {
    /// One series of the chart: 0 is the aphids, any other the ladybugs.
    pub fn series(&self, index: usize) -> (count: usize)
        ensures
            count == if index == 0 {
                self.aphids
            } else {
                self.ladybugs
            },
    {
        if index == 0 {
            self.aphids
        } else {
            self.ladybugs
        }
    }
}

/// What happened at one turn that the chart marks: rules changed after it,
/// and species that died out in it. `C` is what a front end records of a
/// changed rule; the history only asks whether there is one.
#[derive(Clone, Copy, Debug, PartialEq)]
pub struct HistoryEvent<C> {
    pub turn: usize,
    pub changes: [Option<C>; 9],
    pub extinctions: [bool; 2],
}

/// How many rules an event marks as changed.
pub open spec fn changed_count<C>(changes: Seq<Option<C>>) -> nat
    decreases changes.len(),
{
    if changes.len() == 0 {
        0
    } else {
        changed_count(changes.drop_last()) + if changes.last() is Some {
            1nat
        } else {
            0nat
        }
    }
}

/// The lines of an event's caption.
pub open spec fn caption_lines<C>(event: HistoryEvent<C>) -> Seq<Seq<char>> {
    let count = changed_count(event.changes@);
    let rules = if count > 0 {
        seq![
            decimal(count) + " rule"@ + (if count == 1 {
                ""@
            } else {
                "s"@
            }) + " changed after this turn"@,
        ]
    } else {
        Seq::empty()
    };
    let aphids = if event.extinctions[0] {
        seq!["aphids became extinct"@]
    } else {
        Seq::empty()
    };
    let ladybugs = if event.extinctions[1] {
        seq!["ladybugs became extinct"@]
    } else {
        Seq::empty()
    };
    rules + aphids + ladybugs
}

/// Lines joined by newlines.
pub open spec fn joined(lines: Seq<Seq<char>>) -> Seq<char>
    decreases lines.len(),
{
    if lines.len() == 0 {
        Seq::empty()
    } else if lines.len() == 1 {
        lines[0]
    } else {
        joined(lines.drop_last()) + "\n"@ + lines.last()
    }
}

/// Whether an event is at `turn` and marks nothing yet.
pub open spec fn is_blank<C>(event: HistoryEvent<C>, turn: usize) -> bool {
    &&& event.turn == turn
    &&& forall|k: int| 0 <= k < 9 ==> #[trigger] event.changes@[k] is None
    &&& !event.extinctions@[0]
    &&& !event.extinctions@[1]
}

/// Appends a line to `text`, after a newline unless it is the first.
fn push_line(text: &mut String, first: bool, line: &str)
    ensures
        final(text)@ == if first {
            old(text)@ + line@
        } else {
            old(text)@ + "\n"@ + line@
        },
{
    if !first {
        text.append("\n");
    }
    text.append(line);
}

impl<C: Copy> HistoryEvent<C> {
    /// Whether the event marks a changed rule.
    pub fn has_rules(&self) -> (any: bool)
        ensures
            any == (changed_count(self.changes@) > 0),
    {
        let mut k: usize = 0;
        while k < 9
            invariant
                k <= 9,
                self.changes@.len() == 9,
                changed_count(self.changes@.subrange(0, k as int)) == 0,
            decreases 9 - k,
        {
            proof {
                assert(self.changes@.subrange(0, k + 1).drop_last() =~= self.changes@.subrange(0, k as int));
            }
            if self.changes[k].is_some() {
                proof {
                    lemma_count_prefix(self.changes@, k as int + 1);
                }
                return true;
            }
            k = k + 1;
        }
        proof {
            assert(self.changes@.subrange(0, 9) =~= self.changes@);
        }
        false
    }

    /// The caption the chart shows for the event: how many rules changed
    /// after this turn, then each species that became extinct, one per line.
    pub fn caption(&self) -> (text: String)
        ensures
            text@ == joined(caption_lines(*self)),
    {
        let mut count: usize = 0;
        let mut k: usize = 0;
        while k < 9
            invariant
                k <= 9,
                self.changes@.len() == 9,
                count == changed_count(self.changes@.subrange(0, k as int)),
                count <= k,
            decreases 9 - k,
        {
            proof {
                assert(self.changes@.subrange(0, k + 1).drop_last() =~= self.changes@.subrange(0, k as int));
            }
            if self.changes[k].is_some() {
                count = count + 1;
            }
            k = k + 1;
        }
        proof {
            assert(self.changes@.subrange(0, 9) =~= self.changes@);
        }
        let ghost lines = caption_lines(*self);
        let ghost done: Seq<Seq<char>> = Seq::empty();
        let mut text = String::new();
        let mut first = true;
        if count > 0 {
            push_decimal(&mut text, count as u64);
            text.append(" rule");
            if count != 1 {
                text.append("s");
            }
            text.append(" changed after this turn");
            first = false;
            proof {
                reveal_strlit("");
                done = done.push(lines[0]);
                assert(text@ =~= joined(done));
            }
        }
        proof {
            assert(text@ =~= joined(done));
            assert(first == (done.len() == 0));
        }
        if self.extinctions[0] {
            let ghost before = text@;
            push_line(&mut text, first, "aphids became extinct");
            first = false;
            proof {
                if done.len() > 0 {
                    assert(joined(done.push("aphids became extinct"@)) =~= joined(done) + "\n"@
                        + "aphids became extinct"@) by {
                        assert(done.push("aphids became extinct"@).drop_last() =~= done);
                    }
                }
                done = done.push("aphids became extinct"@);
                assert(text@ =~= joined(done));
            }
        }
        if self.extinctions[1] {
            push_line(&mut text, first, "ladybugs became extinct");
            proof {
                if done.len() > 0 {
                    assert(joined(done.push("ladybugs became extinct"@)) =~= joined(done) + "\n"@
                        + "ladybugs became extinct"@) by {
                        assert(done.push("ladybugs became extinct"@).drop_last() =~= done);
                    }
                }
                done = done.push("ladybugs became extinct"@);
                assert(text@ =~= joined(done));
            }
        }
        proof {
            assert(done =~= lines);
        }
        text
    }
}

proof fn lemma_count_prefix<C>(changes: Seq<Option<C>>, k: int)
    requires
        0 < k <= changes.len(),
        changes[k - 1] is Some,
    ensures
        changed_count(changes) > 0,
    decreases changes.len(),
{
    if k < changes.len() {
        lemma_count_prefix(changes.drop_last(), k);
    }
}

/// The events of `events` at or after `turn`, in order.
pub open spec fn events_since<C>(events: Seq<HistoryEvent<C>>, turn: usize) -> Seq<HistoryEvent<C>>
    decreases events.len(),
{
    if events.len() == 0 {
        Seq::empty()
    } else {
        let rest = events_since(events.drop_last(), turn);
        if events.last().turn >= turn {
            rest.push(events.last())
        } else {
            rest
        }
    }
}

/// The points of a history after recording a turn.
pub open spec fn recorded(points: Seq<HistoryPoint>, turn: usize, aphids: usize, ladybugs: usize) -> Seq<HistoryPoint> {
    (if points.len() == HISTORY_LIMIT {
        points.drop_first()
    } else {
        points
    }).push(HistoryPoint { turn, aphids, ladybugs })
}

/// `after` is `before` with `extinctions` marked at `turn`: on the latest event
/// when it is at that turn, else on a new event that marks nothing else.
pub open spec fn marked<C>(
    before: Seq<HistoryEvent<C>>,
    after: Seq<HistoryEvent<C>>,
    turn: usize,
    extinctions: [bool; 2],
) -> bool {
    let reused = before.len() > 0 && before.last().turn == turn;
    let n = if reused {
        before.len()
    } else {
        before.len() + 1
    };
    &&& after.len() == n
    &&& after.subrange(0, n - 1) == before.subrange(0, n - 1)
    &&& after[n - 1].turn == turn
    &&& after[n - 1].extinctions == extinctions
    &&& reused ==> after[n - 1].changes == before.last().changes
    &&& !reused ==> forall|k: int| 0 <= k < 9 ==> #[trigger] after[n - 1].changes@[k] is None
}

/// Rolling population history, with the events marked on it.
pub struct History<C>(pub Vec<HistoryPoint>, pub Vec<HistoryEvent<C>>);

impl<C: Copy> History<C> {
    /// An empty history.
    pub fn new() -> (history: Self)
        ensures
            history.0@ == Seq::<HistoryPoint>::empty(),
            history.1@ == Seq::<HistoryEvent<C>>::empty(),
    {
        History(Vec::new(), Vec::new())
    }

    /// An exact copy of the history.
    pub fn duplicate(&self) -> (copy: Self)
        ensures
            copy.0@ == self.0@,
            copy.1@ == self.1@,
    {
        let mut points: Vec<HistoryPoint> = Vec::new();
        let mut k: usize = 0;
        while k < self.0.len()
            invariant
                k <= self.0@.len(),
                points@ == self.0@.subrange(0, k as int),
            decreases self.0@.len() - k,
        {
            points.push(self.0[k]);
            k = k + 1;
            proof {
                assert(points@ =~= self.0@.subrange(0, k as int));
            }
        }
        let mut events: Vec<HistoryEvent<C>> = Vec::new();
        let mut k: usize = 0;
        while k < self.1.len()
            invariant
                k <= self.1@.len(),
                events@ == self.1@.subrange(0, k as int),
            decreases self.1@.len() - k,
        {
            events.push(self.1[k]);
            k = k + 1;
            proof {
                assert(events@ =~= self.1@.subrange(0, k as int));
            }
        }
        proof {
            assert(points@ =~= self.0@);
            assert(events@ =~= self.1@);
        }
        History(points, events)
    }

    /// Adds the populations after `turn`. Past the limit the oldest turn is
    /// dropped, and with it the events marked before the oldest turn kept.
    pub fn record(&mut self, turn: usize, aphids: usize, ladybugs: usize)
        ensures
            final(self).0@ == recorded(old(self).0@, turn, aphids, ladybugs),
            final(self).1@ == events_since(old(self).1@, final(self).0@[0].turn),
    {
        if self.0.len() == HISTORY_LIMIT {
            self.0.remove(0);
        }
        self.0.push(HistoryPoint { turn, aphids, ladybugs });
        let first = self.0[0].turn;
        let ghost events = self.1@;
        let mut kept: Vec<HistoryEvent<C>> = Vec::new();
        let mut k: usize = 0;
        while k < self.1.len()
            invariant
                events == self.1@,
                k <= events.len(),
                kept@ == events_since(events.subrange(0, k as int), first),
            decreases events.len() - k,
        {
            let event = self.1[k];
            proof {
                assert(events.subrange(0, k + 1).drop_last() =~= events.subrange(0, k as int));
            }
            if event.turn >= first {
                kept.push(event);
            }
            k = k + 1;
        }
        proof {
            assert(events.subrange(0, events.len() as int) =~= events);
        }
        self.1 = kept;
    }

    /// The event marked at `turn`, added blank when the latest event is from
    /// another turn.
    pub fn event(&mut self, turn: usize) -> (event: &mut HistoryEvent<C>)
        ensures
            ({
                let reused = old(self).1@.len() > 0 && old(self).1@.last().turn == turn;
                let n = if reused {
                    old(self).1@.len()
                } else {
                    old(self).1@.len() + 1
                };
                &&& final(self).1@.len() == n
                &&& final(self).1@.subrange(0, n - 1) == old(self).1@.subrange(0, n - 1)
                &&& final(self).1@[n - 1] == *final(event)
                &&& reused ==> *event == old(self).1@.last()
                &&& !reused ==> is_blank(*event, turn)
                &&& final(self).0@ == old(self).0@
            }),
    {
        let n = self.1.len();
        if n == 0 || self.1[n - 1].turn != turn {
            self.1.push(HistoryEvent { turn, changes: [None; 9], extinctions: [false; 2] });
        }
        let last = self.1.len() - 1;
        &mut self.1[last]
    }
}


/// The totals a front end shows for the current turn.
#[derive(Clone, Copy, Debug, PartialEq, Eq)]
pub struct Stats {
    pub turn: usize,
    pub aphids: usize,
    pub ladybugs: usize,
    pub food: i32,
    pub births: usize,
    pub deaths: usize,
    pub extinct: bool,
    /// Change of the aphids, the ladybugs and the food over the last turn.
    pub deltas: [i64; 3],
}

impl Default for Stats {
    fn default() -> (stats: Self)
        ensures
            stats.turn == 0,
            stats.aphids == 0,
            stats.ladybugs == 0,
            stats.food == 0,
            stats.births == 0,
            stats.deaths == 0,
            !stats.extinct,
            stats.deltas@ == seq![0i64, 0i64, 0i64],
    {
        let stats = Stats {
            turn: 0,
            aphids: 0,
            ladybugs: 0,
            food: 0,
            births: 0,
            deaths: 0,
            extinct: false,
            deltas: [0, 0, 0],
        };
        proof {
            assert(stats.deltas@ =~= seq![0i64, 0i64, 0i64]);
        }
        stats
    }
}

/// The totals of a board a run starts over from: turn zero, nothing born or
/// dead yet, no change.
pub open spec fn starting_stats(summary: BoardSummary) -> Stats {
    Stats {
        turn: 0,
        aphids: summary.aphids,
        ladybugs: summary.ladybugs,
        food: summary.food,
        births: 0,
        deaths: 0,
        extinct: summary.aphids == 0 && summary.ladybugs == 0,
        deltas: [0i64, 0i64, 0i64],
    }
}

/// The totals after a turn that gave `births`, `deaths` and `summary`, from
/// the totals before it.
pub open spec fn stepped_stats(before: Stats, births: usize, deaths: usize, summary: BoardSummary) -> Stats {
    Stats {
        turn: (before.turn + 1) as usize,
        aphids: summary.aphids,
        ladybugs: summary.ladybugs,
        food: summary.food,
        births,
        deaths,
        extinct: summary.aphids == 0 && summary.ladybugs == 0,
        deltas: [
            (summary.aphids - before.aphids) as i64,
            (summary.ladybugs - before.ladybugs) as i64,
            (summary.food - before.food) as i64,
        ],
    }
}

/// Which creature a hand edit works with.
#[derive(Clone, Copy, Debug, PartialEq, Eq, Structural)]
pub enum EditTool {
    Aphid,
    Ladybug,
    /// Clears a cell of every creature.
    Erase,
}

/// Whether a hand edit adds or removes.
#[derive(Clone, Copy, Debug, PartialEq, Eq, Structural)]
pub enum EditAction {
    Add,
    Remove,
}

/// One requested change to one cell.
#[derive(Clone, Copy, Debug, PartialEq, Eq, Structural)]
pub struct CellEdit {
    pub row: usize,
    pub col: usize,
    pub tool: EditTool,
    pub action: EditAction,
}

/// Whether the board is being edited, and with which tool.
#[derive(Clone, Copy, Debug, PartialEq, Eq, Structural)]
pub struct EditMode {
    pub enabled: bool,
    pub tool: EditTool,
}

impl EditMode {
    /// Picking a tool also starts editing.
    pub fn select(&mut self, tool: EditTool)
        ensures
            *final(self) == (EditMode { enabled: true, tool }),
    {
        self.tool = tool;
        self.enabled = true;
    }
}

/// Whether an edit would change the board: adding always does on the board,
/// removing needs a creature of that kind in the cell, and erasing any
/// creature.
pub open spec fn can_change(board: BoardView, edit: CellEdit) -> bool {
    let location = Coordinates { x: edit.row, y: edit.col };
    let cell = board.field[board.index_of(location)];
    &&& board.in_bounds(location)
    &&& match edit.tool {
        EditTool::Erase => cell.aphids.len() > 0 || cell.ladybugs.len() > 0,
        EditTool::Aphid => edit.action == EditAction::Add || cell.aphids.len() > 0,
        EditTool::Ladybug => edit.action == EditAction::Add || cell.ladybugs.len() > 0,
    }
}

/// `after` is `before` with the cell at `location` cleared of every creature:
/// they leave the table, the active list and the totals; the food stays.
pub open spec fn cell_erased(before: BoardView, after: BoardView, location: Coordinates) -> bool {
    let i = before.index_of(location);
    let cell = before.field[i];
    &&& after.field == before.field.update(i, CellView { aphids: Seq::empty(), ladybugs: Seq::empty(), food: cell.food })
    &&& after.creatures.len() == before.creatures.len()
    &&& forall|c: int|
        0 <= c < before.creatures.len() ==> #[trigger] after.creatures[c] == if cell.aphids.contains(c as usize)
            || cell.ladybugs.contains(c as usize) {
            None
        } else {
            before.creatures[c]
        }
    &&& after.cell_slots == before.cell_slots
    &&& forall|x: usize| #[trigger] after.active.contains(x) <==> before.active.contains(x) && !cell.aphids.contains(x)
        && !cell.ladybugs.contains(x)
    &&& after.summary.aphids == before.summary.aphids - cell.aphids.len()
    &&& after.summary.ladybugs == before.summary.ladybugs - cell.ladybugs.len()
    &&& after.summary.food == before.summary.food
    &&& after.rows == before.rows
    &&& after.cols == before.cols
}

/// What an edit that changes the board does to it.
pub open spec fn edited(before: BoardView, after: BoardView, edit: CellEdit) -> bool {
    let location = Coordinates { x: edit.row, y: edit.col };
    let id = before.creatures.len() as usize;
    match edit.tool {
        EditTool::Erase => cell_erased(before, after, location),
        EditTool::Aphid => if edit.action == EditAction::Add {
            aphid_added(before, after, location, EDIT_APHID_LIFE, id)
        } else {
            last_removed(before, after, location, CreatureKind::Aphid)
        },
        EditTool::Ladybug => if edit.action == EditAction::Add {
            ladybug_added(before, after, location, EDIT_LADYBUG_LIFE, id)
        } else {
            last_removed(before, after, location, CreatureKind::Ladybug)
        },
    }
}

/// Removes every creature of `kind` from a cell, last first.
fn clear_kind(board: &mut Board, x: usize, y: usize, kind: CreatureKind)
    requires
        old(board)@.wf(),
        old(board)@.in_bounds(Coordinates { x, y }),
    ensures
        final(board)@.wf(),
        ({
            let before = old(board)@;
            let after = final(board)@;
            let i = before.index_of(Coordinates { x, y });
            let list = before.field[i].occupants(kind);
            &&& after.field == before.field.update(i, before.field[i].with_occupants(kind, Seq::empty()))
            &&& after.creatures.len() == before.creatures.len()
            &&& forall|c: int|
                0 <= c < before.creatures.len() ==> #[trigger] after.creatures[c] == if list.contains(c as usize) {
                    None
                } else {
                    before.creatures[c]
                }
            &&& after.cell_slots == before.cell_slots
            &&& forall|z: usize| #[trigger] after.active.contains(z) <==> before.active.contains(z) && !list.contains(z)
            &&& kind == CreatureKind::Aphid ==> after.summary.aphids == before.summary.aphids - list.len()
                && after.summary.ladybugs == before.summary.ladybugs
            &&& kind == CreatureKind::Ladybug ==> after.summary.ladybugs == before.summary.ladybugs - list.len()
                && after.summary.aphids == before.summary.aphids
            &&& after.summary.food == before.summary.food
            &&& after.rows == before.rows
            &&& after.cols == before.cols
        }),
{
    let ghost b0 = board@;
    let location = Coordinates { x, y };
    let ghost i = b0.index_of(location);
    let ghost list = b0.field[i].occupants(kind);
    let ghost n = list.len();
    proof {
        crate::model::lemma_index_in_field(b0.rows as int, b0.cols as int, x as int, y as int);
        assert(list.subrange(0, n as int) =~= list);
        assert(b0.field.update(i, b0.field[i].with_occupants(kind, list)) =~= b0.field);
        assert forall|c: int| 0 <= c < b0.creatures.len() implies #[trigger] b0.creatures[c] == if list.subrange(
            n as int,
            n as int,
        ).contains(c as usize) {
            None
        } else {
            b0.creatures[c]
        } by {}
    }
    loop
        invariant
            location == (Coordinates { x, y }),
            board@.wf(),
            board@.rows == b0.rows,
            board@.cols == b0.cols,
            b0.in_bounds(location),
            0 <= i < b0.field.len(),
            i == board@.index_of(location),
            list == b0.field[i].occupants(kind),
            n == list.len(),
            board@.field[i].occupants(kind).len() <= n,
            board@.field == b0.field.update(
                i,
                b0.field[i].with_occupants(kind, list.subrange(0, board@.field[i].occupants(kind).len() as int)),
            ),
            board@.creatures.len() == b0.creatures.len(),
            forall|c: int|
                0 <= c < b0.creatures.len() ==> #[trigger] board@.creatures[c] == if list.subrange(
                    board@.field[i].occupants(kind).len() as int,
                    n as int,
                ).contains(c as usize) {
                    None
                } else {
                    b0.creatures[c]
                },
            board@.cell_slots == b0.cell_slots,
            forall|z: usize| #[trigger] board@.active.contains(z) <==> b0.active.contains(z) && !list.subrange(
                board@.field[i].occupants(kind).len() as int,
                n as int,
            ).contains(z),
            kind == CreatureKind::Aphid ==> board@.summary.aphids == b0.summary.aphids - (n
                - board@.field[i].occupants(kind).len()) && board@.summary.ladybugs == b0.summary.ladybugs,
            kind == CreatureKind::Ladybug ==> board@.summary.ladybugs == b0.summary.ladybugs - (n
                - board@.field[i].occupants(kind).len()) && board@.summary.aphids == b0.summary.aphids,
            board@.summary.food == b0.summary.food,
        ensures
            board@.field[i].occupants(kind).len() == 0,
        decreases board@.field[i].occupants(kind).len(),
    {
        let ghost prev = board@;
        let ghost m = prev.field[i].occupants(kind).len();
        proof {
            assert(prev.occupants_at(location, kind) == prev.field[i].occupants(kind));
            assert(prev.in_bounds(location));
        }
        let removed = match kind {
            CreatureKind::Aphid => {
                let removed = board.remove_aphid_at(x, y);
                proof {
                    assert(removed == (m > 0));
                    assert(removed ==> last_removed(prev, board@, location, kind));
                }
                removed
            },
            CreatureKind::Ladybug => {
                let removed = board.remove_ladybug_at(x, y);
                proof {
                    assert(removed == (m > 0));
                    assert(removed ==> last_removed(prev, board@, location, kind));
                }
                removed
            },
        };
        if !removed {
            break;
        }
        proof {
            let cur = board@;
            let id = list[m - 1];
            assert(prev.occupants_at(location, kind) == list.subrange(0, m as int));
            assert(list.subrange(0, m as int).last() == id);
            assert(list.subrange(0, m as int).drop_last() =~= list.subrange(0, m - 1));
            assert(prev.field[i].with_occupants(kind, list.subrange(0, m - 1)) == b0.field[i].with_occupants(
                kind,
                list.subrange(0, m - 1),
            ));
            assert(cur.field =~= b0.field.update(i, b0.field[i].with_occupants(kind, list.subrange(0, m - 1))));
            assert(cur.field[i].occupants(kind) == list.subrange(0, m - 1));
            let tail = list.subrange(m - 1, n as int);
            let rest = list.subrange(m as int, n as int);
            assert(tail[0] == id);
            assert forall|p: int| 0 <= p < rest.len() implies #[trigger] rest[p] == tail[p + 1] by {}
            assert forall|c: int| 0 <= c < b0.creatures.len() implies #[trigger] cur.creatures[c] == if tail.contains(
                c as usize,
            ) {
                None
            } else {
                b0.creatures[c]
            } by {
                if rest.contains(c as usize) {
                    let p = choose|p: int| 0 <= p < rest.len() && #[trigger] rest[p] == c as usize;
                    assert(tail[p + 1] == c as usize);
                }
                if c as usize != id && tail.contains(c as usize) {
                    let p = choose|p: int| 0 <= p < tail.len() && #[trigger] tail[p] == c as usize;
                    assert(p != 0);
                    assert(rest[p - 1] == c as usize);
                }
            }
            assert forall|z: usize| #[trigger] cur.active.contains(z) <==> b0.active.contains(z) && !tail.contains(z) by {
                if rest.contains(z) {
                    let p = choose|p: int| 0 <= p < rest.len() && #[trigger] rest[p] == z;
                    assert(tail[p + 1] == z);
                }
                if z != id && tail.contains(z) {
                    let p = choose|p: int| 0 <= p < tail.len() && #[trigger] tail[p] == z;
                    assert(p != 0);
                    assert(rest[p - 1] == z);
                }
            }
            crate::laws::law_cells_and_creatures_agree(prev, 0, i, kind, m - 1);
            crate::model::lemma_count_update(prev.creatures, id as int, None, kind);
        }
    }
    proof {
        let cur = board@;
        assert(cur.field[i].occupants(kind).len() == 0);
        assert(list.subrange(0, n as int) =~= list);
        assert(list.subrange(0, 0) =~= Seq::<usize>::empty());
    }
}

/// Editing pauses the run, and resuming the run ends editing, whichever
/// control did it. `mode_changed` and `playing_changed` say which of the two
/// changed since this last ran; a change to the editing mode wins.
pub fn exclusive_play_and_edit(
    playing: &mut bool,
    mode: &mut EditMode,
    mode_changed: bool,
    playing_changed: bool,
)
    ensures
        if mode_changed && old(mode).enabled && *old(playing) {
            !*final(playing) && *final(mode) == *old(mode)
        } else if playing_changed && *old(playing) && old(mode).enabled {
            *final(playing) && *final(mode) == (EditMode { enabled: false, tool: old(mode).tool })
        } else {
            *final(playing) == *old(playing) && *final(mode) == *old(mode)
        },
{
    if mode_changed && mode.enabled && *playing {
        *playing = false;
    } else if playing_changed && *playing && mode.enabled {
        mode.enabled = false;
    }
}

/// Everything an undo restores: the board, the generator, the totals and the
/// history, exactly as they were before an edit.
pub struct EditSnapshot<C> {
    pub board: Board,
    pub random: Random,
    pub stats: Stats,
    pub history: History<C>,
}

/// `after` is `before` one turn on, as a step leaves it: the board played a
/// turn from the same generator, the totals and history record it, the species
/// that died out in it are marked, the undo stack is emptied and the revision
/// counts one more change; the playing flag is kept.
pub open spec fn stepped_run<C>(before: Simulation<C>, after: Simulation<C>) -> bool {
    let board = after.board@;
    let stats = after.stats;
    let turn = TurnStats { births: stats.births, deaths: stats.deaths, summary: board.summary };
    let extinctions = [
        before.stats.aphids > 0 && board.summary.aphids == 0,
        before.stats.ladybugs > 0 && board.summary.ladybugs == 0,
    ];
    let points = recorded(before.history.0@, stats.turn, board.summary.aphids, board.summary.ladybugs);
    let events = events_since(before.history.1@, points[0].turn);
    &&& turn_outcome(before.board@, board, turn)
    &&& stats == stepped_stats(before.stats, stats.births, stats.deaths, board.summary)
    &&& after.history.0@ == points
    &&& if extinctions[0] || extinctions[1] {
        marked(events, after.history.1@, stats.turn, extinctions)
    } else {
        after.history.1@ == events
    }
    &&& after.playing == before.playing
    &&& after.edits@.len() == 0
    &&& after.revision == before.revision + 1
    &&& extends(before.random, after.random)
    &&& played_as_drawn(before.board@, drawn_since(before.random, after.random), after.board@)
}

/// A run: the board and its generator, the totals, the population history,
/// whether it is playing, and the edits that can be undone.
pub struct Simulation<C> {
    pub board: Board,
    pub random: Random,
    pub stats: Stats,
    pub history: History<C>,
    pub playing: bool,
    pub edits: Vec<EditSnapshot<C>>,
    /// Counts the changes to the board that renderers must redraw.
    pub revision: u64,
}

/// Whether a snapshot holds what `simulation` holds.
pub open spec fn holds_state<C>(snapshot: EditSnapshot<C>, simulation: Simulation<C>) -> bool {
    &&& snapshot.board@ == simulation.board@
    &&& snapshot.random == simulation.random
    &&& snapshot.stats == simulation.stats
    &&& snapshot.history.0@ == simulation.history.0@
    &&& snapshot.history.1@ == simulation.history.1@
}

/// Whether the undo stack, stats, history and playing flag of `after` are those
/// of a run that starts over from its board.
pub open spec fn restarted<C>(after: Simulation<C>) -> bool {
    &&& after.stats == starting_stats(after.board@.summary)
    &&& !after.playing
    &&& after.history.0@ == seq![HistoryPoint { turn: 0, aphids: after.board@.summary.aphids, ladybugs: after.board@.summary.ladybugs }]
    &&& after.history.1@ == Seq::<HistoryEvent<C>>::empty()
}

/// The undo stack an edit keeps: all of it, or all but the oldest entry when it
/// is full.
pub open spec fn kept_edits<C>(edits: Seq<EditSnapshot<C>>) -> Seq<EditSnapshot<C>> {
    if edits.len() == EDIT_UNDO_LIMIT {
        edits.drop_first()
    } else {
        edits
    }
}

/// What an edit does to a run: it changes the board exactly when
/// `can_change` says so, and then the state before it goes on the undo stack
/// and the run starts over from the edited board; otherwise nothing changes.
pub open spec fn edit_outcome<C>(before: Simulation<C>, after: Simulation<C>, edit: CellEdit, changed: bool) -> bool {
    &&& changed == can_change(before.board@, edit)
    &&& !changed ==> after == before
    &&& changed ==> {
        &&& edited(before.board@, after.board@, edit)
        &&& after.board@.wf()
        &&& after.edits@.len() == kept_edits(before.edits@).len() + 1
        &&& after.edits@.drop_last() == kept_edits(before.edits@)
        &&& holds_state(after.edits@.last(), before)
        &&& restarted(after)
        &&& after.revision == before.revision + 1
        &&& (edit.tool != EditTool::Ladybug || edit.action != EditAction::Add) ==> after.random == before.random
    }
}

/// What an undo does to a run: with an edit to undo, the run goes back to the
/// state saved before it, paused; with none, nothing changes.
pub open spec fn undo_outcome<C>(before: Simulation<C>, after: Simulation<C>, undone: bool) -> bool {
    &&& undone == (before.edits@.len() > 0)
    &&& !undone ==> after == before
    &&& undone ==> {
        let snapshot = before.edits@.last();
        &&& after.board == snapshot.board
        &&& after.random == snapshot.random
        &&& after.stats == snapshot.stats
        &&& after.history == snapshot.history
        &&& !after.playing
        &&& after.edits@ == before.edits@.drop_last()
        &&& after.revision == before.revision + 1
    }
}

impl<C: Copy> Simulation<C> {
    /// The state an undo would restore.
    fn snapshot(&self) -> (snapshot: EditSnapshot<C>)
        ensures
            holds_state(snapshot, *self),
    {
        EditSnapshot {
            board: self.board.duplicate(),
            random: self.random.duplicate(),
            stats: self.stats,
            history: self.history.duplicate(),
        }
    }

    /// Starts the run over from the board as it is now: the run pauses, and
    /// the turn count and the history begin again.
    pub fn restart_from_edit(&mut self)
        requires
            old(self).board@.wf(),
            old(self).revision < u64::MAX,
        ensures
            final(self).board == old(self).board,
            final(self).random == old(self).random,
            final(self).edits@ == old(self).edits@,
            final(self).revision == old(self).revision + 1,
            restarted(*final(self)),
    {
        let summary = self.board.summary();
        self.stats = Stats {
            turn: 0,
            aphids: summary.aphids,
            ladybugs: summary.ladybugs,
            food: summary.food,
            births: 0,
            deaths: 0,
            extinct: summary.is_extinct(),
            deltas: [0, 0, 0],
        };
        self.playing = false;
        self.history.0.clear();
        self.history.1.clear();
        self.history.record(0, summary.aphids, summary.ladybugs);
        self.revision = self.revision + 1;
        proof {
            assert(self.history.0@ =~= seq![HistoryPoint { turn: 0, aphids: summary.aphids, ladybugs: summary.ladybugs }]);
            assert(self.history.1@ =~= Seq::<HistoryEvent<C>>::empty());
        }
    }

    /// Advances one turn, records it in the history, marks the species that
    /// died out in it, and drops the edits that could be undone.
    pub fn step<O: Odds>(&mut self, odds: &O)
        requires
            old(self).board@.wf(),
            old(self).stats.turn < usize::MAX,
            old(self).revision < u64::MAX,
        ensures
            stepped_run(*old(self), *final(self)),
    {
        self.edits.clear();
        let turn = self.board.refresh(&mut self.random, odds);
        let summary = turn.summary;
        let extinctions = [
            self.stats.aphids > 0 && summary.aphids == 0,
            self.stats.ladybugs > 0 && summary.ladybugs == 0,
        ];
        let deltas = [
            (summary.aphids as i128 - self.stats.aphids as i128) as i64,
            (summary.ladybugs as i128 - self.stats.ladybugs as i128) as i64,
            (summary.food as i64 - self.stats.food as i64),
        ];
        self.stats = Stats {
            turn: self.stats.turn + 1,
            aphids: summary.aphids,
            ladybugs: summary.ladybugs,
            food: summary.food,
            births: turn.births,
            deaths: turn.deaths,
            extinct: summary.is_extinct(),
            deltas,
        };
        self.history.record(self.stats.turn, summary.aphids, summary.ladybugs);
        if extinctions[0] || extinctions[1] {
            let event = self.history.event(self.stats.turn);
            event.extinctions = extinctions;
        }
        self.revision = self.revision + 1;
    }

    /// Applies one cell edit and returns whether the board changed. Adding
    /// always changes a cell on the board; removing does nothing on a cell
    /// without that kind of creature, and then the run carries on untouched. A
    /// change can be undone, and starts the run over from the edited board.
    pub fn edit(&mut self, edit: CellEdit) -> (changed: bool)
        requires
            old(self).board@.wf(),
            old(self).revision < u64::MAX,
        ensures
            edit_outcome(*old(self), *final(self), edit, changed),
    {
        let cell = match self.board.cell_snapshot(edit.row, edit.col) {
            Some(cell) => cell,
            None => {
                return false;
            },
        };
        let can_change = match edit.tool {
            EditTool::Erase => cell.aphids > 0 || cell.ladybugs > 0,
            EditTool::Aphid => match edit.action {
                EditAction::Add => true,
                EditAction::Remove => cell.aphids > 0,
            },
            EditTool::Ladybug => match edit.action {
                EditAction::Add => true,
                EditAction::Remove => cell.ladybugs > 0,
            },
        };
        if !can_change {
            return false;
        }
        let snapshot = self.snapshot();
        let ghost before = self.board@;
        let location = Coordinates { x: edit.row, y: edit.col };
        let changed = match edit.tool {
            EditTool::Aphid => match edit.action {
                EditAction::Add => self.board.add_aphid(edit.row, edit.col, EDIT_APHID_LIFE).is_some(),
                EditAction::Remove => self.board.remove_aphid_at(edit.row, edit.col),
            },
            EditTool::Ladybug => match edit.action {
                EditAction::Add => self.board.add_ladybug(
                    edit.row,
                    edit.col,
                    EDIT_LADYBUG_LIFE,
                    &mut self.random,
                ).is_some(),
                EditAction::Remove => self.board.remove_ladybug_at(edit.row, edit.col),
            },
            EditTool::Erase => {
                clear_kind(&mut self.board, edit.row, edit.col, CreatureKind::Aphid);
                let ghost middle = self.board@;
                clear_kind(&mut self.board, edit.row, edit.col, CreatureKind::Ladybug);
                proof {
                    let after = self.board@;
                    let i = before.index_of(location);
                    let cell = before.field[i];
                    crate::model::lemma_index_in_field(
                        before.rows as int,
                        before.cols as int,
                        edit.row as int,
                        edit.col as int,
                    );
                    assert(0 <= i < before.field.len());
                    assert(middle.index_of(location) == i);
                    assert(middle.field[i].ladybugs == cell.ladybugs);
                    assert(after.field =~= before.field.update(
                        i,
                        CellView { aphids: Seq::empty(), ladybugs: Seq::empty(), food: cell.food },
                    ));
                    assert forall|c: int| 0 <= c < before.creatures.len() implies #[trigger] after.creatures[c]
                        == if cell.aphids.contains(c as usize) || cell.ladybugs.contains(c as usize) {
                        None
                    } else {
                        before.creatures[c]
                    } by {
                        assert(middle.creatures[c] == if cell.aphids.contains(c as usize) {
                            None
                        } else {
                            before.creatures[c]
                        });
                    }
                    assert forall|z: usize| #[trigger] after.active.contains(z) <==> before.active.contains(z)
                        && !cell.aphids.contains(z) && !cell.ladybugs.contains(z) by {
                        assert(middle.active.contains(z) <==> before.active.contains(z) && !cell.aphids.contains(z));
                    }
                }
                true
            },
        };
        if changed {
            let ghost old_edits = self.edits@;
            if self.edits.len() == EDIT_UNDO_LIMIT {
                self.edits.remove(0);
            }
            proof {
                assert(self.edits@ =~= kept_edits(old_edits));
            }
            self.edits.push(snapshot);
            self.restart_from_edit();
            proof {
                assert(edited(before, self.board@, edit));
                assert(self.edits@.drop_last() =~= kept_edits(old_edits));
            }
        }
        changed
    }

    /// Starts or pauses the run; a run that died out stays as it is.
    pub fn toggle_play(&mut self)
        ensures
            final(self).playing == if old(self).stats.extinct {
                old(self).playing
            } else {
                !old(self).playing
            },
            final(self).board == old(self).board,
            final(self).random == old(self).random,
            final(self).stats == old(self).stats,
            final(self).history == old(self).history,
            final(self).edits == old(self).edits,
            final(self).revision == old(self).revision,
    {
        if !self.stats.extinct {
            self.playing = !self.playing;
        }
    }

    /// Advances one turn when the run plays, has not died out, and its timer
    /// says a turn is due; returns whether it did.
    pub fn step_when_due<O: Odds>(&mut self, due: bool, odds: &O) -> (stepped: bool)
        requires
            old(self).board@.wf(),
            old(self).stats.turn < usize::MAX,
            old(self).revision < u64::MAX,
        ensures
            stepped == (old(self).playing && !old(self).stats.extinct && due),
            !stepped ==> *final(self) == *old(self),
            stepped ==> final(self).stats.turn == old(self).stats.turn + 1 && final(self).edits@.len() == 0
                && final(self).board@.wf() && final(self).playing,
            stepped ==> stepped_run(*old(self), *final(self)),
    {
        if !self.playing || self.stats.extinct || !due {
            return false;
        }
        self.step(odds);
        true
    }

    /// One turn on demand: the run pauses, then advances unless it died out.
    pub fn step_once<O: Odds>(&mut self, odds: &O)
        requires
            old(self).board@.wf(),
            old(self).stats.turn < usize::MAX,
            old(self).revision < u64::MAX,
        ensures
            !final(self).playing,
            old(self).stats.extinct ==> final(self).board == old(self).board && final(self).random
                == old(self).random && final(self).stats == old(self).stats && final(self).history
                == old(self).history && final(self).edits == old(self).edits && final(self).revision
                == old(self).revision,
            !old(self).stats.extinct ==> final(self).stats.turn == old(self).stats.turn + 1
                && final(self).edits@.len() == 0 && final(self).board@.wf(),
            !old(self).stats.extinct ==> stepped_run(Simulation { playing: false, ..*old(self) }, *final(self)),
    {
        self.playing = false;
        if !self.stats.extinct {
            self.step(odds);
        }
    }

    /// Starts the run over on `board` with `random`, as a reset does: the
    /// edits that could be undone are dropped.
    pub fn restart_with(&mut self, board: Board, random: Random)
        requires
            board@.wf(),
            old(self).revision < u64::MAX,
        ensures
            final(self).board == board,
            final(self).random == random,
            final(self).edits@.len() == 0,
            restarted(*final(self)),
    {
        self.edits.clear();
        self.board = board;
        self.random = random;
        self.restart_from_edit();
    }

    /// Undoes the last edit and goes back to editing, as the undo control does;
    /// with nothing to undo, nothing changes.
    pub fn undo_edit(&mut self, mode: &mut EditMode) -> (undone: bool)
        requires
            old(self).revision < u64::MAX,
        ensures
            undone == (old(self).edits@.len() > 0),
            !undone ==> *final(self) == *old(self) && *final(mode) == *old(mode),
            undone ==> {
                let snapshot = old(self).edits@.last();
                &&& final(self).board == snapshot.board
                &&& final(self).random == snapshot.random
                &&& final(self).stats == snapshot.stats
                &&& final(self).history == snapshot.history
                &&& !final(self).playing
                &&& final(self).edits@ == old(self).edits@.drop_last()
                &&& final(self).revision == old(self).revision + 1
                &&& *final(mode) == (EditMode { enabled: true, tool: old(mode).tool })
            },
    {
        let undone = self.undo();
        if undone {
            mode.enabled = true;
        }
        undone
    }

    /// Leaves editing and pauses the run.
    pub fn finish_editing(&mut self, mode: &mut EditMode)
        ensures
            *final(mode) == (EditMode { enabled: false, tool: old(mode).tool }),
            !final(self).playing,
            final(self).board == old(self).board,
            final(self).random == old(self).random,
            final(self).stats == old(self).stats,
            final(self).history == old(self).history,
            final(self).edits == old(self).edits,
            final(self).revision == old(self).revision,
    {
        mode.enabled = false;
        self.playing = false;
    }

    /// Returns to the state before the last edit and pauses, or does nothing
    /// when there is no edit to undo.
    pub fn undo(&mut self) -> (undone: bool)
        requires
            old(self).revision < u64::MAX,
        ensures
            undo_outcome(*old(self), *final(self), undone),
    {
        if self.edits.len() == 0 {
            return false;
        }
        match self.edits.pop() {
            None => false,
            Some(snapshot) => {
                self.board = snapshot.board;
                self.random = snapshot.random;
                self.stats = snapshot.stats;
                self.history = snapshot.history;
                self.playing = false;
                self.revision = self.revision + 1;
                true
            },
        }
    }
}



/// Whether a character is white space as Unicode's `White_Space` property
/// defines it, the definition `str::trim` documents: the controls from tab to
/// carriage return, space, next line, no-break space, ogham space mark, the
/// spaces from en quad to hair space, the line and paragraph separators, the
/// narrow no-break space, the medium mathematical space and the ideographic
/// space.
pub open spec fn unicode_white_space(c: char) -> bool {
    let n = c as u32;
    ||| 0x9 <= n <= 0xD
    ||| n == 0x20
    ||| n == 0x85
    ||| n == 0xA0
    ||| n == 0x1680
    ||| 0x2000 <= n <= 0x200A
    ||| n == 0x2028
    ||| n == 0x2029
    ||| n == 0x202F
    ||| n == 0x205F
    ||| n == 0x3000
}

/// `start..end` is what trimming leaves of `text`: everything cut off is white
/// space, and what is left neither starts nor ends with it.
pub open spec fn trim_bounds(text: Seq<char>, start: int, end: int) -> bool {
    &&& 0 <= start <= end <= text.len()
    &&& forall|k: int| 0 <= k < start ==> unicode_white_space(#[trigger] text[k])
    &&& forall|k: int| end <= k < text.len() ==> unicode_white_space(#[trigger] text[k])
    &&& start < end ==> !unicode_white_space(text[start]) && !unicode_white_space(text[end - 1])
}

/// The `len` characters of `text` from `start` on lie in it, and everything
/// before and after them is white space.
pub open spec fn cut_off_white_space(text: Seq<char>, start: int, len: nat) -> bool {
    &&& 0 <= start
    &&& start + len <= text.len()
    &&& forall|k: int| 0 <= k < start ==> unicode_white_space(#[trigger] text[k])
    &&& forall|k: int| start + len <= k < text.len() ==> unicode_white_space(#[trigger] text[k])
}

/// `str::trim`: the text without leading and trailing white space. The claim
/// is that the result is a middle part of the text, that everything cut off
/// before and after it is white space, and that it neither starts nor ends
/// with white space.
#[verifier::external_body]
fn trimmed(text: &str) -> (middle: &str)
    ensures
        exists|start: int| #[trigger] cut_off_white_space(text@, start, middle@.len()) && middle@ == text@.subrange(start, start + middle@.len()),
        middle@.len() > 0 ==> !unicode_white_space(middle@[0]) && !unicode_white_space(middle@.last()),
{
    text.trim()
}

/// The seed a typed text gives: the text without surrounding white space, read
/// as an unsigned 64-bit number.
pub fn parse_seed(text: &str) -> (seed: Option<u64>)
    ensures
        exists|start: int, end: int|
            trim_bounds(text@, start, end) && seed == match bounded_number(
                #[trigger] text@.subrange(start, end),
                u64::MAX as nat,
            ) {
                Some(value) => Some(value as u64),
                None => None::<u64>,
            },
{
    let middle = trimmed(text);
    read_number(middle, u64::MAX)
}

/// What a front end reports after reading a typed seed.
pub open spec fn seed_message(seed: Option<u64>) -> Seq<char> {
    match seed {
        Some(value) => "Restarted from seed "@ + decimal(value as nat) + "."@,
        None => "Enter a whole seed from 0 to "@ + decimal(u64::MAX as nat) + "."@,
    }
}

/// The report after reading a typed seed: the seed the run restarted from, or
/// the range a seed must lie in.
pub fn seed_status(seed: Option<u64>) -> (message: String)
    ensures
        message@ == seed_message(seed),
{
    let mut message = String::new();
    match seed {
        Some(value) => {
            message.append("Restarted from seed ");
            push_decimal(&mut message, value);
        },
        None => {
            message.append("Enter a whole seed from 0 to ");
            push_decimal(&mut message, u64::MAX);
        },
    }
    message.append(".");
    message
}

/// What the status line calls the state of the run.
pub open spec fn run_state_text(editing: bool, stats: Stats, playing: bool) -> Seq<char> {
    if editing {
        "Editing (paused)"@
    } else if stats.extinct {
        "Extinct"@
    } else if playing {
        "Running"@
    } else {
        "Paused"@
    }
}

/// The status line: the state of the run and its turn.
pub open spec fn status_line(editing: bool, stats: Stats, playing: bool) -> Seq<char> {
    run_state_text(editing, stats, playing) + "  \u{b7}  Turn "@ + decimal(stats.turn as nat)
}

/// The status line of the run: its state, then its turn.
pub fn status_text(editing: bool, stats: Stats, playing: bool) -> (text: String)
    ensures
        text@ == status_line(editing, stats, playing),
{
    let mut text = String::new();
    if editing {
        text.append("Editing (paused)");
    } else if stats.extinct {
        text.append("Extinct");
    } else if playing {
        text.append("Running");
    } else {
        text.append("Paused");
    }
    text.append("  \u{b7}  Turn ");
    push_decimal(&mut text, stats.turn as u64);
    text
}

/// The caption of the play control: it offers to pause a run that plays and
/// has not died out, and to play otherwise.
pub fn play_label(stats: Stats, playing: bool) -> (label: &'static str)
    ensures
        label@ == if playing && !stats.extinct {
            "Pause"@
        } else {
            "Play"@
        },
{
    if playing && !stats.extinct {
        "Pause"
    } else {
        "Play"
    }
}

/// A change with its sign always shown: `+3`, `+0`, `-2`.
pub open spec fn signed_change(n: int) -> Seq<char> {
    if n >= 0 {
        "+"@ + decimal(n as nat)
    } else {
        signed_decimal(n)
    }
}

/// The readout a summary card shows: 0 to 2 are the aphids, the ladybugs and
/// the food; 3 and 4 the births and deaths of the last turn; 5 the seed; 6 to
/// 8 the changes of the aphids, the ladybugs and the food over the last turn.
pub open spec fn readout(index: nat, stats: Stats, seed: u64) -> Seq<char> {
    if index == 0 {
        decimal(stats.aphids as nat)
    } else if index == 1 {
        decimal(stats.ladybugs as nat)
    } else if index == 2 {
        signed_decimal(stats.food as int)
    } else if index == 3 {
        "+"@ + decimal(stats.births as nat)
    } else if index == 4 {
        "\u{2212}"@ + decimal(stats.deaths as nat)
    } else if index == 5 {
        decimal(seed as nat)
    } else {
        signed_change(stats.deltas@[index - 6] as int) + "\nthis turn"@
    }
}

/// The text of summary readout `index`, as `readout` describes.
pub fn readout_text(index: usize, stats: Stats, seed: u64) -> (text: String)
    requires
        index < 9,
    ensures
        text@ == readout(index as nat, stats, seed),
{
    let mut text = String::new();
    if index == 0 {
        push_decimal(&mut text, stats.aphids as u64);
    } else if index == 1 {
        push_decimal(&mut text, stats.ladybugs as u64);
    } else if index == 2 {
        push_signed_decimal(&mut text, stats.food as i64);
    } else if index == 3 {
        text.append("+");
        push_decimal(&mut text, stats.births as u64);
    } else if index == 4 {
        text.append("\u{2212}");
        push_decimal(&mut text, stats.deaths as u64);
    } else if index == 5 {
        push_decimal(&mut text, seed);
    } else {
        let change = stats.deltas[index - 6];
        if change >= 0 {
            text.append("+");
        }
        push_signed_decimal(&mut text, change);
        text.append("\nthis turn");
        proof {
            if change >= 0 {
                assert(signed_decimal(change as int) == decimal(change as nat));
            }
        }
    }
    proof {
        reveal_strlit("");
    }
    text
}
} // verus!
