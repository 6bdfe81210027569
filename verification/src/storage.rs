//! The replica's storage engine: committed reports, the proofs index, the
//! blacklist and the replay-protection nonce sets.
//!
//! One committed report is kept per `(epoch, idx)`. A second write for the
//! same pair with a different location blacklists the writer and fails; a
//! write with the same location is an idempotent success. The blacklist only
//! grows, and a blacklisted index can never write again.

use vstd::prelude::*;
use crate::collections::{bytes_eq, USet};

verus! {

/// Whether `(x, y)` lies inside a square grid with edge `size`.
pub open spec fn pos_in_bounds(size: int, x: int, y: int) -> bool {
    0 <= x < size && 0 <= y < size
}

/// The Moore neighbourhood of `(x, y)`, clamped to the grid: inclusive lower
/// and upper bounds for each coordinate.
pub open spec fn clamped_lower(v: usize) -> usize {
    if v == 0 {
        v
    } else {
        (v - 1) as usize
    }
}

/// Inclusive upper bound of the clamped neighbourhood along one axis.
pub open spec fn clamped_upper(size: usize, v: usize) -> usize {
    if v + 1 == size {
        v
    } else {
        (v + 1) as usize
    }
}

/// Whether `(a, b)` lies in the clamped Moore neighbourhood of `(x, y)`.
pub open spec fn in_neighbourhood(size: usize, x: usize, y: usize, a: usize, b: usize) -> bool {
    clamped_lower(x) <= a <= clamped_upper(size, x) && clamped_lower(y) <= b <= clamped_upper(
        size,
        y,
    )
}

/// A bare grid coordinate, as stored state carries it.
#[derive(Debug, PartialEq, Eq, Structural, Clone, Copy)]
pub struct Location {
    pub pos_x: usize,
    pub pos_y: usize,
}

/// One committed report: who, when, where, and the signed bytes kept
/// verbatim so reads can forward them without re-signing.
pub struct Report {
    pub loc: (usize, usize),
    pub report: Vec<u8>,
}

impl Report {
    pub fn new(loc: (usize, usize), report: Vec<u8>) -> (r: Report)
        ensures
            r.loc == loc,
            r.report == report,
    {
        Report { loc, report }
    }
}

/// One row of the routes index: the committed report of `idx` at `epoch`.
pub struct RouteRow {
    pub epoch: usize,
    pub idx: usize,
    pub x: usize,
    pub y: usize,
    pub report: Vec<u8>,
}

/// A square grid of user sets, one per cell.
pub struct Grid {
    pub grid: Vec<Vec<USet>>,
    pub size: usize,
}

impl Grid {
    pub open spec fn wf(self) -> bool {
        &&& self.grid@.len() == self.size
        &&& forall|i: int|
            0 <= i < self.size ==> (#[trigger] self.grid@[i])@.len() == self.size
        &&& forall|i: int, j: int|
            0 <= i < self.size && 0 <= j < self.size ==> (#[trigger] self.grid@[i]@[j]).wf()
    }

    /// The set of users recorded at cell `(x, y)`.
    pub open spec fn cell(self, x: int, y: int) -> USet {
        self.grid@[x]@[y]
    }

    pub fn new_empty(size: usize) -> (r: Grid)
        ensures
            r.wf(),
            r.size == size,
            forall|i: int, j: int|
                0 <= i < size && 0 <= j < size ==> (#[trigger] r.cell(i, j)).count() == 0,
    {
        let mut grid: Vec<Vec<USet>> = Vec::new();
        let mut i: usize = 0;
        while i < size
            invariant
                0 <= i <= size,
                grid@.len() == i,
                forall|a: int| 0 <= a < i ==> (#[trigger] grid@[a])@.len() == size,
                forall|a: int, b: int|
                    0 <= a < i && 0 <= b < size ==> (#[trigger] grid@[a]@[b]).wf() && grid@[a]@[b].count()
                        == 0,
            decreases size - i,
        {
            let mut row: Vec<USet> = Vec::new();
            let mut j: usize = 0;
            while j < size
                invariant
                    0 <= j <= size,
                    row@.len() == j,
                    forall|b: int|
                        0 <= b < j ==> (#[trigger] row@[b]).wf() && row@[b].count() == 0,
                decreases size - j,
            {
                row.push(USet::new());
                j += 1;
            }
            grid.push(row);
            i += 1;
        }
        Grid { grid, size }
    }

    /// Records `idx` at `(x, y)`; recording the same user twice is harmless.
    pub fn add_user_location(&mut self, pos_x: usize, pos_y: usize, idx: usize)
        requires
            old(self).wf(),
            pos_in_bounds(old(self).size as int, pos_x as int, pos_y as int),
        ensures
            final(self).wf(),
            final(self).size == old(self).size,
            final(self).cell(pos_x as int, pos_y as int).has(idx),
            forall|y: usize|
                y != idx ==> final(self).cell(pos_x as int, pos_y as int).has(y) == old(self).cell(
                    pos_x as int,
                    pos_y as int,
                ).has(y),
            forall|a: int, b: int|
                0 <= a < old(self).size && 0 <= b < old(self).size && !(a == pos_x as int && b
                    == pos_y as int) ==> #[trigger] final(self).cell(a, b) == old(self).cell(a, b),
    {
        let row = vstd::std_specs::vec::vec_index_mut(&mut self.grid, pos_x);
        let cell = vstd::std_specs::vec::vec_index_mut(row, pos_y);
        cell.insert(idx);
    }

    /// The users recorded at `(x, y)`, in the order they arrived.
    pub fn get_users_at_location(&self, pos_x: usize, pos_y: usize) -> (r: Vec<usize>)
        requires
            self.wf(),
            pos_in_bounds(self.size as int, pos_x as int, pos_y as int),
        ensures
            r@ == self.cell(pos_x as int, pos_y as int).items@,
    {
        let mut out: Vec<usize> = Vec::new();
        let cell = &self.grid[pos_x][pos_y];
        let n = cell.items.len();
        let mut i: usize = 0;
        while i < n
            invariant
                n == cell.items@.len(),
                0 <= i <= n,
                out@ == cell.items@.take(i as int),
            decreases n - i,
        {
            out.push(cell.items[i]);
            proof {
                assert(out@ =~= cell.items@.take(i + 1));
            }
            i += 1;
        }
        proof {
            assert(cell.items@.take(n as int) =~= cell.items@);
        }
        out
    }
}

/// Why a write was rejected.
#[derive(Debug, PartialEq, Eq, Structural, Clone, Copy)]
pub enum StorageError {
    /// The writer is on the blacklist.
    Blacklisted,
    /// The reported location lies outside the grid.
    InvalidPosition,
    /// A different location was already committed for this `(epoch, idx)`.
    Equivocation,
}

/// Whether the routes hold a committed report for `(epoch, idx)`.
pub open spec fn has_route(rows: Seq<RouteRow>, e: usize, i: usize) -> bool {
    exists|j: int| 0 <= j < rows.len() && rows[j].epoch == e && rows[j].idx == i
}

/// The committed report for `(epoch, idx)`, when there is one.
pub open spec fn route_of(rows: Seq<RouteRow>, e: usize, i: usize) -> Option<RouteRow> {
    if has_route(rows, e, i) {
        Some(rows[choose|j: int| 0 <= j < rows.len() && rows[j].epoch == e && rows[j].idx == i])
    } else {
        None
    }
}

/// The `(idx, signed bytes)` pairs of all reports committed for `epoch` at
/// `(x, y)`, in commit order.
pub open spec fn users_at(rows: Seq<RouteRow>, e: usize, x: usize, y: usize) -> Seq<
    (usize, Seq<u8>),
>
    decreases rows.len(),
{
    if rows.len() == 0 {
        Seq::empty()
    } else {
        let rest = users_at(rows.drop_last(), e, x, y);
        let last = rows.last();
        if last.epoch == e && last.x == x && last.y == y {
            rest.push((last.idx, last.report@))
        } else {
            rest
        }
    }
}

/// The signed proofs issued by `idx` during any of the given epochs, in the
/// order they were stored.
pub open spec fn proofs_for(
    rows: Seq<(usize, usize, Vec<u8>)>,
    idx: usize,
    epochs: Seq<usize>,
) -> Seq<Seq<u8>>
    decreases rows.len(),
{
    if rows.len() == 0 {
        Seq::empty()
    } else {
        let rest = proofs_for(rows.drop_last(), idx, epochs);
        let last = rows.last();
        if last.0 == idx && epochs.contains(last.1) {
            rest.push(last.2@)
        } else {
            rest
        }
    }
}

/// After committing a report for a pair that had none, that pair resolves to
/// the new row and every other pair is untouched.
pub proof fn lemma_route_of_push(rows: Seq<RouteRow>, row: RouteRow)
    requires
        forall|i: int, j: int|
            0 <= i < j < rows.len() ==> !((#[trigger] rows[i]).epoch == (#[trigger] rows[j]).epoch
                && rows[i].idx == rows[j].idx),
        !has_route(rows, row.epoch, row.idx),
    ensures
        route_of(rows.push(row), row.epoch, row.idx) == Some(row),
        forall|e: usize, i: usize|
            !(e == row.epoch && i == row.idx) ==> route_of(rows.push(row), e, i) == route_of(
                rows,
                e,
                i,
            ),
{
    let after = rows.push(row);
    let last = after.len() - 1;
    assert(after[last] == row);
    assert(has_route(after, row.epoch, row.idx));
    assert(route_of(after, row.epoch, row.idx) == Some(row)) by {
        let k = choose|j: int|
            0 <= j < after.len() && after[j].epoch == row.epoch && after[j].idx == row.idx;
        if k != last {
            assert(rows[k] == after[k]);
            assert(has_route(rows, row.epoch, row.idx));
        }
    }
    assert forall|e: usize, i: usize|
        !(e == row.epoch && i == row.idx) implies route_of(after, e, i) == route_of(rows, e, i) by {
        if has_route(rows, e, i) {
            let k = choose|j: int|
                0 <= j < rows.len() && rows[j].epoch == e && rows[j].idx == i;
            assert(after[k] == rows[k]);
            assert(has_route(after, e, i));
            let k2 = choose|j: int|
                0 <= j < after.len() && after[j].epoch == e && after[j].idx == i;
            if k2 == last {
                assert(false);
            }
            assert(rows[k2] == after[k2]);
            assert(has_route(rows, e, i));
            let kb = choose|j: int|
                0 <= j < rows.len() && rows[j].epoch == e && rows[j].idx == i;
            if kb != k2 {
                assert(false);
            }
        } else {
            if has_route(after, e, i) {
                let k2 = choose|j: int|
                    0 <= j < after.len() && after[j].epoch == e && after[j].idx == i;
                if k2 == last {
                    assert(false);
                } else {
                    assert(rows[k2] == after[k2]);
                    assert(has_route(rows, e, i));
                }
            }
        }
    }
}

/// The replica's durable state.
pub struct Timeline {
    pub routes: Vec<RouteRow>,
    pub proof_rows: Vec<(usize, usize, Vec<u8>)>,
    pub size: usize,
    pub blacklist: Vec<usize>,
    pub nonce_rows: Vec<(usize, Vec<u8>)>,
    pub ha_nonce_rows: Vec<Vec<u8>>,
    pub filename: String,
}

impl Timeline {
    /// At most one committed report per `(epoch, idx)`, always inside the grid.
    pub open spec fn wf(self) -> bool {
        &&& forall|i: int, j: int|
            0 <= i < j < self.routes@.len() ==> !((#[trigger] self.routes@[i]).epoch
                == (#[trigger] self.routes@[j]).epoch && self.routes@[i].idx
                == self.routes@[j].idx)
        &&& forall|i: int|
            0 <= i < self.routes@.len() ==> pos_in_bounds(
                self.size as int,
                (#[trigger] self.routes@[i]).x as int,
                self.routes@[i].y as int,
            )
    }

    /// Whether `idx` has been caught equivocating.
    pub open spec fn blacklisted(self, idx: usize) -> bool {
        self.blacklist@.contains(idx)
    }

    /// Whether the client nonce `(idx, n)` has been accepted before.
    pub open spec fn has_nonce(self, idx: usize, n: Seq<u8>) -> bool {
        exists|j: int|
            0 <= j < self.nonce_rows@.len() && (#[trigger] self.nonce_rows@[j]).0 == idx
                && self.nonce_rows@[j].1@ == n
    }

    /// Whether the auditor nonce `n` has been accepted before.
    pub open spec fn has_ha_nonce(self, n: Seq<u8>) -> bool {
        exists|j: int| 0 <= j < self.ha_nonce_rows@.len() && (#[trigger] self.ha_nonce_rows@[j])@
            == n
    }

    /// Whether some write has reached an epoch at least `e`.
    pub open spec fn epoch_seen(self, e: usize) -> bool {
        exists|j: int| 0 <= j < self.routes@.len() && (#[trigger] self.routes@[j]).epoch >= e
    }

    pub fn new(size: usize, filename: String) -> (r: Timeline)
        ensures
            r.wf(),
            r.size == size,
            r.filename == filename,
            r.routes@.len() == 0,
            r.proof_rows@.len() == 0,
            r.blacklist@.len() == 0,
            r.nonce_rows@.len() == 0,
            r.ha_nonce_rows@.len() == 0,
    {
        Timeline {
            routes: Vec::new(),
            proof_rows: Vec::new(),
            size,
            blacklist: Vec::new(),
            nonce_rows: Vec::new(),
            ha_nonce_rows: Vec::new(),
            filename,
        }
    }

    pub fn filename(&self) -> (r: &str)
        ensures
            r@ == self.filename@,
    {
        self.filename.as_str()
    }

    pub fn valid_pos(&self, x: usize, y: usize) -> (r: bool)
        ensures
            r == pos_in_bounds(self.size as int, x as int, y as int),
    {
        x < self.size && y < self.size
    }

    /// Lower and upper inclusive bounds of the clamped Moore neighbourhood.
    pub fn valid_neighbour(&self, x: usize, y: usize) -> (r: ((usize, usize), (usize, usize)))
        requires
            pos_in_bounds(self.size as int, x as int, y as int),
        ensures
            r.0.0 == clamped_lower(x),
            r.0.1 == clamped_lower(y),
            r.1.0 == clamped_upper(self.size, x),
            r.1.1 == clamped_upper(self.size, y),
    {
        let lower_x = if x == 0 {
            x
        } else {
            x - 1
        };
        let lower_y = if y == 0 {
            y
        } else {
            y - 1
        };
        let upper_x = if x + 1 == self.size {
            x
        } else {
            x + 1
        };
        let upper_y = if y + 1 == self.size {
            y
        } else {
            y + 1
        };
        ((lower_x, lower_y), (upper_x, upper_y))
    }

    /// Index of the route row for `(epoch, idx)`, scanning in order.
    fn find_route(&self, epoch: usize, idx: usize) -> (r: Option<usize>)
        requires
            self.wf(),
        ensures
            match r {
                Some(j) => j < self.routes@.len() && self.routes@[j as int].epoch == epoch
                    && self.routes@[j as int].idx == idx && route_of(self.routes@, epoch, idx)
                    == Some(self.routes@[j as int]),
                None => !has_route(self.routes@, epoch, idx),
            },
    {
        let n = self.routes.len();
        let mut i: usize = 0;
        while i < n
            invariant
                self.wf(),
                n == self.routes@.len(),
                0 <= i <= n,
                forall|j: int|
                    0 <= j < i ==> !((#[trigger] self.routes@[j]).epoch == epoch
                        && self.routes@[j].idx == idx),
            decreases n - i,
        {
            if self.routes[i].epoch == epoch && self.routes[i].idx == idx {
                proof {
                    assert(has_route(self.routes@, epoch, idx));
                    let k = choose|k: int|
                        0 <= k < self.routes@.len() && self.routes@[k].epoch == epoch
                            && self.routes@[k].idx == idx;
                    assert(k == i as int);
                }
                return Some(i);
            }
            i += 1;
        }
        None
    }

    /// Whether no report has been committed yet for `(epoch, idx)`.
    pub fn report_not_submitted_at_epoch(&self, epoch: usize, idx: usize) -> (r: bool)
        requires
            self.wf(),
        ensures
            r == !has_route(self.routes@, epoch, idx),
    {
        self.find_route(epoch, idx).is_none()
    }

    /// Commits a report. Rejects a blacklisted writer and an out-of-bounds
    /// location; detects equivocation (a different location already committed
    /// for the same `(epoch, idx)`), which blacklists the writer; a repeat of
    /// the committed location is an idempotent success that keeps the stored
    /// bytes.
    pub fn add_user_location_at_epoch(
        &mut self,
        epoch: usize,
        pos: (usize, usize),
        idx: usize,
        report: Vec<u8>,
    ) -> (r: Result<(), StorageError>)
        requires
            old(self).wf(),
        ensures
            final(self).wf(),
            final(self).size == old(self).size,
            final(self).filename == old(self).filename,
            final(self).proof_rows@ == old(self).proof_rows@,
            final(self).nonce_rows@ == old(self).nonce_rows@,
            final(self).ha_nonce_rows@ == old(self).ha_nonce_rows@,
            // the blacklist only grows
            forall|i: usize| old(self).blacklisted(i) ==> final(self).blacklisted(i),
            // a blacklisted writer changes nothing
            old(self).blacklisted(idx) ==> {
                &&& r == Result::<(), StorageError>::Err(StorageError::Blacklisted)
                &&& *final(self) == *old(self)
            },
            // an out-of-bounds location changes nothing
            (!old(self).blacklisted(idx) && !pos_in_bounds(old(self).size as int, pos.0 as int, pos.1 as int)) ==> {
                &&& r == Result::<(), StorageError>::Err(StorageError::InvalidPosition)
                &&& *final(self) == *old(self)
            },
            // first write for the pair: committed verbatim
            (!old(self).blacklisted(idx) && pos_in_bounds(old(self).size as int, pos.0 as int, pos.1 as int)
                && !has_route(old(self).routes@, epoch, idx)) ==> {
                &&& r == Result::<(), StorageError>::Ok(())
                &&& final(self).routes@ == old(self).routes@.push(
                    RouteRow { epoch, idx, x: pos.0, y: pos.1, report },
                )
                &&& final(self).blacklist@ == old(self).blacklist@
            },
            // repeat of the committed location: idempotent success
            (!old(self).blacklisted(idx) && pos_in_bounds(old(self).size as int, pos.0 as int, pos.1 as int)
                && (match route_of(old(self).routes@, epoch, idx) {
                    Some(row) => row.x == pos.0 && row.y == pos.1,
                    None => false,
                })) ==> {
                &&& r == Result::<(), StorageError>::Ok(())
                &&& *final(self) == *old(self)
            },
            // a different location: equivocation, writer blacklisted
            (!old(self).blacklisted(idx) && pos_in_bounds(old(self).size as int, pos.0 as int, pos.1 as int)
                && (match route_of(old(self).routes@, epoch, idx) {
                    Some(row) => !(row.x == pos.0 && row.y == pos.1),
                    None => false,
                })) ==> {
                &&& r == Result::<(), StorageError>::Err(StorageError::Equivocation)
                &&& final(self).routes@ == old(self).routes@
                &&& final(self).blacklist@ == old(self).blacklist@.push(idx)
            },
    {
        let (pos_x, pos_y) = pos;
        if self.contains_blacklist(idx) {
            return Err(StorageError::Blacklisted);
        }
        if !self.valid_pos(pos_x, pos_y) {
            return Err(StorageError::InvalidPosition);
        }
        match self.find_route(epoch, idx) {
            Some(j) => {
                let row = &self.routes[j];
                if row.x == pos_x && row.y == pos_y {
                    Ok(())
                } else {
                    self.blacklist.push(idx);
                    proof {
                        assert(self.blacklist@.last() == idx);
                        assert forall|i: usize| old(self).blacklisted(i) implies self.blacklisted(
                            i,
                        ) by {
                            let j = choose|j: int|
                                0 <= j < old(self).blacklist@.len() && old(self).blacklist@[j]
                                    == i;
                            assert(self.blacklist@[j] == i);
                        }
                    }
                    Err(StorageError::Equivocation)
                }
            },
            None => {
                self.routes.push(RouteRow { epoch, idx, x: pos_x, y: pos_y, report });
                proof {
                    assert forall|i: int, j: int|
                        0 <= i < j < self.routes@.len() implies !((#[trigger] self.routes@[i]).epoch
                        == (#[trigger] self.routes@[j]).epoch && self.routes@[i].idx
                        == self.routes@[j].idx) by {
                        if j == self.routes@.len() - 1 {
                            assert(!has_route(old(self).routes@, epoch, idx));
                            assert(old(self).routes@[i] == self.routes@[i]);
                        }
                    }
                }
                Ok(())
            },
        }
    }

    fn contains_blacklist(&self, idx: usize) -> (r: bool)
        ensures
            r == self.blacklisted(idx),
    {
        let n = self.blacklist.len();
        let mut i: usize = 0;
        while i < n
            invariant
                n == self.blacklist@.len(),
                0 <= i <= n,
                forall|j: int| 0 <= j < i ==> self.blacklist@[j] != idx,
            decreases n - i,
        {
            if self.blacklist[i] == idx {
                return true;
            }
            i += 1;
        }
        false
    }

    /// Appends issued proofs to the proofs index, in order.
    pub fn add_proofs(&mut self, proofs: Vec<(usize, usize, Vec<u8>)>)
        ensures
            final(self).proof_rows@ == old(self).proof_rows@ + proofs@,
            final(self).routes@ == old(self).routes@,
            final(self).blacklist@ == old(self).blacklist@,
            final(self).nonce_rows@ == old(self).nonce_rows@,
            final(self).ha_nonce_rows@ == old(self).ha_nonce_rows@,
            final(self).size == old(self).size,
            final(self).filename == old(self).filename,
            old(self).wf() ==> final(self).wf(),
    {
        let mut incoming = proofs;
        self.proof_rows.append(&mut incoming);
    }

    /// All signed proofs `idx` issued during the given epochs.
    pub fn get_proofs(&self, idx: usize, epochs: &Vec<usize>) -> (r: Vec<Vec<u8>>)
        ensures
            r@.len() == proofs_for(self.proof_rows@, idx, epochs@).len(),
            forall|k: int|
                0 <= k < r@.len() ==> (#[trigger] r@[k])@ == proofs_for(
                    self.proof_rows@,
                    idx,
                    epochs@,
                )[k],
    {
        let mut out: Vec<Vec<u8>> = Vec::new();
        let n = self.proof_rows.len();
        let mut i: usize = 0;
        while i < n
            invariant
                n == self.proof_rows@.len(),
                0 <= i <= n,
                out@.len() == proofs_for(self.proof_rows@.take(i as int), idx, epochs@).len(),
                forall|k: int|
                    0 <= k < out@.len() ==> (#[trigger] out@[k])@ == proofs_for(
                        self.proof_rows@.take(i as int),
                        idx,
                        epochs@,
                    )[k],
            decreases n - i,
        {
            proof {
                assert(self.proof_rows@.take(i + 1).drop_last() =~= self.proof_rows@.take(
                    i as int,
                ));
                assert(self.proof_rows@.take(i + 1).last() == self.proof_rows@[i as int]);
            }
            let row = &self.proof_rows[i];
            if row.0 == idx && crate::collections::contains_usize(epochs, row.1) {
                out.push(row.2.clone());
            }
            i += 1;
        }
        proof {
            assert(self.proof_rows@.take(n as int) =~= self.proof_rows@);
        }
        out
    }

    /// The `(idx, signed bytes)` pairs committed for `epoch` at `pos`, or
    /// nothing when the epoch was never reached or the position is invalid.
    pub fn get_users_at_epoch_at_location(&self, epoch: usize, pos: (usize, usize)) -> (r: Option<
        Vec<(usize, Vec<u8>)>,
    >)
        ensures
            match r {
                Some(v) => self.epoch_seen(epoch) && pos_in_bounds(
                    self.size as int,
                    pos.0 as int,
                    pos.1 as int,
                ) && v@.len() == users_at(self.routes@, epoch, pos.0, pos.1).len() && forall|k: int|
                    0 <= k < v@.len() ==> (#[trigger] v@[k]).0 == users_at(
                        self.routes@,
                        epoch,
                        pos.0,
                        pos.1,
                    )[k].0 && v@[k].1@ == users_at(self.routes@, epoch, pos.0, pos.1)[k].1,
                None => !(self.epoch_seen(epoch) && pos_in_bounds(
                    self.size as int,
                    pos.0 as int,
                    pos.1 as int,
                )),
            },
    {
        let (pos_x, pos_y) = pos;
        if !self.valid_pos(pos_x, pos_y) {
            return None;
        }
        let n = self.routes.len();
        let mut seen = false;
        let mut out: Vec<(usize, Vec<u8>)> = Vec::new();
        let mut i: usize = 0;
        while i < n
            invariant
                n == self.routes@.len(),
                0 <= i <= n,
                seen == exists|j: int|
                    0 <= j < i && (#[trigger] self.routes@[j]).epoch >= epoch,
                out@.len() == users_at(self.routes@.take(i as int), epoch, pos_x, pos_y).len(),
                forall|k: int|
                    0 <= k < out@.len() ==> (#[trigger] out@[k]).0 == users_at(
                        self.routes@.take(i as int),
                        epoch,
                        pos_x,
                        pos_y,
                    )[k].0 && out@[k].1@ == users_at(
                        self.routes@.take(i as int),
                        epoch,
                        pos_x,
                        pos_y,
                    )[k].1,
            decreases n - i,
        {
            proof {
                assert(self.routes@.take(i + 1).drop_last() =~= self.routes@.take(i as int));
                assert(self.routes@.take(i + 1).last() == self.routes@[i as int]);
            }
            let row = &self.routes[i];
            if row.epoch >= epoch {
                seen = true;
            }
            if row.epoch == epoch && row.x == pos_x && row.y == pos_y {
                out.push((row.idx, row.report.clone()));
            }
            i += 1;
        }
        proof {
            assert(self.routes@.take(n as int) =~= self.routes@);
        }
        if seen {
            Some(out)
        } else {
            None
        }
    }

    /// The committed signed bytes for `(epoch, idx)`, when there are any.
    pub fn get_user_report_at_epoch(&self, epoch: usize, idx: usize) -> (r: Option<Vec<u8>>)
        requires
            self.wf(),
        ensures
            match r {
                Some(v) => route_of(self.routes@, epoch, idx) matches Some(row) && v@
                    == row.report@,
                None => !has_route(self.routes@, epoch, idx),
            },
    {
        match self.find_route(epoch, idx) {
            Some(j) => Some(self.routes[j].report.clone()),
            None => None,
        }
    }

    /// The committed location for `(epoch, idx)`, when there is one.
    pub fn get_user_location_at_epoch(&self, epoch: usize, idx: usize) -> (r: Option<
        (usize, usize),
    >)
        requires
            self.wf(),
        ensures
            match r {
                Some(p) => route_of(self.routes@, epoch, idx) matches Some(row) && p == (
                    row.x,
                    row.y,
                ),
                None => !has_route(self.routes@, epoch, idx),
            },
    {
        match self.find_route(epoch, idx) {
            Some(j) => Some((self.routes[j].x, self.routes[j].y)),
            None => None,
        }
    }

    /// Whether the client nonce is fresh.
    pub fn valid_nonce(&self, idx: usize, nonce: &Vec<u8>) -> (r: bool)
        ensures
            r == !self.has_nonce(idx, nonce@),
    {
        let n = self.nonce_rows.len();
        let mut i: usize = 0;
        while i < n
            invariant
                n == self.nonce_rows@.len(),
                0 <= i <= n,
                forall|j: int|
                    0 <= j < i ==> !((#[trigger] self.nonce_rows@[j]).0 == idx
                        && self.nonce_rows@[j].1@ == nonce@),
            decreases n - i,
        {
            if self.nonce_rows[i].0 == idx && bytes_eq(&self.nonce_rows[i].1, nonce) {
                return false;
            }
            i += 1;
        }
        true
    }

    /// Records a client nonce; says whether it was fresh. A replay changes
    /// nothing, and every nonce recorded earlier stays recorded.
    pub fn add_nonce(&mut self, idx: usize, nonce: Vec<u8>) -> (r: bool)
        ensures
            r == !old(self).has_nonce(idx, nonce@),
            final(self).has_nonce(idx, nonce@),
            r ==> final(self).nonce_rows@ == old(self).nonce_rows@.push((idx, nonce)),
            !r ==> *final(self) == *old(self),
            forall|i: usize, m: Seq<u8>|
                old(self).has_nonce(i, m) ==> final(self).has_nonce(i, m),
            forall|i: usize, m: Seq<u8>|
                final(self).has_nonce(i, m) ==> old(self).has_nonce(i, m) || (i == idx && m
                    == nonce@),
            final(self).routes@ == old(self).routes@,
            final(self).proof_rows@ == old(self).proof_rows@,
            final(self).blacklist@ == old(self).blacklist@,
            final(self).ha_nonce_rows@ == old(self).ha_nonce_rows@,
            final(self).size == old(self).size,
            final(self).filename == old(self).filename,
            old(self).wf() ==> final(self).wf(),
    {
        if !self.valid_nonce(idx, &nonce) {
            return false;
        }
        self.nonce_rows.push((idx, nonce));
        proof {
            let last = self.nonce_rows@.len() - 1;
            assert(self.nonce_rows@[last].0 == idx && self.nonce_rows@[last].1@ == nonce@);
            assert forall|i: usize, m: Seq<u8>|
                old(self).has_nonce(i, m) implies self.has_nonce(i, m) by {
                let j = choose|j: int|
                    0 <= j < old(self).nonce_rows@.len() && (#[trigger] old(
                        self,
                    ).nonce_rows@[j]).0 == i && old(self).nonce_rows@[j].1@ == m;
                assert(self.nonce_rows@[j] == old(self).nonce_rows@[j]);
            }
            assert forall|i: usize, m: Seq<u8>|
                self.has_nonce(i, m) implies old(self).has_nonce(i, m) || (i == idx && m
                == nonce@) by {
                let j = choose|j: int|
                    0 <= j < self.nonce_rows@.len() && (#[trigger] self.nonce_rows@[j]).0 == i
                        && self.nonce_rows@[j].1@ == m;
                if j < old(self).nonce_rows@.len() {
                    assert(old(self).nonce_rows@[j] == self.nonce_rows@[j]);
                }
            }
        }
        true
    }

    /// Whether the auditor nonce is fresh.
    pub fn valid_ha_nonce(&self, nonce: &Vec<u8>) -> (r: bool)
        ensures
            r == !self.has_ha_nonce(nonce@),
    {
        let n = self.ha_nonce_rows.len();
        let mut i: usize = 0;
        while i < n
            invariant
                n == self.ha_nonce_rows@.len(),
                0 <= i <= n,
                forall|j: int| 0 <= j < i ==> (#[trigger] self.ha_nonce_rows@[j])@ != nonce@,
            decreases n - i,
        {
            if bytes_eq(&self.ha_nonce_rows[i], nonce) {
                return false;
            }
            i += 1;
        }
        true
    }

    /// Records an auditor nonce; says whether it was fresh.
    pub fn add_ha_nonce(&mut self, nonce: Vec<u8>) -> (r: bool)
        ensures
            r == !old(self).has_ha_nonce(nonce@),
            final(self).has_ha_nonce(nonce@),
            r ==> final(self).ha_nonce_rows@ == old(self).ha_nonce_rows@.push(nonce),
            !r ==> *final(self) == *old(self),
            forall|m: Seq<u8>| old(self).has_ha_nonce(m) ==> final(self).has_ha_nonce(m),
            forall|m: Seq<u8>|
                final(self).has_ha_nonce(m) ==> old(self).has_ha_nonce(m) || m == nonce@,
            final(self).routes@ == old(self).routes@,
            final(self).proof_rows@ == old(self).proof_rows@,
            final(self).blacklist@ == old(self).blacklist@,
            final(self).nonce_rows@ == old(self).nonce_rows@,
            final(self).size == old(self).size,
            final(self).filename == old(self).filename,
            old(self).wf() ==> final(self).wf(),
    {
        if !self.valid_ha_nonce(&nonce) {
            return false;
        }
        self.ha_nonce_rows.push(nonce);
        proof {
            let last = self.ha_nonce_rows@.len() - 1;
            assert(self.ha_nonce_rows@[last]@ == nonce@);
            assert forall|m: Seq<u8>| old(self).has_ha_nonce(m) implies self.has_ha_nonce(m) by {
                let j = choose|j: int|
                    0 <= j < old(self).ha_nonce_rows@.len() && (#[trigger] old(
                        self,
                    ).ha_nonce_rows@[j])@ == m;
                assert((self.ha_nonce_rows@[j])@ == m);
            }
            assert forall|m: Seq<u8>| self.has_ha_nonce(m) implies old(self).has_ha_nonce(m)
                || m == nonce@ by {
                let j = choose|j: int|
                    0 <= j < self.ha_nonce_rows@.len() && (#[trigger] self.ha_nonce_rows@[j])@
                        == m;
                if j < old(self).ha_nonce_rows@.len() {
                    assert((old(self).ha_nonce_rows@[j])@ == m);
                }
            }
        }
        true
    }
}


/// Idempotent resubmit: after a write of `(epoch, pos, idx)` succeeds, the
/// committed location for that pair is exactly `pos` and the writer is still
/// off the blacklist, so a second identical write meets the repeat case of
/// `add_user_location_at_epoch`'s contract: it returns success and leaves
/// the state unchanged.
/// The two ways a successful write can leave the state, as the contract of
/// `add_user_location_at_epoch` spells them out: a fresh row pushed, or a
/// repeat of the committed location that changed nothing.
pub open spec fn successful_write(
    t0: Timeline,
    t1: Timeline,
    epoch: usize,
    pos: (usize, usize),
    idx: usize,
    report: Vec<u8>,
) -> bool {
    ||| (!has_route(t0.routes@, epoch, idx) && t1.routes@ == t0.routes@.push(
        RouteRow { epoch, idx, x: pos.0, y: pos.1, report },
    ) && t1.blacklist@ == t0.blacklist@)
    ||| ((match route_of(t0.routes@, epoch, idx) {
        Some(row) => row.x == pos.0 && row.y == pos.1,
        None => false,
    }) && t1 == t0)
}

pub proof fn lemma_resubmit_idempotent(
    t0: Timeline,
    t1: Timeline,
    epoch: usize,
    pos: (usize, usize),
    idx: usize,
    report: Vec<u8>,
)
    requires
        t0.wf(),
        !t0.blacklisted(idx),
        pos_in_bounds(t0.size as int, pos.0 as int, pos.1 as int),
        successful_write(t0, t1, epoch, pos, idx, report),
    ensures
        !t1.blacklisted(idx),
        (match route_of(t1.routes@, epoch, idx) {
            Some(row) => row.x == pos.0 && row.y == pos.1,
            None => false,
        }),
{
    if !has_route(t0.routes@, epoch, idx) {
        let row = RouteRow { epoch, idx, x: pos.0, y: pos.1, report };
        lemma_route_of_push(t0.routes@, row);
        assert(route_of(t1.routes@, epoch, idx) == Some(row));
    }
}

/// The byte encoding of one route row: epoch, index, the two coordinates,
/// then the signed bytes.
pub open spec fn enc_route_row(r: RouteRow) -> Seq<u8> {
    crate::codec::enc_u64(r.epoch as u64) + crate::codec::enc_u64(r.idx as u64)
        + crate::codec::enc_u64(r.x as u64) + crate::codec::enc_u64(r.y as u64)
        + crate::codec::enc_bytes(r.report@)
}

/// The byte encoding of the route rows, element after element.
pub open spec fn enc_routes(rows: Seq<RouteRow>) -> Seq<u8>
    decreases rows.len(),
{
    if rows.len() == 0 {
        Seq::empty()
    } else {
        enc_route_row(rows[0]) + enc_routes(rows.drop_first())
    }
}

/// Reads `n` route rows starting at `i`. The rows carry their bytes at the
/// view level.
pub open spec fn rd_routes(s: Seq<u8>, i: int, n: nat) -> Option<
    (Seq<(usize, usize, usize, usize, Seq<u8>)>, int),
>
    decreases n,
{
    if n == 0 {
        Some((Seq::empty(), i))
    } else {
        match crate::codec::rd_u64(s, i) {
            None => None,
            Some((e, i1)) => match crate::codec::rd_u64(s, i1) {
                None => None,
                Some((idx, i2)) => match crate::codec::rd_u64(s, i2) {
                    None => None,
                    Some((x, i3)) => match crate::codec::rd_u64(s, i3) {
                        None => None,
                        Some((y, i4)) => if e <= usize::MAX as u64 && idx <= usize::MAX as u64 && x
                            <= usize::MAX as u64 && y <= usize::MAX as u64 {
                            match crate::codec::rd_bytes(s, i4) {
                                None => None,
                                Some((b, i5)) => match rd_routes(s, i5, (n - 1) as nat) {
                                    None => None,
                                    Some((rest, end)) => Some(
                                        (
                                            seq![
                                                (
                                                    e as usize,
                                                    idx as usize,
                                                    x as usize,
                                                    y as usize,
                                                    b,
                                                ),
                                            ] + rest,
                                            end,
                                        ),
                                    ),
                                },
                            }
                        } else {
                            None
                        },
                    },
                },
            },
        }
    }
}

/// The view of route rows the reader returns.
pub open spec fn routes_view(rows: Seq<RouteRow>) -> Seq<(usize, usize, usize, usize, Seq<u8>)> {
    rows.map_values(|r: RouteRow| (r.epoch, r.idx, r.x, r.y, r.report@))
}

/// Appends each route row in turn, starting at element `k`.
pub fn write_routes_from(out: &mut Vec<u8>, rows: &Vec<RouteRow>, k: usize)
    requires
        k <= rows@.len(),
    ensures
        final(out)@ == old(out)@ + enc_routes(rows@.skip(k as int)),
    decreases rows@.len() - k,
{
    if k == rows.len() {
        proof {
            assert(rows@.skip(k as int) =~= Seq::<RouteRow>::empty());
            assert(out@ =~= out@ + enc_routes(rows@.skip(k as int)));
        }
        return ;
    }
    let row = &rows[k];
    crate::codec::write_u64(out, row.epoch as u64);
    crate::codec::write_u64(out, row.idx as u64);
    crate::codec::write_u64(out, row.x as u64);
    crate::codec::write_u64(out, row.y as u64);
    crate::codec::write_bytes(out, &row.report);
    write_routes_from(out, rows, k + 1);
    proof {
        let tail = rows@.skip(k as int);
        assert(tail[0] == rows@[k as int]);
        assert(tail.drop_first() =~= rows@.skip(k + 1));
        assert(out@ =~= old(out)@ + enc_routes(tail));
    }
}

/// Reads `n` route rows.
pub fn read_routes(s: &Vec<u8>, i: usize, n: u64) -> (r: Option<(Vec<RouteRow>, usize)>)
    ensures
        match r {
            Some((v, j)) => rd_routes(s@, i as int, n as nat) == Some((routes_view(v@), j as int)),
            None => rd_routes(s@, i as int, n as nat) is None,
        },
    decreases n,
{
    if n == 0 {
        let v: Vec<RouteRow> = Vec::new();
        proof {
            assert(routes_view(v@) =~= Seq::<(usize, usize, usize, usize, Seq<u8>)>::empty());
        }
        return Some((v, i));
    }
    let (e, i1) = match crate::codec::read_u64(s, i) {
        Some(p) => p,
        None => {
            return None;
        },
    };
    let (idx, i2) = match crate::codec::read_u64(s, i1) {
        Some(p) => p,
        None => {
            return None;
        },
    };
    let (x, i3) = match crate::codec::read_u64(s, i2) {
        Some(p) => p,
        None => {
            return None;
        },
    };
    let (y, i4) = match crate::codec::read_u64(s, i3) {
        Some(p) => p,
        None => {
            return None;
        },
    };
    if e > usize::MAX as u64 || idx > usize::MAX as u64 || x > usize::MAX as u64 || y
        > usize::MAX as u64 {
        return None;
    }
    let (b, i5) = match crate::codec::read_bytes(s, i4) {
        Some(p) => p,
        None => {
            return None;
        },
    };
    match read_routes(s, i5, n - 1) {
        None => None,
        Some((rest, end)) => {
            let mut v: Vec<RouteRow> = Vec::new();
            v.push(
                RouteRow {
                    epoch: e as usize,
                    idx: idx as usize,
                    x: x as usize,
                    y: y as usize,
                    report: b,
                },
            );
            let mut tail = rest;
            v.append(&mut tail);
            proof {
                let ghost expect = seq![
                    (
                        e as usize,
                        idx as usize,
                        x as usize,
                        y as usize,
                        v@[0].report@,
                    ),
                ] + routes_view(v@.drop_first());
                assert(routes_view(v@) =~= expect);
            }
            Some((v, end))
        },
    }
}

/// A read at a position holding the encoding of `rows` yields their views.
pub proof fn lemma_rd_routes_at(s: Seq<u8>, i: int, rows: Seq<RouteRow>)
    requires
        0 <= i,
        forall|k: int| 0 <= k < rows.len() ==> (#[trigger] rows[k]).report@.len() <= usize::MAX,
        i + enc_routes(rows).len() <= s.len(),
        s.subrange(i, i + enc_routes(rows).len()) == enc_routes(rows),
    ensures
        rd_routes(s, i, rows.len()) == Some((routes_view(rows), i + enc_routes(rows).len())),
    decreases rows.len(),
{
    if rows.len() == 0 {
        assert(routes_view(rows) =~= Seq::<(usize, usize, usize, usize, Seq<u8>)>::empty());
    } else {
        let row = rows[0];
        let rest = rows.drop_first();
        let head = enc_route_row(row);
        let e2 = enc_routes(rest);
        crate::codec::lemma_le_bytes_len((row.epoch as u64) as nat, 8);
        crate::codec::lemma_le_bytes_len((row.idx as u64) as nat, 8);
        crate::codec::lemma_le_bytes_len((row.x as u64) as nat, 8);
        crate::codec::lemma_le_bytes_len((row.y as u64) as nat, 8);
        crate::codec::lemma_le_bytes_len((row.report@.len() as u64) as nat, 8);
        assert(enc_routes(rows) == head + e2);
        let total = enc_routes(rows).len() as int;
        assert(head.len() == 40 + row.report@.len());
        crate::codec::lemma_subrange_of_subrange(s, i, total, 0, 8);
        assert(enc_routes(rows).subrange(0, 8) =~= crate::codec::enc_u64(row.epoch as u64));
        crate::codec::lemma_rd_u64_at(s, i, row.epoch as u64);
        crate::codec::lemma_subrange_of_subrange(s, i, total, 8, 16);
        assert(enc_routes(rows).subrange(8, 16) =~= crate::codec::enc_u64(row.idx as u64));
        crate::codec::lemma_rd_u64_at(s, i + 8, row.idx as u64);
        crate::codec::lemma_subrange_of_subrange(s, i, total, 16, 24);
        assert(enc_routes(rows).subrange(16, 24) =~= crate::codec::enc_u64(row.x as u64));
        crate::codec::lemma_rd_u64_at(s, i + 16, row.x as u64);
        crate::codec::lemma_subrange_of_subrange(s, i, total, 24, 32);
        assert(enc_routes(rows).subrange(24, 32) =~= crate::codec::enc_u64(row.y as u64));
        crate::codec::lemma_rd_u64_at(s, i + 24, row.y as u64);
        crate::codec::lemma_subrange_of_subrange(s, i, total, 32, 40 + row.report@.len() as int);
        assert(enc_routes(rows).subrange(32, 40 + row.report@.len() as int) =~= crate::codec::enc_bytes(
            row.report@,
        ));
        crate::codec::lemma_rd_bytes_at(s, i + 32, row.report@);
        let j = i + 40 + row.report@.len() as int;
        crate::codec::lemma_subrange_of_subrange(s, i, total, 40 + row.report@.len() as int, total);
        assert(enc_routes(rows).subrange(40 + row.report@.len() as int, total) =~= e2);
        assert(s.subrange(j, j + e2.len()) == e2);
        lemma_rd_routes_at(s, j, rest);
        assert(routes_view(rows) =~= seq![
            (row.epoch, row.idx, row.x, row.y, row.report@),
        ] + routes_view(rest));
    }
}

/// The byte encoding of the proofs index, element after element: assistor,
/// epoch, then the signed proof bytes.
pub open spec fn enc_triples(rows: Seq<(usize, usize, Seq<u8>)>) -> Seq<u8>
    decreases rows.len(),
{
    if rows.len() == 0 {
        Seq::empty()
    } else {
        crate::codec::enc_u64(rows[0].0 as u64) + crate::codec::enc_u64(rows[0].1 as u64)
            + crate::codec::enc_bytes(rows[0].2) + enc_triples(rows.drop_first())
    }
}

/// Reads `n` proofs-index rows starting at `i`.
pub open spec fn rd_triples(s: Seq<u8>, i: int, n: nat) -> Option<
    (Seq<(usize, usize, Seq<u8>)>, int),
>
    decreases n,
{
    if n == 0 {
        Some((Seq::empty(), i))
    } else {
        match crate::codec::rd_u64(s, i) {
            None => None,
            Some((a, i1)) => match crate::codec::rd_u64(s, i1) {
                None => None,
                Some((e, i2)) => if a <= usize::MAX as u64 && e <= usize::MAX as u64 {
                    match crate::codec::rd_bytes(s, i2) {
                        None => None,
                        Some((b, i3)) => match rd_triples(s, i3, (n - 1) as nat) {
                            None => None,
                            Some((rest, end)) => Some(
                                (seq![(a as usize, e as usize, b)] + rest, end),
                            ),
                        },
                    }
                } else {
                    None
                },
            },
        }
    }
}

/// The view of proofs-index rows.
pub open spec fn triples_view(rows: Seq<(usize, usize, Vec<u8>)>) -> Seq<
    (usize, usize, Seq<u8>),
> {
    rows.map_values(|r: (usize, usize, Vec<u8>)| (r.0, r.1, r.2@))
}

/// Appends each proofs-index row in turn, starting at element `k`.
pub fn write_triples_from(out: &mut Vec<u8>, rows: &Vec<(usize, usize, Vec<u8>)>, k: usize)
    requires
        k <= rows@.len(),
    ensures
        final(out)@ == old(out)@ + enc_triples(triples_view(rows@).skip(k as int)),
    decreases rows@.len() - k,
{
    if k == rows.len() {
        proof {
            assert(triples_view(rows@).skip(k as int) =~= Seq::<(usize, usize, Seq<u8>)>::empty());
            assert(out@ =~= out@ + enc_triples(triples_view(rows@).skip(k as int)));
        }
        return ;
    }
    crate::codec::write_u64(out, rows[k].0 as u64);
    crate::codec::write_u64(out, rows[k].1 as u64);
    crate::codec::write_bytes(out, &rows[k].2);
    write_triples_from(out, rows, k + 1);
    proof {
        let tail = triples_view(rows@).skip(k as int);
        assert(tail[0] == (rows@[k as int].0, rows@[k as int].1, rows@[k as int].2@));
        assert(tail.drop_first() =~= triples_view(rows@).skip(k + 1));
        assert(out@ =~= old(out)@ + enc_triples(tail));
    }
}

/// Reads `n` proofs-index rows.
pub fn read_triples(s: &Vec<u8>, i: usize, n: u64) -> (r: Option<
    (Vec<(usize, usize, Vec<u8>)>, usize),
>)
    ensures
        match r {
            Some((v, j)) => rd_triples(s@, i as int, n as nat) == Some(
                (triples_view(v@), j as int),
            ),
            None => rd_triples(s@, i as int, n as nat) is None,
        },
    decreases n,
{
    if n == 0 {
        let v: Vec<(usize, usize, Vec<u8>)> = Vec::new();
        proof {
            assert(triples_view(v@) =~= Seq::<(usize, usize, Seq<u8>)>::empty());
        }
        return Some((v, i));
    }
    let (a, i1) = match crate::codec::read_u64(s, i) {
        Some(p) => p,
        None => {
            return None;
        },
    };
    let (e, i2) = match crate::codec::read_u64(s, i1) {
        Some(p) => p,
        None => {
            return None;
        },
    };
    if a > usize::MAX as u64 || e > usize::MAX as u64 {
        return None;
    }
    let (b, i3) = match crate::codec::read_bytes(s, i2) {
        Some(p) => p,
        None => {
            return None;
        },
    };
    match read_triples(s, i3, n - 1) {
        None => None,
        Some((rest, end)) => {
            let mut v: Vec<(usize, usize, Vec<u8>)> = Vec::new();
            v.push((a as usize, e as usize, b));
            let mut tail = rest;
            v.append(&mut tail);
            proof {
                let ghost expect = seq![(a as usize, e as usize, v@[0].2@)] + triples_view(
                    v@.drop_first(),
                );
                assert(triples_view(v@) =~= expect);
            }
            Some((v, end))
        },
    }
}

/// A read at a position holding the encoding of `rows` yields them.
pub proof fn lemma_rd_triples_at(s: Seq<u8>, i: int, rows: Seq<(usize, usize, Seq<u8>)>)
    requires
        0 <= i,
        forall|k: int| 0 <= k < rows.len() ==> (#[trigger] rows[k]).2.len() <= usize::MAX,
        i + enc_triples(rows).len() <= s.len(),
        s.subrange(i, i + enc_triples(rows).len()) == enc_triples(rows),
    ensures
        rd_triples(s, i, rows.len()) == Some((rows, i + enc_triples(rows).len())),
    decreases rows.len(),
{
    if rows.len() == 0 {
    } else {
        let row = rows[0];
        let rest = rows.drop_first();
        let e2 = enc_triples(rest);
        crate::codec::lemma_le_bytes_len((row.0 as u64) as nat, 8);
        crate::codec::lemma_le_bytes_len((row.1 as u64) as nat, 8);
        crate::codec::lemma_le_bytes_len((row.2.len() as u64) as nat, 8);
        let total = enc_triples(rows).len() as int;
        assert(total == 24 + row.2.len() + e2.len());
        crate::codec::lemma_subrange_of_subrange(s, i, total, 0, 8);
        assert(enc_triples(rows).subrange(0, 8) =~= crate::codec::enc_u64(row.0 as u64));
        crate::codec::lemma_rd_u64_at(s, i, row.0 as u64);
        crate::codec::lemma_subrange_of_subrange(s, i, total, 8, 16);
        assert(enc_triples(rows).subrange(8, 16) =~= crate::codec::enc_u64(row.1 as u64));
        crate::codec::lemma_rd_u64_at(s, i + 8, row.1 as u64);
        crate::codec::lemma_subrange_of_subrange(s, i, total, 16, 24 + row.2.len() as int);
        assert(enc_triples(rows).subrange(16, 24 + row.2.len() as int) =~= crate::codec::enc_bytes(
            row.2,
        ));
        crate::codec::lemma_rd_bytes_at(s, i + 16, row.2);
        let j = i + 24 + row.2.len() as int;
        crate::codec::lemma_subrange_of_subrange(s, i, total, 24 + row.2.len() as int, total);
        assert(enc_triples(rows).subrange(24 + row.2.len() as int, total) =~= e2);
        assert(s.subrange(j, j + e2.len()) == e2);
        lemma_rd_triples_at(s, j, rest);
        assert(seq![(row.0, row.1, row.2)] + rest =~= rows);
    }
}

/// The byte encoding of a snapshot of the whole durable state: the grid
/// edge, then each index as a counted list — routes, proofs, blacklist,
/// client nonces, auditor nonces. The snapshot file name is not part of the
/// snapshot; whoever restores one knows where it came from.
pub open spec fn enc_timeline(
    size: usize,
    routes: Seq<RouteRow>,
    proof_rows: Seq<(usize, usize, Seq<u8>)>,
    blacklist: Seq<usize>,
    nonce_rows: Seq<(usize, Seq<u8>)>,
    ha_nonce_rows: Seq<Seq<u8>>,
) -> Seq<u8> {
    crate::codec::enc_u64(size as u64) + crate::codec::enc_u64(routes.len() as u64) + enc_routes(
        routes,
    ) + crate::codec::enc_u64(proof_rows.len() as u64) + enc_triples(proof_rows)
        + crate::codec::enc_u64(blacklist.len() as u64) + crate::codec::enc_u64s(blacklist)
        + crate::codec::enc_u64(nonce_rows.len() as u64) + crate::codec::enc_pairs(nonce_rows)
        + crate::codec::enc_u64(ha_nonce_rows.len() as u64) + crate::codec::enc_blobs(
        ha_nonce_rows,
    )
}

/// The snapshot encoded in `s`, when `s` is exactly one: the grid edge and
/// the five indices, at the view level.
pub open spec fn dec_timeline(s: Seq<u8>) -> Option<
    (
        usize,
        Seq<(usize, usize, usize, usize, Seq<u8>)>,
        Seq<(usize, usize, Seq<u8>)>,
        Seq<usize>,
        Seq<(usize, Seq<u8>)>,
        Seq<Seq<u8>>,
    ),
> {
    match crate::codec::rd_u64(s, 0) {
        None => None,
        Some((size, i0)) => if size <= usize::MAX as u64 {
            match crate::codec::rd_u64(s, i0) {
                None => None,
                Some((nr, i1)) => match rd_routes(s, i1, nr as nat) {
                    None => None,
                    Some((routes, i2)) => match crate::codec::rd_u64(s, i2) {
                        None => None,
                        Some((np, i3)) => match rd_triples(s, i3, np as nat) {
                            None => None,
                            Some((proof_rows, i4)) => match crate::codec::rd_u64(s, i4) {
                                None => None,
                                Some((nb, i5)) => match crate::codec::rd_u64s(s, i5, nb as nat) {
                                    None => None,
                                    Some((blacklist, i6)) => match crate::codec::rd_u64(s, i6) {
                                        None => None,
                                        Some((nn, i7)) => match crate::codec::rd_pairs(
                                            s,
                                            i7,
                                            nn as nat,
                                        ) {
                                            None => None,
                                            Some((nonce_rows, i8)) => match crate::codec::rd_u64(
                                                s,
                                                i8,
                                            ) {
                                                None => None,
                                                Some((nh, i9)) => match crate::codec::rd_blobs(
                                                    s,
                                                    i9,
                                                    nh as nat,
                                                ) {
                                                    None => None,
                                                    Some((ha, end)) => if end == s.len() {
                                                        Some(
                                                            (
                                                                size as usize,
                                                                routes,
                                                                proof_rows,
                                                                blacklist,
                                                                nonce_rows,
                                                                ha,
                                                            ),
                                                        )
                                                    } else {
                                                        None
                                                    },
                                                },
                                            },
                                        },
                                    },
                                },
                            },
                        },
                    },
                },
            }
        } else {
            None
        },
    }
}

impl Timeline {
    /// Serialises the whole durable state for an atomic snapshot.
    pub fn encode_timeline(&self) -> (out: Vec<u8>)
        ensures
            out@ == enc_timeline(
                self.size,
                self.routes@,
                triples_view(self.proof_rows@),
                self.blacklist@,
                crate::codec::pairs_view(self.nonce_rows@),
                crate::codec::blobs_view(self.ha_nonce_rows@),
            ),
    {
        let mut out: Vec<u8> = Vec::new();
        crate::codec::write_u64(&mut out, self.size as u64);
        crate::codec::write_u64(&mut out, self.routes.len() as u64);
        write_routes_from(&mut out, &self.routes, 0);
        crate::codec::write_u64(&mut out, self.proof_rows.len() as u64);
        write_triples_from(&mut out, &self.proof_rows, 0);
        crate::codec::write_u64(&mut out, self.blacklist.len() as u64);
        crate::codec::write_u64s_from(&mut out, &self.blacklist, 0);
        crate::codec::write_u64(&mut out, self.nonce_rows.len() as u64);
        crate::codec::write_pairs_from(&mut out, &self.nonce_rows, 0);
        crate::codec::write_u64(&mut out, self.ha_nonce_rows.len() as u64);
        crate::codec::write_blobs_from(&mut out, &self.ha_nonce_rows, 0);
        proof {
            assert(self.routes@.skip(0) =~= self.routes@);
            assert(triples_view(self.proof_rows@).skip(0) =~= triples_view(self.proof_rows@));
            assert(self.blacklist@.skip(0) =~= self.blacklist@);
            assert(crate::codec::pairs_view(self.nonce_rows@).skip(0) =~= crate::codec::pairs_view(
                self.nonce_rows@,
            ));
            assert(crate::codec::blobs_view(self.ha_nonce_rows@).skip(0)
                =~= crate::codec::blobs_view(self.ha_nonce_rows@));
            assert(out@ =~= enc_timeline(
                self.size,
                self.routes@,
                triples_view(self.proof_rows@),
                self.blacklist@,
                crate::codec::pairs_view(self.nonce_rows@),
                crate::codec::blobs_view(self.ha_nonce_rows@),
            ));
        }
        out
    }

    /// Restores the durable state from a snapshot. The caller names the file
    /// the snapshot came from; foreign bytes that decode but break the
    /// storage invariant are caught by `check_wf`.
    pub fn decode_timeline(s: &Vec<u8>, filename: String) -> (r: Option<Timeline>)
        ensures
            match r {
                Some(t) => {
                    &&& dec_timeline(s@) == Some(
                        (
                            t.size,
                            routes_view(t.routes@),
                            triples_view(t.proof_rows@),
                            t.blacklist@,
                            crate::codec::pairs_view(t.nonce_rows@),
                            crate::codec::blobs_view(t.ha_nonce_rows@),
                        ),
                    )
                    &&& t.filename == filename
                },
                None => dec_timeline(s@) is None,
            },
    {
        let (size, i0) = match crate::codec::read_u64(s, 0) {
            Some(p) => p,
            None => {
                return None;
            },
        };
        if size > usize::MAX as u64 {
            return None;
        }
        let (nr, i1) = match crate::codec::read_u64(s, i0) {
            Some(p) => p,
            None => {
                return None;
            },
        };
        let (routes, i2) = match read_routes(s, i1, nr) {
            Some(p) => p,
            None => {
                return None;
            },
        };
        let (np, i3) = match crate::codec::read_u64(s, i2) {
            Some(p) => p,
            None => {
                return None;
            },
        };
        let (proof_rows, i4) = match read_triples(s, i3, np) {
            Some(p) => p,
            None => {
                return None;
            },
        };
        let (nb, i5) = match crate::codec::read_u64(s, i4) {
            Some(p) => p,
            None => {
                return None;
            },
        };
        let (blacklist, i6) = match crate::codec::read_u64s(s, i5, nb) {
            Some(p) => p,
            None => {
                return None;
            },
        };
        let (nn, i7) = match crate::codec::read_u64(s, i6) {
            Some(p) => p,
            None => {
                return None;
            },
        };
        let (nonce_rows, i8) = match crate::codec::read_pairs(s, i7, nn) {
            Some(p) => p,
            None => {
                return None;
            },
        };
        let (nh, i9) = match crate::codec::read_u64(s, i8) {
            Some(p) => p,
            None => {
                return None;
            },
        };
        let (ha_nonce_rows, end) = match crate::codec::read_blobs(s, i9, nh) {
            Some(p) => p,
            None => {
                return None;
            },
        };
        if end != s.len() {
            return None;
        }
        Some(
            Timeline {
                routes,
                proof_rows,
                size: size as usize,
                blacklist,
                nonce_rows,
                ha_nonce_rows,
                filename,
            },
        )
    }

    /// Checks the storage invariant of a restored state: one committed report
    /// per `(epoch, idx)`, all of them inside the grid.
    pub fn check_wf(&self) -> (r: bool)
        ensures
            r == self.wf(),
    {
        let n = self.routes.len();
        let mut i: usize = 0;
        while i < n
            invariant
                n == self.routes@.len(),
                0 <= i <= n,
                forall|a: int, b: int|
                    0 <= a < b < n && a < i ==> !((#[trigger] self.routes@[a]).epoch
                        == (#[trigger] self.routes@[b]).epoch && self.routes@[a].idx
                        == self.routes@[b].idx),
                forall|a: int|
                    0 <= a < i ==> pos_in_bounds(
                        self.size as int,
                        (#[trigger] self.routes@[a]).x as int,
                        self.routes@[a].y as int,
                    ),
            decreases n - i,
        {
            if self.routes[i].x >= self.size || self.routes[i].y >= self.size {
                return false;
            }
            let mut j: usize = i + 1;
            while j < n
                invariant
                    n == self.routes@.len(),
                    0 <= i < n,
                    i < j <= n,
                    forall|b: int|
                        i < b < j ==> !((#[trigger] self.routes@[b]).epoch
                            == self.routes@[i as int].epoch && self.routes@[b].idx
                            == self.routes@[i as int].idx),
                decreases n - j,
            {
                if self.routes[j].epoch == self.routes[i].epoch && self.routes[j].idx
                    == self.routes[i].idx {
                    return false;
                }
                j += 1;
            }
            i += 1;
        }
        true
    }
}

/// Decoding inverts encoding of a snapshot.
#[verifier::rlimit(100)]
#[verifier::spinoff_prover]
pub proof fn lemma_timeline_round_trip(
    size: usize,
    routes: Seq<RouteRow>,
    proof_rows: Seq<(usize, usize, Seq<u8>)>,
    blacklist: Seq<usize>,
    nonce_rows: Seq<(usize, Seq<u8>)>,
    ha_nonce_rows: Seq<Seq<u8>>,
)
    requires
        routes.len() <= u64::MAX,
        proof_rows.len() <= u64::MAX,
        blacklist.len() <= u64::MAX,
        nonce_rows.len() <= u64::MAX,
        ha_nonce_rows.len() <= u64::MAX,
        forall|k: int| 0 <= k < routes.len() ==> (#[trigger] routes[k]).report@.len() <= usize::MAX,
        forall|k: int| 0 <= k < proof_rows.len() ==> (#[trigger] proof_rows[k]).2.len()
            <= usize::MAX,
        forall|k: int| 0 <= k < nonce_rows.len() ==> (#[trigger] nonce_rows[k]).1.len()
            <= usize::MAX,
        forall|k: int| 0 <= k < ha_nonce_rows.len() ==> (#[trigger] ha_nonce_rows[k]).len()
            <= usize::MAX,
    ensures
        dec_timeline(enc_timeline(size, routes, proof_rows, blacklist, nonce_rows, ha_nonce_rows))
            == Some(
            (size, routes_view(routes), proof_rows, blacklist, nonce_rows, ha_nonce_rows),
        ),
{
    let s = enc_timeline(size, routes, proof_rows, blacklist, nonce_rows, ha_nonce_rows);
    let er = enc_routes(routes);
    let et = enc_triples(proof_rows);
    let eb = crate::codec::enc_u64s(blacklist);
    let en = crate::codec::enc_pairs(nonce_rows);
    let eh = crate::codec::enc_blobs(ha_nonce_rows);
    crate::codec::lemma_le_bytes_len((size as u64) as nat, 8);
    crate::codec::lemma_le_bytes_len((routes.len() as u64) as nat, 8);
    crate::codec::lemma_le_bytes_len((proof_rows.len() as u64) as nat, 8);
    crate::codec::lemma_le_bytes_len((blacklist.len() as u64) as nat, 8);
    crate::codec::lemma_le_bytes_len((nonce_rows.len() as u64) as nat, 8);
    crate::codec::lemma_le_bytes_len((ha_nonce_rows.len() as u64) as nat, 8);
    let total = s.len() as int;
    let p0: int = 0;
    let p1: int = 8;
    let p2: int = p1 + 8;
    let p3: int = p2 + er.len() as int;
    let p4: int = p3 + 8;
    let p5: int = p4 + et.len() as int;
    let p6: int = p5 + 8;
    let p7: int = p6 + eb.len() as int;
    let p8: int = p7 + 8;
    let p9: int = p8 + en.len() as int;
    let p10: int = p9 + 8;
    assert(total == p10 + eh.len());
    crate::codec::lemma_subrange_of_subrange(s, 0, total, p0, p1);
    assert(s.subrange(p0, p1) =~= crate::codec::enc_u64(size as u64));
    crate::codec::lemma_rd_u64_at(s, p0, size as u64);
    crate::codec::lemma_subrange_of_subrange(s, 0, total, p1, p2);
    assert(s.subrange(p1, p2) =~= crate::codec::enc_u64(routes.len() as u64));
    crate::codec::lemma_rd_u64_at(s, p1, routes.len() as u64);
    crate::codec::lemma_subrange_of_subrange(s, 0, total, p2, p3);
    assert(s.subrange(p2, p3) =~= er);
    lemma_rd_routes_at(s, p2, routes);
    crate::codec::lemma_subrange_of_subrange(s, 0, total, p3, p4);
    assert(s.subrange(p3, p4) =~= crate::codec::enc_u64(proof_rows.len() as u64));
    crate::codec::lemma_rd_u64_at(s, p3, proof_rows.len() as u64);
    crate::codec::lemma_subrange_of_subrange(s, 0, total, p4, p5);
    assert(s.subrange(p4, p5) =~= et);
    lemma_rd_triples_at(s, p4, proof_rows);
    crate::codec::lemma_subrange_of_subrange(s, 0, total, p5, p6);
    assert(s.subrange(p5, p6) =~= crate::codec::enc_u64(blacklist.len() as u64));
    crate::codec::lemma_rd_u64_at(s, p5, blacklist.len() as u64);
    crate::codec::lemma_subrange_of_subrange(s, 0, total, p6, p7);
    assert(s.subrange(p6, p7) =~= eb);
    crate::codec::lemma_rd_u64s_at(s, p6, blacklist);
    crate::codec::lemma_subrange_of_subrange(s, 0, total, p7, p8);
    assert(s.subrange(p7, p8) =~= crate::codec::enc_u64(nonce_rows.len() as u64));
    crate::codec::lemma_rd_u64_at(s, p7, nonce_rows.len() as u64);
    crate::codec::lemma_subrange_of_subrange(s, 0, total, p8, p9);
    assert(s.subrange(p8, p9) =~= en);
    crate::codec::lemma_rd_pairs_at(s, p8, nonce_rows);
    crate::codec::lemma_subrange_of_subrange(s, 0, total, p9, p10);
    assert(s.subrange(p9, p10) =~= crate::codec::enc_u64(ha_nonce_rows.len() as u64));
    crate::codec::lemma_rd_u64_at(s, p9, ha_nonce_rows.len() as u64);
    crate::codec::lemma_subrange_of_subrange(s, 0, total, p10, total);
    assert(s.subrange(p10, total) =~= eh);
    crate::codec::lemma_rd_blobs_at(s, p10, ha_nonce_rows);
}

/// Blacklist monotonicity: across any single storage operation — whose
/// contract either keeps the blacklist or extends it by one index — every
/// blacklisted index stays blacklisted. Together with the write contract,
/// which answers a blacklisted writer with the blacklist error and leaves
/// the state untouched, no further write ever succeeds for such an index.
pub proof fn lemma_blacklist_monotone(t0: Timeline, t1: Timeline, idx: usize)
    requires
        t0.blacklisted(idx),
        t1.blacklist@ == t0.blacklist@ || (exists|j: usize|
            t1.blacklist@ == t0.blacklist@.push(j)),
    ensures
        t1.blacklisted(idx),
{
    let k = choose|k: int| 0 <= k < t0.blacklist@.len() && t0.blacklist@[k] == idx;
    if t1.blacklist@ == t0.blacklist@ {
        assert(t1.blacklist@[k] == idx);
    } else {
        let j = choose|j: usize| t1.blacklist@ == t0.blacklist@.push(j);
        assert(t1.blacklist@[k] == idx);
    }
}

/// Nonce uniqueness: a request is accepted exactly when its `(idx, nonce)`
/// pair is fresh — that is what `valid_nonce` and `add_nonce` return — and
/// an accepted pair is recorded and survives, so replaying it is rejected
/// for the rest of the run.
pub proof fn lemma_nonce_unique(t0: Timeline, t1: Timeline, idx: usize, nonce: Vec<u8>)
    requires
        !t0.has_nonce(idx, nonce@),
        t1.nonce_rows@ == t0.nonce_rows@.push((idx, nonce)),
    ensures
        t1.has_nonce(idx, nonce@),
{
    let last = t1.nonce_rows@.len() - 1;
    assert(t1.nonce_rows@[last].0 == idx && t1.nonce_rows@[last].1@ == nonce@);
}

} // verus!
