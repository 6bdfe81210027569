//! The double-echo reliable-broadcast state of one replica: which ECHO and
//! READY votes arrived for each `(client, epoch)` instance, which steps this
//! replica has already taken, and which instances it has delivered.

use vstd::prelude::*;
use crate::collections::{bytes_eq, USet};
use crate::key_management::{ServerKeys, key_lookup};
use crate::proofs::{proof_opened, verify_proof};
use crate::report::{Report, ReportData, report_opened, verify_report};
use crate::double_echo::{Write, WriteData};
use crate::storage::{Timeline, StorageError, pos_in_bounds, in_neighbourhood, has_route,
    route_of};
use crate::crypto::SIGN_PK_LEN;

verus! {

/// The votes one message has gathered in one broadcast instance.
pub struct SenderRow {
    pub client_id: usize,
    pub epoch: usize,
    pub message: Vec<u8>,
    pub senders: USet,
}

/// Whether a list of `(client, epoch)` pairs holds the given pair.
pub open spec fn pair_in(s: Seq<(usize, usize)>, c: usize, e: usize) -> bool {
    exists|j: int| 0 <= j < s.len() && s[j] == (c, e)
}

/// Everything in a pair list is still there after a push.
pub proof fn lemma_pair_in_push(s: Seq<(usize, usize)>, p: (usize, usize))
    ensures
        forall|c: usize, e: usize| pair_in(s, c, e) ==> pair_in(s.push(p), c, e),
        pair_in(s.push(p), p.0, p.1),
{
    assert(s.push(p)[s.len() as int] == p);
    assert forall|c: usize, e: usize| pair_in(s, c, e) implies pair_in(s.push(p), c, e) by {
        let j = choose|j: int| 0 <= j < s.len() && s[j] == (c, e);
        assert(s.push(p)[j] == (c, e));
    }
}

/// Whether some row tracks message `m` in instance `(c, e)`.
pub open spec fn has_msg(rows: Seq<SenderRow>, c: usize, e: usize, m: Seq<u8>) -> bool {
    exists|j: int|
        0 <= j < rows.len() && (#[trigger] rows[j]).client_id == c && rows[j].epoch == e
            && rows[j].message@ == m
}

/// Whether `sid` has voted for any message in instance `(c, e)`.
pub open spec fn voted(rows: Seq<SenderRow>, c: usize, e: usize, sid: usize) -> bool {
    exists|j: int|
        0 <= j < rows.len() && (#[trigger] rows[j]).client_id == c && rows[j].epoch == e
            && rows[j].senders.has(sid)
}

/// How many votes message `m` has gathered in instance `(c, e)`.
pub open spec fn vote_count(rows: Seq<SenderRow>, c: usize, e: usize, m: Seq<u8>) -> nat {
    if has_msg(rows, c, e, m) {
        rows[choose|j: int|
            0 <= j < rows.len() && (#[trigger] rows[j]).client_id == c && rows[j].epoch == e
                && rows[j].message@ == m].senders.count()
    } else {
        0
    }
}

/// The vote count of the row of instance `(c, e)` that `sid` voted for.
pub open spec fn voted_row_count(rows: Seq<SenderRow>, c: usize, e: usize, sid: usize) -> nat {
    rows[choose|j: int|
        0 <= j < rows.len() && (#[trigger] rows[j]).client_id == c && rows[j].epoch == e
            && rows[j].senders.has(sid)].senders.count()
}

/// What `add_server_to_echo_msg` / `add_server_to_ready_msg` return for a
/// vote of `sid` on `m` in instance `(c, e)`: the count of the row `sid`
/// already stands in, or one more than the votes `m` had.
pub open spec fn count_after_vote(
    rows: Seq<SenderRow>,
    c: usize,
    e: usize,
    sid: usize,
    m: Seq<u8>,
) -> nat {
    if voted(rows, c, e, sid) {
        voted_row_count(rows, c, e, sid)
    } else {
        vote_count(rows, c, e, m) + 1
    }
}

/// Vote bookkeeping is well formed: one row per `(client, epoch, message)`,
/// every sender set well formed, and no server voting twice in one instance.
pub open spec fn rows_wf(rows: Seq<SenderRow>) -> bool {
    &&& forall|i: int, j: int|
        0 <= i < j < rows.len() ==> !((#[trigger] rows[i]).client_id == (#[trigger] rows[j]).client_id
            && rows[i].epoch == rows[j].epoch && rows[i].message@ == rows[j].message@)
    &&& forall|j: int| 0 <= j < rows.len() ==> (#[trigger] rows[j]).senders.wf()
    &&& forall|i: int, j: int, x: usize|
        #![trigger rows[i].senders.has(x), rows[j].senders.has(x)]
        0 <= i < rows.len() && 0 <= j < rows.len() && i != j && rows[i].client_id
            == rows[j].client_id && rows[i].epoch == rows[j].epoch ==> !(rows[i].senders.has(x)
            && rows[j].senders.has(x))
}

/// The per-replica bookkeeping of the double-echo broadcast.
pub struct Logic {
    pub n_servers: usize,
    pub echos: Vec<SenderRow>,
    pub readys: Vec<SenderRow>,
    pub sent_echo: Vec<(usize, usize)>,
    pub sent_ready: Vec<(usize, usize)>,
    pub delivered: Vec<(usize, usize)>,
}

impl Logic {
    pub open spec fn wf(self) -> bool {
        &&& rows_wf(self.echos@)
        &&& rows_wf(self.readys@)
    }

    pub fn new(n_servers: usize) -> (r: Logic)
        ensures
            r.wf(),
            r.n_servers == n_servers,
            r.echos@.len() == 0,
            r.readys@.len() == 0,
            r.sent_echo@.len() == 0,
            r.sent_ready@.len() == 0,
            r.delivered@.len() == 0,
    {
        Logic {
            n_servers,
            echos: Vec::new(),
            readys: Vec::new(),
            sent_echo: Vec::new(),
            sent_ready: Vec::new(),
            delivered: Vec::new(),
        }
    }

    /// Marks that this replica echoes for `(client_id, epoch)`; says whether
    /// the mark is new.
    pub fn start_echo(&mut self, client_id: usize, epoch: usize) -> (r: bool)
        ensures
            r == !pair_in(old(self).sent_echo@, client_id, epoch),
            pair_in(final(self).sent_echo@, client_id, epoch),
            r ==> final(self).sent_echo@ == old(self).sent_echo@.push((client_id, epoch)),
            !r ==> *final(self) == *old(self),
            final(self).echos@ == old(self).echos@,
            final(self).readys@ == old(self).readys@,
            final(self).sent_ready@ == old(self).sent_ready@,
            final(self).delivered@ == old(self).delivered@,
            final(self).n_servers == old(self).n_servers,
            old(self).wf() ==> final(self).wf(),
    {
        if Self::pair_contains(&self.sent_echo, client_id, epoch) {
            return false;
        }
        self.sent_echo.push((client_id, epoch));
        proof {
            assert(self.sent_echo@.last() == (client_id, epoch));
        }
        true
    }

    /// Marks that this replica sends READY for `(client_id, epoch)`; says
    /// whether the mark is new.
    pub fn start_ready(&mut self, client_id: usize, epoch: usize) -> (r: bool)
        ensures
            r == !pair_in(old(self).sent_ready@, client_id, epoch),
            pair_in(final(self).sent_ready@, client_id, epoch),
            forall|c: usize, e: usize|
                pair_in(old(self).sent_ready@, c, e) ==> pair_in(final(self).sent_ready@, c, e),
            r ==> final(self).sent_ready@ == old(self).sent_ready@.push((client_id, epoch)),
            !r ==> *final(self) == *old(self),
            final(self).echos@ == old(self).echos@,
            final(self).readys@ == old(self).readys@,
            final(self).sent_echo@ == old(self).sent_echo@,
            final(self).delivered@ == old(self).delivered@,
            final(self).n_servers == old(self).n_servers,
            old(self).wf() ==> final(self).wf(),
    {
        if Self::pair_contains(&self.sent_ready, client_id, epoch) {
            return false;
        }
        self.sent_ready.push((client_id, epoch));
        proof {
            assert(self.sent_ready@.last() == (client_id, epoch));
            lemma_pair_in_push(old(self).sent_ready@, (client_id, epoch));
        }
        true
    }

    /// Marks `(client_id, epoch)` delivered; says whether the mark is new.
    pub fn start_deliver(&mut self, client_id: usize, epoch: usize) -> (r: bool)
        ensures
            r == !pair_in(old(self).delivered@, client_id, epoch),
            pair_in(final(self).delivered@, client_id, epoch),
            forall|c: usize, e: usize|
                pair_in(old(self).delivered@, c, e) ==> pair_in(final(self).delivered@, c, e),
            r ==> final(self).delivered@ == old(self).delivered@.push((client_id, epoch)),
            !r ==> *final(self) == *old(self),
            final(self).echos@ == old(self).echos@,
            final(self).readys@ == old(self).readys@,
            final(self).sent_echo@ == old(self).sent_echo@,
            final(self).sent_ready@ == old(self).sent_ready@,
            final(self).n_servers == old(self).n_servers,
            old(self).wf() ==> final(self).wf(),
    {
        if Self::pair_contains(&self.delivered, client_id, epoch) {
            return false;
        }
        self.delivered.push((client_id, epoch));
        proof {
            assert(self.delivered@.last() == (client_id, epoch));
            lemma_pair_in_push(old(self).delivered@, (client_id, epoch));
        }
        true
    }

    /// Whether `(client_id, epoch)` has been delivered on this replica.
    pub fn has_been_delivered(&self, client_id: usize, epoch: usize) -> (r: bool)
        ensures
            r == pair_in(self.delivered@, client_id, epoch),
    {
        Self::pair_contains(&self.delivered, client_id, epoch)
    }

    fn pair_contains(s: &Vec<(usize, usize)>, c: usize, e: usize) -> (r: bool)
        ensures
            r == pair_in(s@, c, e),
    {
        let n = s.len();
        let mut i: usize = 0;
        while i < n
            invariant
                n == s@.len(),
                0 <= i <= n,
                forall|j: int| 0 <= j < i ==> s@[j] != (c, e),
            decreases n - i,
        {
            if s[i].0 == c && s[i].1 == e {
                proof {
                    assert(s@[i as int] == (c, e));
                }
                return true;
            }
            i += 1;
        }
        false
    }

    /// Whether message `m` has been seen as an ECHO for `(client_id, epoch)`.
    pub fn has_echo_message(&self, client_id: usize, epoch: usize, message: &Vec<u8>) -> (r: bool)
        ensures
            r == has_msg(self.echos@, client_id, epoch, message@),
    {
        Self::rows_contain(&self.echos, client_id, epoch, message)
    }

    /// Whether message `m` has been seen as a READY for `(client_id, epoch)`.
    pub fn has_ready_message(&self, client_id: usize, epoch: usize, message: &Vec<u8>) -> (r:
        bool)
        ensures
            r == has_msg(self.readys@, client_id, epoch, message@),
    {
        Self::rows_contain(&self.readys, client_id, epoch, message)
    }

    fn rows_contain(rows: &Vec<SenderRow>, c: usize, e: usize, m: &Vec<u8>) -> (r: bool)
        ensures
            r == has_msg(rows@, c, e, m@),
    {
        let n = rows.len();
        let mut i: usize = 0;
        while i < n
            invariant
                n == rows@.len(),
                0 <= i <= n,
                forall|j: int|
                    0 <= j < i ==> !((#[trigger] rows@[j]).client_id == c && rows@[j].epoch == e
                        && rows@[j].message@ == m@),
            decreases n - i,
        {
            if rows[i].client_id == c && rows[i].epoch == e && bytes_eq(&rows[i].message, m) {
                return true;
            }
            i += 1;
        }
        false
    }

    /// Counts server `server_id`'s ECHO vote for message `m` in instance
    /// `(client_id, epoch)`. A server that already voted in this instance is
    /// not counted again; the returned value is the vote count of the row
    /// the server stands in after the call.
    pub fn add_server_to_echo_msg(
        &mut self,
        client_id: usize,
        epoch: usize,
        server_id: usize,
        message: &Vec<u8>,
    ) -> (r: usize)
        requires
            old(self).wf(),
        ensures
            final(self).wf(),
            final(self).readys@ == old(self).readys@,
            final(self).sent_echo@ == old(self).sent_echo@,
            final(self).sent_ready@ == old(self).sent_ready@,
            final(self).delivered@ == old(self).delivered@,
            final(self).n_servers == old(self).n_servers,
            voted(old(self).echos@, client_id, epoch, server_id) ==> {
                &&& final(self).echos@ == old(self).echos@
                &&& r == voted_row_count(old(self).echos@, client_id, epoch, server_id)
            },
            !voted(old(self).echos@, client_id, epoch, server_id) ==> {
                &&& r == vote_count(old(self).echos@, client_id, epoch, message@) + 1
                &&& vote_count(final(self).echos@, client_id, epoch, message@) == r
                &&& voted(final(self).echos@, client_id, epoch, server_id)
                &&& forall|s2: usize|
                    s2 != server_id ==> voted(final(self).echos@, client_id, epoch, s2) == voted(
                        old(self).echos@,
                        client_id,
                        epoch,
                        s2,
                    )
                &&& forall|m2: Seq<u8>|
                    m2 != message@ ==> vote_count(final(self).echos@, client_id, epoch, m2)
                        == vote_count(old(self).echos@, client_id, epoch, m2)
                &&& forall|c2: usize, e2: usize, m2: Seq<u8>|
                    !(c2 == client_id && e2 == epoch) ==> vote_count(
                        final(self).echos@,
                        c2,
                        e2,
                        m2,
                    ) == vote_count(old(self).echos@, c2, e2, m2)
                &&& has_msg(final(self).echos@, client_id, epoch, message@)
            },
    {
        let r = Self::add_vote(&mut self.echos, client_id, epoch, server_id, message);
        r
    }

    /// Counts server `server_id`'s READY vote for message `m` in instance
    /// `(client_id, epoch)`, with the same rules as for ECHO votes.
    pub fn add_server_to_ready_msg(
        &mut self,
        client_id: usize,
        epoch: usize,
        server_id: usize,
        message: &Vec<u8>,
    ) -> (r: usize)
        requires
            old(self).wf(),
        ensures
            final(self).wf(),
            final(self).echos@ == old(self).echos@,
            final(self).sent_echo@ == old(self).sent_echo@,
            final(self).sent_ready@ == old(self).sent_ready@,
            final(self).delivered@ == old(self).delivered@,
            final(self).n_servers == old(self).n_servers,
            voted(old(self).readys@, client_id, epoch, server_id) ==> {
                &&& final(self).readys@ == old(self).readys@
                &&& r == voted_row_count(old(self).readys@, client_id, epoch, server_id)
            },
            !voted(old(self).readys@, client_id, epoch, server_id) ==> {
                &&& r == vote_count(old(self).readys@, client_id, epoch, message@) + 1
                &&& vote_count(final(self).readys@, client_id, epoch, message@) == r
                &&& voted(final(self).readys@, client_id, epoch, server_id)
                &&& forall|s2: usize|
                    s2 != server_id ==> voted(final(self).readys@, client_id, epoch, s2) == voted(
                        old(self).readys@,
                        client_id,
                        epoch,
                        s2,
                    )
                &&& forall|m2: Seq<u8>|
                    m2 != message@ ==> vote_count(final(self).readys@, client_id, epoch, m2)
                        == vote_count(old(self).readys@, client_id, epoch, m2)
                &&& forall|c2: usize, e2: usize, m2: Seq<u8>|
                    !(c2 == client_id && e2 == epoch) ==> vote_count(
                        final(self).readys@,
                        c2,
                        e2,
                        m2,
                    ) == vote_count(old(self).readys@, c2, e2, m2)
                &&& has_msg(final(self).readys@, client_id, epoch, message@)
            },
    {
        let r = Self::add_vote(&mut self.readys, client_id, epoch, server_id, message);
        r
    }

    /// Records one vote in a row table, deduplicating by voter within the
    /// instance.
    fn add_vote(rows: &mut Vec<SenderRow>, c: usize, e: usize, sid: usize, m: &Vec<u8>) -> (r:
        usize)
        requires
            rows_wf(old(rows)@),
        ensures
            rows_wf(final(rows)@),
            voted(old(rows)@, c, e, sid) ==> {
                &&& final(rows)@ == old(rows)@
                &&& r == voted_row_count(old(rows)@, c, e, sid)
            },
            !voted(old(rows)@, c, e, sid) ==> {
                &&& r == vote_count(old(rows)@, c, e, m@) + 1
                &&& vote_count(final(rows)@, c, e, m@) == r
                &&& voted(final(rows)@, c, e, sid)
                &&& forall|s2: usize|
                    s2 != sid ==> voted(final(rows)@, c, e, s2) == voted(old(rows)@, c, e, s2)
                &&& forall|m2: Seq<u8>|
                    m2 != m@ ==> vote_count(final(rows)@, c, e, m2) == vote_count(
                        old(rows)@,
                        c,
                        e,
                        m2,
                    )
                &&& forall|c2: usize, e2: usize, m2: Seq<u8>|
                    !(c2 == c && e2 == e) ==> vote_count(final(rows)@, c2, e2, m2) == vote_count(
                        old(rows)@,
                        c2,
                        e2,
                        m2,
                    )
                &&& has_msg(final(rows)@, c, e, m@)
            },
    {
        let n = rows.len();
        let mut i: usize = 0;
        while i < n
            invariant
                rows@ == old(rows)@,
                rows_wf(rows@),
                n == rows@.len(),
                0 <= i <= n,
                forall|j: int|
                    0 <= j < i ==> !((#[trigger] rows@[j]).client_id == c && rows@[j].epoch == e
                        && rows@[j].senders.has(sid)),
            decreases n - i,
        {
            if rows[i].client_id == c && rows[i].epoch == e && rows[i].senders.contains(sid) {
                proof {
                    assert(voted(rows@, c, e, sid));
                    let k = choose|j: int|
                        0 <= j < rows@.len() && (#[trigger] rows@[j]).client_id == c
                            && rows@[j].epoch == e && rows@[j].senders.has(sid);
                    if k != i as int {
                        assert(false);
                    }
                }
                return rows[i].senders.len();
            }
            i += 1;
        }
        proof {
            assert(!voted(rows@, c, e, sid));
        }
        let mut i: usize = 0;
        while i < n
            invariant
                rows@ == old(rows)@,
                !voted(rows@, c, e, sid),
                rows_wf(rows@),
                n == rows@.len(),
                0 <= i <= n,
                forall|j: int|
                    0 <= j < i ==> !((#[trigger] rows@[j]).client_id == c && rows@[j].epoch == e
                        && rows@[j].message@ == m@),
            decreases n - i,
        {
            if rows[i].client_id == c && rows[i].epoch == e && bytes_eq(&rows[i].message, m) {
                proof {
                    assert(has_msg(rows@, c, e, m@));
                    let k = choose|j: int|
                        0 <= j < rows@.len() && (#[trigger] rows@[j]).client_id == c
                            && rows@[j].epoch == e && rows@[j].message@ == m@;
                    if k != i as int {
                        assert(false);
                    }
                    assert(vote_count(rows@, c, e, m@) == rows@[i as int].senders.count());
                }
                let ghost before = rows@;
                proof {
                    assert(before[i as int].senders.wf());
                    assert(!before[i as int].senders.has(sid)) by {
                        if before[i as int].senders.has(sid) {
                            assert(voted(before, c, e, sid));
                        }
                    }
                }
                let row = vstd::std_specs::vec::vec_index_mut(rows, i);
                let ghost old_row = *row;
                proof {
                    assert(old_row == before[i as int]);
                }
                let added = row.senders.insert(sid);
                let count = row.senders.len();
                proof {
                    assert(added == true);
                    assert(row.client_id == old_row.client_id && row.epoch == old_row.epoch
                        && row.message == old_row.message);
                    assert(row.senders.wf() && row.senders.has(sid) && row.senders.count()
                        == old_row.senders.count() + 1);
                    assert(forall|y: usize|
                        y != sid ==> row.senders.has(y) == old_row.senders.has(y));
                }
                proof {
                    assert(rows@.len() == before.len());
                    assert(forall|j: int| 0 <= j < before.len() && j != i ==> rows@[j] == before[j]);
                    assert(rows@[i as int].client_id == c && rows@[i as int].epoch == e
                        && rows@[i as int].message@ == m@);
                    assert(rows@[i as int].senders.wf());
                    assert(rows@[i as int].senders.has(sid));
                    assert(rows@[i as int].senders.count() == before[i as int].senders.count()
                        + 1);
                    assert(forall|y: usize|
                        y != sid ==> rows@[i as int].senders.has(y) == before[i as int].senders.has(
                            y,
                        ));
                    lemma_add_vote_update(before, rows@, i as int, c, e, sid, m@);
                }
                return count;
            }
            i += 1;
        }
        proof {
            assert(!has_msg(rows@, c, e, m@));
            assert(vote_count(rows@, c, e, m@) == 0);
        }
        let ghost before = rows@;
        let fresh = USet::singleton(sid);
        let message_copy = m.clone();
        rows.push(SenderRow { client_id: c, epoch: e, message: message_copy, senders: fresh });
        proof {
            let last = rows@.len() - 1;
            assert(rows@[last].client_id == c && rows@[last].epoch == e && rows@[last].message@
                == m@);
            assert(rows@[last].senders == fresh);
            lemma_add_vote_push(before, rows@, c, e, sid, m@);
        }
        1
    }
}

/// After one row of a well-formed table gains a fresh voter, the counts of
/// every other triple are unchanged and the table is still well formed.
proof fn lemma_add_vote_update(
    before: Seq<SenderRow>,
    after: Seq<SenderRow>,
    i: int,
    c: usize,
    e: usize,
    sid: usize,
    m: Seq<u8>,
)
    requires
        rows_wf(before),
        0 <= i < before.len(),
        after.len() == before.len(),
        forall|j: int| 0 <= j < before.len() && j != i ==> after[j] == before[j],
        before[i].client_id == c && before[i].epoch == e && before[i].message@ == m,
        after[i].client_id == c && after[i].epoch == e && after[i].message@ == m,
        !voted(before, c, e, sid),
        after[i].senders.wf(),
        after[i].senders.has(sid),
        after[i].senders.count() == before[i].senders.count() + 1,
        forall|y: usize| y != sid ==> after[i].senders.has(y) == before[i].senders.has(y),
    ensures
        rows_wf(after),
        vote_count(after, c, e, m) == before[i].senders.count() + 1,
        vote_count(before, c, e, m) == before[i].senders.count(),
        voted(after, c, e, sid),
        forall|s2: usize| s2 != sid ==> voted(after, c, e, s2) == voted(before, c, e, s2),
        forall|m2: Seq<u8>| m2 != m ==> vote_count(after, c, e, m2) == vote_count(before, c, e, m2),
        forall|c2: usize, e2: usize, m2: Seq<u8>|
            !(c2 == c && e2 == e) ==> vote_count(after, c2, e2, m2) == vote_count(before, c2, e2, m2),
        has_msg(after, c, e, m),
{
    assert(has_msg(before, c, e, m));
    assert forall|s2: usize| s2 != sid implies voted(after, c, e, s2) == voted(
        before,
        c,
        e,
        s2,
    ) by {
        if voted(before, c, e, s2) {
            let j = choose|j: int|
                0 <= j < before.len() && (#[trigger] before[j]).client_id == c && before[j].epoch
                    == e && before[j].senders.has(s2);
            if j == i {
                assert(after[i].senders.has(s2));
            } else {
                assert(after[j] == before[j]);
            }
            assert(voted(after, c, e, s2));
        }
        if voted(after, c, e, s2) {
            let j = choose|j: int|
                0 <= j < after.len() && (#[trigger] after[j]).client_id == c && after[j].epoch == e
                    && after[j].senders.has(s2);
            if j == i {
                assert(before[i].senders.has(s2));
            } else {
                assert(before[j] == after[j]);
            }
            assert(voted(before, c, e, s2));
        }
    }
    assert forall|a: int, b: int|
        0 <= a < b < after.len() implies !((#[trigger] after[a]).client_id
        == (#[trigger] after[b]).client_id && after[a].epoch == after[b].epoch && after[a].message@
        == after[b].message@) by {
        assert(before[a].client_id == after[a].client_id && before[a].epoch == after[a].epoch
            && before[a].message@ == after[a].message@);
        assert(before[b].client_id == after[b].client_id && before[b].epoch == after[b].epoch
            && before[b].message@ == after[b].message@);
    }
    assert forall|a: int, b: int, x: usize|
        #![trigger after[a].senders.has(x), after[b].senders.has(x)]
        0 <= a < after.len() && 0 <= b < after.len() && a != b && after[a].client_id
            == after[b].client_id && after[a].epoch == after[b].epoch implies !(
    after[a].senders.has(x) && after[b].senders.has(x)) by {
        if a == i {
            if after[a].senders.has(x) && after[b].senders.has(x) {
                if x == sid {
                    assert(before[b].senders.has(x));
                    assert(voted(before, c, e, sid));
                } else {
                    assert(before[a].senders.has(x) && before[b].senders.has(x));
                }
            }
        } else if b == i {
            if after[a].senders.has(x) && after[b].senders.has(x) {
                if x == sid {
                    assert(before[a].senders.has(x));
                    assert(voted(before, c, e, sid));
                } else {
                    assert(before[a].senders.has(x) && before[b].senders.has(x));
                }
            }
        } else {
            assert(before[a].senders == after[a].senders && before[b].senders == after[b].senders);
        }
    }
    assert(has_msg(after, c, e, m)) by {
        assert(after[i].client_id == c && after[i].epoch == e && after[i].message@ == m);
    }
    assert(vote_count(after, c, e, m) == after[i].senders.count()) by {
        let k = choose|j: int|
            0 <= j < after.len() && (#[trigger] after[j]).client_id == c && after[j].epoch == e
                && after[j].message@ == m;
        if k != i {
            assert(false);
        }
    }
    assert(vote_count(before, c, e, m) == before[i].senders.count()) by {
        let k = choose|j: int|
            0 <= j < before.len() && (#[trigger] before[j]).client_id == c && before[j].epoch == e
                && before[j].message@ == m;
        if k != i {
            assert(false);
        }
    }
    assert(voted(after, c, e, sid)) by {
        assert(after[i].senders.has(sid));
    }
    assert forall|m2: Seq<u8>| m2 != m implies vote_count(after, c, e, m2) == vote_count(
        before,
        c,
        e,
        m2,
    ) by {
        lemma_vote_count_frame(before, after, i, c, e, m2);
    }
    assert forall|c2: usize, e2: usize, m2: Seq<u8>|
        !(c2 == c && e2 == e) implies vote_count(after, c2, e2, m2) == vote_count(
        before,
        c2,
        e2,
        m2,
    ) by {
        lemma_vote_count_frame(before, after, i, c2, e2, m2);
    }
}

/// Changing one row does not change the count of a triple that row never
/// matched.
proof fn lemma_vote_count_frame(
    before: Seq<SenderRow>,
    after: Seq<SenderRow>,
    i: int,
    c2: usize,
    e2: usize,
    m2: Seq<u8>,
)
    requires
        rows_wf(before),
        0 <= i < before.len(),
        after.len() == before.len(),
        forall|j: int| 0 <= j < before.len() && j != i ==> after[j] == before[j],
        after[i].client_id == before[i].client_id,
        after[i].epoch == before[i].epoch,
        after[i].message@ == before[i].message@,
        !(before[i].client_id == c2 && before[i].epoch == e2 && before[i].message@ == m2),
    ensures
        vote_count(after, c2, e2, m2) == vote_count(before, c2, e2, m2),
{
    if has_msg(before, c2, e2, m2) {
        let k = choose|j: int|
            0 <= j < before.len() && (#[trigger] before[j]).client_id == c2 && before[j].epoch
                == e2 && before[j].message@ == m2;
        assert(k != i);
        assert(after[k] == before[k]);
        assert(has_msg(after, c2, e2, m2));
        let k2 = choose|j: int|
            0 <= j < after.len() && (#[trigger] after[j]).client_id == c2 && after[j].epoch == e2
                && after[j].message@ == m2;
        if k2 == i {
            assert(false);
        }
        assert(after[k2] == before[k2]);
        assert(vote_count(after, c2, e2, m2) == after[k2].senders.count());
        assert(vote_count(before, c2, e2, m2) == before[k].senders.count());
        if k2 != k {
            assert(before[k2].client_id == c2 && before[k2].epoch == e2 && before[k2].message@
                == m2);
            assert(vote_count(before, c2, e2, m2) == before[k2].senders.count());
        }
    } else {
        assert(!has_msg(after, c2, e2, m2)) by {
            if has_msg(after, c2, e2, m2) {
                let k2 = choose|j: int|
                    0 <= j < after.len() && (#[trigger] after[j]).client_id == c2 && after[j].epoch
                        == e2 && after[j].message@ == m2;
                if k2 == i {
                    assert(false);
                } else {
                    assert(before[k2] == after[k2]);
                }
            }
        }
    }
}

/// After pushing a fresh singleton row onto a well-formed table, the new
/// triple counts one vote and every other triple is unchanged.
proof fn lemma_add_vote_push(
    before: Seq<SenderRow>,
    after: Seq<SenderRow>,
    c: usize,
    e: usize,
    sid: usize,
    m: Seq<u8>,
)
    requires
        rows_wf(before),
        !voted(before, c, e, sid),
        !has_msg(before, c, e, m),
        after.len() == before.len() + 1,
        forall|j: int| 0 <= j < before.len() ==> after[j] == before[j],
        after[after.len() - 1].client_id == c,
        after[after.len() - 1].epoch == e,
        after[after.len() - 1].message@ == m,
        after[after.len() - 1].senders.wf(),
        after[after.len() - 1].senders.count() == 1,
        after[after.len() - 1].senders.has(sid),
        forall|y: usize| #[trigger] after[after.len() - 1].senders.has(y) ==> y == sid,
    ensures
        rows_wf(after),
        vote_count(after, c, e, m) == 1,
        voted(after, c, e, sid),
        forall|s2: usize| s2 != sid ==> voted(after, c, e, s2) == voted(before, c, e, s2),
        forall|m2: Seq<u8>| m2 != m ==> vote_count(after, c, e, m2) == vote_count(before, c, e, m2),
        forall|c2: usize, e2: usize, m2: Seq<u8>|
            !(c2 == c && e2 == e) ==> vote_count(after, c2, e2, m2) == vote_count(before, c2, e2, m2),
        has_msg(after, c, e, m),
{
    let last = after.len() - 1;
    assert forall|s2: usize| s2 != sid implies voted(after, c, e, s2) == voted(
        before,
        c,
        e,
        s2,
    ) by {
        if voted(before, c, e, s2) {
            let j = choose|j: int|
                0 <= j < before.len() && (#[trigger] before[j]).client_id == c && before[j].epoch
                    == e && before[j].senders.has(s2);
            assert(after[j] == before[j]);
            assert(voted(after, c, e, s2));
        }
        if voted(after, c, e, s2) {
            let j = choose|j: int|
                0 <= j < after.len() && (#[trigger] after[j]).client_id == c && after[j].epoch == e
                    && after[j].senders.has(s2);
            if j == last {
                assert(after[last].senders.has(s2));
            } else {
                assert(before[j] == after[j]);
                assert(voted(before, c, e, s2));
            }
        }
    }
    assert forall|a: int, b: int|
        0 <= a < b < after.len() implies !((#[trigger] after[a]).client_id
        == (#[trigger] after[b]).client_id && after[a].epoch == after[b].epoch && after[a].message@
        == after[b].message@) by {
        if b == last {
            if after[a].client_id == c && after[a].epoch == e && after[a].message@ == m {
                assert(has_msg(before, c, e, m));
            }
        }
    }
    assert forall|a: int, b: int, x: usize|
        #![trigger after[a].senders.has(x), after[b].senders.has(x)]
        0 <= a < after.len() && 0 <= b < after.len() && a != b && after[a].client_id
            == after[b].client_id && after[a].epoch == after[b].epoch implies !(
    after[a].senders.has(x) && after[b].senders.has(x)) by {
        if a == last || b == last {
            let other = if a == last {
                b
            } else {
                a
            };
            if after[other].client_id == c && after[other].epoch == e {
                if after[last].senders.has(x) && after[other].senders.has(x) {
                    assert(x == sid);
                    assert(voted(before, c, e, sid));
                }
            }
        }
    }
    assert(has_msg(after, c, e, m)) by {
        assert(after[last].client_id == c && after[last].epoch == e && after[last].message@ == m);
    }
    assert(vote_count(after, c, e, m) == 1) by {
        let k = choose|j: int|
            0 <= j < after.len() && (#[trigger] after[j]).client_id == c && after[j].epoch == e
                && after[j].message@ == m;
        if k != last {
            assert(before[k] == after[k]);
            assert(has_msg(before, c, e, m));
        }
    }
    assert(voted(after, c, e, sid)) by {
        assert(after[last].senders.has(sid));
    }
    assert forall|m2: Seq<u8>| m2 != m implies vote_count(after, c, e, m2) == vote_count(
        before,
        c,
        e,
        m2,
    ) by {
        lemma_vote_count_push_frame(before, after, c, e, m, c, e, m2);
    }
    assert forall|c2: usize, e2: usize, m2: Seq<u8>|
        !(c2 == c && e2 == e) implies vote_count(after, c2, e2, m2) == vote_count(
        before,
        c2,
        e2,
        m2,
    ) by {
        lemma_vote_count_push_frame(before, after, c, e, m, c2, e2, m2);
    }
}

/// Pushing a row does not change the count of any other triple.
proof fn lemma_vote_count_push_frame(
    before: Seq<SenderRow>,
    after: Seq<SenderRow>,
    c: usize,
    e: usize,
    m: Seq<u8>,
    c2: usize,
    e2: usize,
    m2: Seq<u8>,
)
    requires
        rows_wf(before),
        after.len() == before.len() + 1,
        forall|j: int| 0 <= j < before.len() ==> after[j] == before[j],
        after[after.len() - 1].client_id == c,
        after[after.len() - 1].epoch == e,
        after[after.len() - 1].message@ == m,
        !(c2 == c && e2 == e && m2 == m),
    ensures
        vote_count(after, c2, e2, m2) == vote_count(before, c2, e2, m2),
{
    let last = after.len() - 1;
    if has_msg(before, c2, e2, m2) {
        let k = choose|j: int|
            0 <= j < before.len() && (#[trigger] before[j]).client_id == c2 && before[j].epoch
                == e2 && before[j].message@ == m2;
        assert(after[k] == before[k]);
        assert(has_msg(after, c2, e2, m2));
        let k2 = choose|j: int|
            0 <= j < after.len() && (#[trigger] after[j]).client_id == c2 && after[j].epoch == e2
                && after[j].message@ == m2;
        if k2 == last {
            assert(false);
        }
        assert(after[k2] == before[k2]);
        assert(vote_count(after, c2, e2, m2) == after[k2].senders.count());
        assert(vote_count(before, c2, e2, m2) == before[k2].senders.count()) by {
            let kb = choose|j: int|
                0 <= j < before.len() && (#[trigger] before[j]).client_id == c2 && before[j].epoch
                    == e2 && before[j].message@ == m2;
            assert(before[kb].senders.count() == vote_count(before, c2, e2, m2));
            assert(before[k2].client_id == c2 && before[k2].epoch == e2 && before[k2].message@
                == m2);
        }
    } else {
        assert(!has_msg(after, c2, e2, m2)) by {
            if has_msg(after, c2, e2, m2) {
                let k2 = choose|j: int|
                    0 <= j < after.len() && (#[trigger] after[j]).client_id == c2 && after[j].epoch
                        == e2 && after[j].message@ == m2;
                if k2 == last {
                    assert(false);
                } else {
                    assert(before[k2] == after[k2]);
                }
            }
        }
    }
}

/// Whether one attestation pair contributes to the proof count: a fresh
/// assertor with a known key, whose signed proof opens to a statement about
/// this reporter, this epoch, and a cell in the clamped neighbourhood of the
/// reported location. A self-attestation contributes only when the threshold
/// is zero.
pub open spec fn contributes(
    keys: Seq<(usize, Vec<u8>)>,
    size: usize,
    f_line: usize,
    req_idx: usize,
    epoch: usize,
    x: usize,
    y: usize,
    a: usize,
    sp: Seq<u8>,
    seen: Set<usize>,
) -> bool {
    &&& !seen.contains(a)
    &&& match key_lookup(keys, a) {
        Some(k) => match proof_opened(k@, sp) {
            Some(pr) => pr.epoch == epoch && pr.idx_req == req_idx && pr.idx_ass == a
                && in_neighbourhood(size, x, y, pr.loc_x, pr.loc_y) && (a != req_idx || f_line
                == 0),
            None => false,
        },
        None => false,
    }
}

/// How many distinct assertors contribute a valid proof, walking the pairs
/// in order and counting each assertor once.
pub open spec fn valid_count(
    keys: Seq<(usize, Vec<u8>)>,
    size: usize,
    f_line: usize,
    req_idx: usize,
    epoch: usize,
    x: usize,
    y: usize,
    pairs: Seq<(usize, Seq<u8>)>,
    seen: Set<usize>,
) -> nat
    decreases pairs.len(),
{
    if pairs.len() == 0 {
        0
    } else {
        let a = pairs[0].0;
        let sp = pairs[0].1;
        if contributes(keys, size, f_line, req_idx, epoch, x, y, a, sp, seen) {
            1 + valid_count(
                keys,
                size,
                f_line,
                req_idx,
                epoch,
                x,
                y,
                pairs.drop_first(),
                seen.insert(a),
            )
        } else {
            valid_count(keys, size, f_line, req_idx, epoch, x, y, pairs.drop_first(), seen)
        }
    }
}

/// The admission predicate for a report claimed by `req_idx`: the report
/// names the requester, lies inside the grid, and carries strictly more than
/// `f_line` contributing proofs.
pub open spec fn valid_report(
    keys: Seq<(usize, Vec<u8>)>,
    size: usize,
    f_line: usize,
    req_idx: usize,
    rd: ReportData,
) -> bool {
    &&& rd.idx == req_idx
    &&& pos_in_bounds(size as int, rd.loc_x as int, rd.loc_y as int)
    &&& valid_count(
        keys,
        size,
        f_line,
        req_idx,
        rd.epoch,
        rd.loc_x,
        rd.loc_y,
        rd.proofs,
        Set::empty(),
    ) > f_line
}

/// The attestations of a report whose signatures verify, as
/// `(assertor, proof epoch, signed proof bytes)` rows for the proofs index.
pub open spec fn assisted(keys: Seq<(usize, Vec<u8>)>, pairs: Seq<(usize, Seq<u8>)>) -> Seq<
    (usize, usize, Seq<u8>),
>
    decreases pairs.len(),
{
    if pairs.len() == 0 {
        Seq::empty()
    } else {
        let rest = assisted(keys, pairs.drop_last());
        let last = pairs.last();
        match key_lookup(keys, last.0) {
            Some(k) => match proof_opened(k@, last.1) {
                Some(pr) => rest.push((last.0, pr.epoch, last.1)),
                None => rest,
            },
            None => rest,
        }
    }
}

/// What a replica answers to a WRITE message it refuses.
#[derive(Debug, PartialEq, Eq, Structural, Clone, Copy)]
pub enum EchoRejection {
    /// The sending replica id is out of range.
    InvalidServerId,
    /// The signed report bytes do not verify or do not decode.
    BadReport,
    /// The report fails the admission predicate or contradicts the message.
    NotValid,
}

/// Why a delivery did not commit.
#[derive(Debug, PartialEq, Eq, Structural, Clone, Copy)]
pub enum DeliverError {
    /// The signed report bytes do not verify or do not decode.
    BadReport,
    /// The report fails the admission predicate.
    NotValid,
    /// The storage engine rejected the write.
    Rejected(StorageError),
}

/// What the caller must still do after one broadcast step: fan an ECHO or a
/// READY out to the other replicas, and snapshot after a delivery.
#[derive(Debug, PartialEq, Eq, Clone, Copy)]
pub struct WriteProgress {
    pub send_echo: bool,
    pub send_ready: bool,
    pub delivered: Option<Result<(), DeliverError>>,
}

/// The outcome of a client write confirmation.
#[derive(Debug, PartialEq, Eq, Clone, Copy)]
pub enum ConfirmOutcome {
    /// The report fails the admission predicate; nothing changed.
    Invalid,
    /// This `(client, epoch)` was already delivered here with the same
    /// location: an idempotent success.
    AlreadyDelivered,
    /// This `(client, epoch)` was already delivered here and the new report
    /// contradicts it, or the writer is blacklisted: the write is rejected,
    /// an equivocator is blacklisted.
    Rejected(StorageError),
    /// The broadcast is under way; the progress says what to fan out.
    InProgress(WriteProgress),
}

/// One replica's double-echo engine: its parameters, key material, storage
/// and vote bookkeeping.
pub struct DoubleEcho {
    pub server_id: usize,
    pub necessary_res: usize,
    pub f_servers: usize,
    pub f_line: usize,
    pub server_keys: ServerKeys,
    pub storage: Timeline,
    pub logic: Logic,
}

impl DoubleEcho {
    pub open spec fn wf(self) -> bool {
        &&& self.server_keys.wf()
        &&& self.storage.wf()
        &&& self.logic.wf()
        &&& self.server_id < self.logic.n_servers
    }

    /// The user verify keys this replica trusts.
    pub open spec fn keys_of(self) -> Seq<(usize, Vec<u8>)> {
        self.server_keys.client_keys@
    }

    /// The report carried by signed bytes claimed by `client_id`, when the
    /// key is known, the signature checks out, and the payload decodes.
    pub open spec fn opened_report(self, client_id: usize, m: Seq<u8>) -> Option<ReportData> {
        match key_lookup(self.keys_of(), client_id) {
            None => None,
            Some(k) => report_opened(k@, m),
        }
    }

    /// Whether signed bytes from `client_id` open to an admissible report.
    pub open spec fn admissible(self, client_id: usize, m: Seq<u8>) -> bool {
        match self.opened_report(client_id, m) {
            Some(rd) => valid_report(
                self.keys_of(),
                self.storage.size,
                self.f_line,
                client_id,
                rd,
            ),
            None => false,
        }
    }

    /// Why an incoming WRITE is refused, if it is: an out-of-range sender,
    /// or — on first sight of its message — a payload that fails signature
    /// verification, the admission predicate, or the epoch check. A message
    /// already tallied is never re-examined.
    pub open spec fn write_rejection(self, from_server: usize, w: WriteData) -> Option<
        EchoRejection,
    > {
        if from_server >= self.logic.n_servers {
            Some(EchoRejection::InvalidServerId)
        } else if has_msg(
            if w.echo {
                self.logic.echos@
            } else {
                self.logic.readys@
            },
            w.client_id,
            w.epoch,
            w.report,
        ) {
            None
        } else {
            match self.opened_report(w.client_id, w.report) {
                None => Some(EchoRejection::BadReport),
                Some(rd) => if !(valid_report(
                    self.keys_of(),
                    self.storage.size,
                    self.f_line,
                    w.client_id,
                    rd,
                ) && rd.epoch == w.epoch) {
                    Some(EchoRejection::NotValid)
                } else {
                    None
                },
            }
        }
    }

    /// What delivering signed bytes for `client_id` must return, as a
    /// function of the replica's state: the signature and the admission
    /// predicate first, then the blacklist, then the committed location.
    pub open spec fn deliver_outcome(self, client_id: usize, m: Seq<u8>) -> Result<
        (),
        DeliverError,
    > {
        match self.opened_report(client_id, m) {
            None => Err(DeliverError::BadReport),
            Some(rd) => if !valid_report(
                self.keys_of(),
                self.storage.size,
                self.f_line,
                client_id,
                rd,
            ) {
                Err(DeliverError::NotValid)
            } else if self.storage.blacklisted(client_id) {
                Err(DeliverError::Rejected(StorageError::Blacklisted))
            } else {
                match route_of(self.storage.routes@, rd.epoch, client_id) {
                    Some(row) => if row.x == rd.loc_x && row.y == rd.loc_y {
                        Ok(())
                    } else {
                        Err(DeliverError::Rejected(StorageError::Equivocation))
                    },
                    None => Ok(()),
                }
            },
        }
    }

    pub fn new(
        server_id: usize,
        n_servers: usize,
        necessary_res: usize,
        f_servers: usize,
        server_keys: ServerKeys,
        f_line: usize,
        storage: Timeline,
    ) -> (r: DoubleEcho)
        requires
            server_id < n_servers,
        ensures
            r.server_id == server_id,
            r.necessary_res == necessary_res,
            r.f_servers == f_servers,
            r.f_line == f_line,
            r.server_keys == server_keys,
            r.storage == storage,
            r.logic.n_servers == n_servers,
            r.logic.echos@.len() == 0 && r.logic.readys@.len() == 0,
            r.logic.sent_echo@.len() == 0 && r.logic.sent_ready@.len() == 0,
            r.logic.delivered@.len() == 0,
            server_keys.wf() && storage.wf() ==> r.wf(),
    {
        DoubleEcho {
            server_id,
            necessary_res,
            f_servers,
            f_line,
            server_keys,
            storage,
            logic: Logic::new(n_servers),
        }
    }

    /// Whether a replica id is one of the `n_servers` replicas.
    pub fn is_valid_server_id(&self, server_id: usize) -> (r: bool)
        ensures
            r == (server_id < self.logic.n_servers),
    {
        server_id < self.logic.n_servers
    }

    /// Verifies signed report bytes against the claimed writer's key.
    pub fn get_report_from_signed(&self, message: &Vec<u8>, client_id: usize) -> (r: Option<
        Report,
    >)
        requires
            self.server_keys.wf(),
        ensures
            match r {
                Some(rep) => self.opened_report(client_id, message@) == Some(rep@),
                None => self.opened_report(client_id, message@) is None,
            },
    {
        let key = match self.server_keys.client_sign_key(client_id) {
            Some(k) => k,
            None => {
                return None;
            },
        };
        proof {
            lemma_key_len(self.keys_of(), client_id);
        }
        verify_report(key, message)
    }

    /// The admission predicate of the report validator, walking the
    /// attestations in order, counting each assertor once, and stopping as
    /// soon as the threshold is beaten.
    pub fn check_valid_location_report(&self, req_idx: usize, report: &Report) -> (r: bool)
        requires
            self.server_keys.wf(),
        ensures
            r == valid_report(
                self.keys_of(),
                self.storage.size,
                self.f_line,
                req_idx,
                report@,
            ),
    {
        if req_idx != report.idx {
            return false;
        }
        let (pos_x, pos_y) = (report.loc_x, report.loc_y);
        if !self.storage.valid_pos(pos_x, pos_y) {
            return false;
        }
        let epoch = report.epoch;
        let ((lower_x, lower_y), (upper_x, upper_y)) = self.storage.valid_neighbour(pos_x, pos_y);
        let mut counter: usize = 0;
        let mut seen = USet::new();
        let ghost mut seen_set = Set::<usize>::empty();
        let n = report.proofs.len();
        let ghost pairs = report@.proofs;
        let mut k: usize = 0;
        proof {
            assert(pairs.skip(0) =~= pairs);
        }
        while k < n
            invariant
                self.server_keys.wf(),
                n == report.proofs@.len(),
                pairs == report@.proofs,
                pairs.len() == n,
                0 <= k <= n,
                counter <= k,
                seen.wf(),
                forall|x: usize| seen.has(x) == seen_set.contains(x),
                counter <= self.f_line,
                valid_count(
                    self.keys_of(),
                    self.storage.size,
                    self.f_line,
                    req_idx,
                    epoch,
                    pos_x,
                    pos_y,
                    pairs,
                    Set::empty(),
                ) == counter + valid_count(
                    self.keys_of(),
                    self.storage.size,
                    self.f_line,
                    req_idx,
                    epoch,
                    pos_x,
                    pos_y,
                    pairs.skip(k as int),
                    seen_set,
                ),
                epoch == report@.epoch && pos_x == report@.loc_x && pos_y == report@.loc_y,
                req_idx == report.idx,
                pos_in_bounds(self.storage.size as int, pos_x as int, pos_y as int),
                lower_x == crate::storage::clamped_lower(pos_x) && lower_y
                    == crate::storage::clamped_lower(pos_y),
                upper_x == crate::storage::clamped_upper(self.storage.size, pos_x) && upper_y
                    == crate::storage::clamped_upper(self.storage.size, pos_y),
            decreases n - k,
        {
            proof {
                assert(pairs.skip(k as int).drop_first() =~= pairs.skip(k + 1));
                assert(pairs.skip(k as int)[0] == pairs[k as int]);
                assert(pairs[k as int] == (report.proofs@[k as int].0, report.proofs@[k as int].1@));
            }
            let a = report.proofs[k].0;
            let sp = &report.proofs[k].1;
            let mut counted = false;
            if !seen.contains(a) {
                match self.server_keys.client_sign_key(a) {
                    Some(key) => {
                        proof {
                            lemma_key_len(self.keys_of(), a);
                        }
                        match verify_proof(key, sp) {
                            Some(pr) => {
                                let (px, py) = pr.loc_ass();
                                if pr.epoch() == epoch && pr.idx_req() == req_idx && pr.idx_ass()
                                    == a && lower_x <= px && px <= upper_x && lower_y <= py && py
                                    <= upper_y && (a != req_idx || self.f_line == 0) {
                                    counted = true;
                                }
                            },
                            None => {},
                        }
                    },
                    None => {},
                }
            }
            if counted {
                proof {
                    assert(contributes(
                        self.keys_of(),
                        self.storage.size,
                        self.f_line,
                        req_idx,
                        epoch,
                        pos_x,
                        pos_y,
                        a,
                        sp@,
                        seen_set,
                    ));
                }
                let ghost prev_seen = seen_set;
                counter = counter + 1;
                seen.insert(a);
                proof {
                    seen_set = prev_seen.insert(a);
                    assert(valid_count(
                        self.keys_of(),
                        self.storage.size,
                        self.f_line,
                        req_idx,
                        epoch,
                        pos_x,
                        pos_y,
                        pairs.skip(k as int),
                        prev_seen,
                    ) == 1 + valid_count(
                        self.keys_of(),
                        self.storage.size,
                        self.f_line,
                        req_idx,
                        epoch,
                        pos_x,
                        pos_y,
                        pairs.skip(k + 1),
                        seen_set,
                    ));
                }
                if counter > self.f_line {
                    proof {
                        assert(valid_count(
                            self.keys_of(),
                            self.storage.size,
                            self.f_line,
                            req_idx,
                            epoch,
                            pos_x,
                            pos_y,
                            pairs,
                            Set::empty(),
                        ) >= counter);
                        assert(valid_report(
                            self.keys_of(),
                            self.storage.size,
                            self.f_line,
                            req_idx,
                            report@,
                        ));
                    }
                    return true;
                }
            } else {
                proof {
                    assert(!contributes(
                        self.keys_of(),
                        self.storage.size,
                        self.f_line,
                        req_idx,
                        epoch,
                        pos_x,
                        pos_y,
                        a,
                        sp@,
                        seen_set,
                    ));
                }
            }
            k += 1;
        }
        proof {
            assert(pairs.skip(n as int) =~= Seq::<(usize, Seq<u8>)>::empty());
        }
        counter > self.f_line
    }

    /// The attestations of a report whose signatures verify.
    pub fn correctly_ass_proofs(&self, report: &Report) -> (r: Vec<(usize, usize, Vec<u8>)>)
        requires
            self.server_keys.wf(),
        ensures
            r@.len() == assisted(self.keys_of(), report@.proofs).len(),
            forall|j: int|
                0 <= j < r@.len() ==> {
                    &&& (#[trigger] r@[j]).0 == assisted(self.keys_of(), report@.proofs)[j].0
                    &&& r@[j].1 == assisted(self.keys_of(), report@.proofs)[j].1
                    &&& r@[j].2@ == assisted(self.keys_of(), report@.proofs)[j].2
                },
    {
        let mut out: Vec<(usize, usize, Vec<u8>)> = Vec::new();
        let n = report.proofs.len();
        let ghost pairs = report@.proofs;
        let mut k: usize = 0;
        while k < n
            invariant
                self.server_keys.wf(),
                n == report.proofs@.len(),
                pairs == report@.proofs,
                0 <= k <= n,
                out@.len() == assisted(self.keys_of(), pairs.take(k as int)).len(),
                forall|j: int|
                    0 <= j < out@.len() ==> {
                        &&& (#[trigger] out@[j]).0 == assisted(
                            self.keys_of(),
                            pairs.take(k as int),
                        )[j].0
                        &&& out@[j].1 == assisted(self.keys_of(), pairs.take(k as int))[j].1
                        &&& out@[j].2@ == assisted(self.keys_of(), pairs.take(k as int))[j].2
                    },
            decreases n - k,
        {
            proof {
                assert(pairs.take(k + 1).drop_last() =~= pairs.take(k as int));
                assert(pairs.take(k + 1).last() == pairs[k as int]);
                assert(pairs[k as int] == (report.proofs@[k as int].0, report.proofs@[k as int].1@));
            }
            let a = report.proofs[k].0;
            let sp = &report.proofs[k].1;
            match self.server_keys.client_sign_key(a) {
                Some(key) => {
                    proof {
                        lemma_key_len(self.keys_of(), a);
                    }
                    match verify_proof(key, sp) {
                        Some(pr) => {
                            out.push((a, pr.epoch(), sp.clone()));
                        },
                        None => {},
                    }
                },
                None => {},
            }
            k += 1;
        }
        proof {
            assert(pairs.take(n as int) =~= pairs);
        }
        out
    }

    /// Commits a delivered message: verifies the signed bytes, re-checks the
    /// admission predicate, writes the report, and records the verified
    /// attestations in the proofs index. Everything that commits is valid.
    pub fn deliver(&mut self, message: &Vec<u8>, client_id: usize) -> (r: Result<
        (),
        DeliverError,
    >)
        requires
            old(self).wf(),
        ensures
            final(self).wf(),
            final(self).server_id == old(self).server_id,
            final(self).necessary_res == old(self).necessary_res,
            final(self).f_servers == old(self).f_servers,
            final(self).f_line == old(self).f_line,
            final(self).server_keys == old(self).server_keys,
            final(self).logic == old(self).logic,
            final(self).storage.size == old(self).storage.size,
            final(self).storage.filename == old(self).storage.filename,
            final(self).storage.nonce_rows@ == old(self).storage.nonce_rows@,
            final(self).storage.ha_nonce_rows@ == old(self).storage.ha_nonce_rows@,
            forall|i: usize|
                old(self).storage.blacklisted(i) ==> final(self).storage.blacklisted(i),
            // the result is owed: exactly what the state decides
            r == old(self).deliver_outcome(client_id, message@),
            match r {
                Ok(()) => {
                    &&& old(self).admissible(client_id, message@)
                    &&& old(self).opened_report(client_id, message@) matches Some(rd) && {
                        &&& (match route_of(old(self).storage.routes@, rd.epoch, client_id) {
                            // a fresh commit appends one row holding the
                            // delivered bytes verbatim
                            None => final(self).storage.routes@.len() == old(
                                self,
                            ).storage.routes@.len() + 1 && (forall|j: int|
                                0 <= j < old(self).storage.routes@.len()
                                    ==> final(self).storage.routes@[j] == old(
                                    self,
                                ).storage.routes@[j]) && (route_of(
                                final(self).storage.routes@,
                                rd.epoch,
                                client_id,
                            ) matches Some(row) && row.x == rd.loc_x && row.y == rd.loc_y
                                && row.report@ == message@),
                            // a repeat of the committed location keeps the stored row
                            Some(_) => final(self).storage.routes@ == old(self).storage.routes@,
                        })
                        &&& crate::storage::triples_view(final(self).storage.proof_rows@)
                            == crate::storage::triples_view(old(self).storage.proof_rows@)
                            + assisted(old(self).keys_of(), rd.proofs)
                    }
                    &&& final(self).storage.blacklist@ == old(self).storage.blacklist@
                },
                Err(DeliverError::BadReport) => *final(self) == *old(self),
                Err(DeliverError::NotValid) => *final(self) == *old(self),
                Err(DeliverError::Rejected(e)) => {
                    &&& final(self).storage.routes@ == old(self).storage.routes@
                    &&& final(self).storage.proof_rows@ == old(self).storage.proof_rows@
                    &&& (e == StorageError::Equivocation ==> final(self).storage.blacklisted(
                        client_id,
                    ) && final(self).storage.blacklist@ == old(self).storage.blacklist@.push(
                        client_id,
                    ))
                    &&& (e == StorageError::Blacklisted ==> *final(self) == *old(self))
                },
            },
    {
        let report = match self.get_report_from_signed(message, client_id) {
            Some(rep) => rep,
            None => {
                return Err(DeliverError::BadReport);
            },
        };
        if !self.check_valid_location_report(client_id, &report) {
            return Err(DeliverError::NotValid);
        }
        let ghost routes_before = self.storage.routes@;
        let outcome = self.storage.add_user_location_at_epoch(
            report.epoch,
            (report.loc_x, report.loc_y),
            client_id,
            message.clone(),
        );
        match outcome {
            Ok(()) => {
                proof {
                    if !has_route(routes_before, report@.epoch, client_id) {
                        let row = self.storage.routes@.last();
                        assert(self.storage.routes@ =~= routes_before.push(row));
                        assert(row.epoch == report@.epoch && row.idx == client_id && row.x
                            == report@.loc_x && row.y == report@.loc_y);
                        crate::storage::lemma_route_of_push(routes_before, row);
                        assert(has_route(self.storage.routes@, report@.epoch, client_id));
                    } else {
                        assert(self.storage.routes@ == routes_before);
                    }
                }
                let rows = self.correctly_ass_proofs(&report);
                self.storage.add_proofs(rows);
                Ok(())
            },
            Err(e) => {
                proof {
                    if e == StorageError::Equivocation {
                        assert(self.storage.blacklist@.last() == client_id);
                        assert(self.storage.blacklisted(client_id));
                    }
                }
                Err(DeliverError::Rejected(e))
            },
        }
    }

    /// Confirms a client write: validates the report, short-circuits a pair
    /// already delivered here, and otherwise starts (or joins) the echo
    /// phase, counting this replica's own votes and cascading through the
    /// ready and delivery thresholds where a single replica suffices.
    pub fn confirm_write(&mut self, message: &Vec<u8>, client_id: usize, report: &Report) -> (r:
        ConfirmOutcome)
        requires
            old(self).wf(),
            old(self).opened_report(client_id, message@) == Some(report@),
        ensures
            final(self).wf(),
            final(self).server_id == old(self).server_id,
            final(self).necessary_res == old(self).necessary_res,
            final(self).f_servers == old(self).f_servers,
            final(self).f_line == old(self).f_line,
            final(self).server_keys == old(self).server_keys,
            final(self).storage.size == old(self).storage.size,
            final(self).storage.nonce_rows@ == old(self).storage.nonce_rows@,
            final(self).storage.ha_nonce_rows@ == old(self).storage.ha_nonce_rows@,
            forall|i: usize|
                old(self).storage.blacklisted(i) ==> final(self).storage.blacklisted(i),
            forall|c: usize, e: usize|
                pair_in(old(self).logic.delivered@, c, e) ==> pair_in(
                    final(self).logic.delivered@,
                    c,
                    e,
                ),
            (r == ConfirmOutcome::Invalid) == !valid_report(
                old(self).keys_of(),
                old(self).storage.size,
                old(self).f_line,
                client_id,
                report@,
            ),
            r == ConfirmOutcome::Invalid ==> *final(self) == *old(self),
            // a settled pair is decided by the storage write: an identical
            // location is an idempotent success, a contradiction is rejected
            (r != ConfirmOutcome::Invalid && pair_in(
                old(self).logic.delivered@,
                client_id,
                report.epoch,
            )) ==> {
                &&& final(self).logic == old(self).logic
                &&& (match old(self).deliver_outcome(client_id, message@) {
                    Ok(()) => r == ConfirmOutcome::AlreadyDelivered && (route_of(
                        final(self).storage.routes@,
                        report.epoch,
                        client_id,
                    ) matches Some(row) && row.x == report.loc_x && row.y == report.loc_y && (
                    !has_route(old(self).storage.routes@, report.epoch, client_id) ==> row.report@
                        == message@)),
                    Err(DeliverError::Rejected(e)) => r == ConfirmOutcome::Rejected(e),
                    _ => false,
                })
            },
            r == ConfirmOutcome::AlreadyDelivered ==> pair_in(
                old(self).logic.delivered@,
                client_id,
                report.epoch,
            ),
            (match r {
                ConfirmOutcome::Rejected(e) => {
                    &&& pair_in(old(self).logic.delivered@, client_id, report.epoch)
                    &&& (e == StorageError::Equivocation ==> final(self).storage.blacklisted(
                        client_id,
                    ))
                    &&& final(self).storage.routes@ == old(self).storage.routes@
                    &&& final(self).storage.proof_rows@ == old(self).storage.proof_rows@
                },
                _ => true,
            }),
            // a fresh pair of a valid report always makes progress
            (r != ConfirmOutcome::Invalid && !pair_in(
                old(self).logic.delivered@,
                client_id,
                report.epoch,
            )) ==> (r matches ConfirmOutcome::InProgress(p) && {
                &&& p.send_echo == !pair_in(
                    old(self).logic.sent_echo@,
                    client_id,
                    report.epoch,
                )
                &&& (!p.send_echo ==> *final(self) == *old(self) && !p.send_ready && p.delivered
                    is None)
                &&& (p.send_echo ==> {
                    &&& pair_in(final(self).logic.sent_echo@, client_id, report.epoch)
                    &&& p.send_ready == (count_after_vote(
                        old(self).logic.echos@,
                        client_id,
                        report.epoch,
                        old(self).server_id,
                        message@,
                    ) > old(self).necessary_res && !pair_in(
                        old(self).logic.sent_ready@,
                        client_id,
                        report.epoch,
                    ))
                    &&& (p.send_ready ==> pair_in(
                        final(self).logic.sent_ready@,
                        client_id,
                        report.epoch,
                    ) && ((p.delivered is Some) == (count_after_vote(
                        old(self).logic.readys@,
                        client_id,
                        report.epoch,
                        old(self).server_id,
                        message@,
                    ) > old(self).necessary_res)))
                    &&& (!p.send_ready ==> p.delivered is None)
                })
                &&& (p.delivered matches Some(res) ==> res == old(self).deliver_outcome(
                    client_id,
                    message@,
                ) && pair_in(final(self).logic.delivered@, client_id, report.epoch))
                &&& (p.delivered == Some(Result::<(), DeliverError>::Ok(())) ==> (route_of(
                    final(self).storage.routes@,
                    report.epoch,
                    client_id,
                ) matches Some(row) && row.x == report.loc_x && row.y == report.loc_y && (
                !has_route(old(self).storage.routes@, report.epoch, client_id) ==> row.report@
                    == message@)))
                &&& (p.delivered matches Some(res) && res is Err ==> final(self).storage.routes@
                    == old(self).storage.routes@ && final(self).storage.proof_rows@ == old(
                    self,
                ).storage.proof_rows@)
                &&& (p.delivered is None ==> final(self).storage == old(self).storage)
            }),
    {
        if !self.check_valid_location_report(client_id, report) {
            return ConfirmOutcome::Invalid;
        }
        let epoch = report.epoch;
        if self.logic.has_been_delivered(client_id, epoch) {
            // the pair is settled: repeat of the committed location is an
            // idempotent success, a contradiction blacklists the writer
            let ghost routes_before = self.storage.routes@;
            match self.storage.add_user_location_at_epoch(
                epoch,
                (report.loc_x, report.loc_y),
                client_id,
                message.clone(),
            ) {
                Ok(()) => {
                    proof {
                        if !has_route(routes_before, epoch, client_id) {
                            let row = self.storage.routes@.last();
                            assert(self.storage.routes@ =~= routes_before.push(row));
                            assert(row.epoch == epoch && row.idx == client_id && row.report@
                                == message@);
                            crate::storage::lemma_route_of_push(routes_before, row);
                        }
                    }
                    return ConfirmOutcome::AlreadyDelivered;
                },
                Err(e) => {
                    proof {
                        if e == StorageError::Equivocation {
                            assert(self.storage.blacklist@.last() == client_id);
                            assert(self.storage.blacklisted(client_id));
                        }
                    }
                    return ConfirmOutcome::Rejected(e);
                },
            }
        }
        let mut progress = WriteProgress { send_echo: false, send_ready: false, delivered: None };
        if self.logic.start_echo(client_id, epoch) {
            progress.send_echo = true;
            let my_id = self.server_id;
            let quorum = self.necessary_res;
            let echoes = self.logic.add_server_to_echo_msg(client_id, epoch, my_id, message);
            if echoes > quorum {
                if self.logic.start_ready(client_id, epoch) {
                    progress.send_ready = true;
                    let readies = self.logic.add_server_to_ready_msg(
                        client_id,
                        epoch,
                        my_id,
                        message,
                    );
                    if readies > quorum {
                        if self.logic.start_deliver(client_id, epoch) {
                            progress.delivered = Some(self.deliver(message, client_id));
                        }
                    }
                }
            }
        }
        ConfirmOutcome::InProgress(progress)
    }

    /// Handles one incoming WRITE message from another replica: admits the
    /// payload on first sight, counts the vote, and crosses the ready and
    /// delivery thresholds as spelled out by the double-echo protocol.
    pub fn on_echo_write(&mut self, from_server: usize, write: &Write) -> (r: Result<
        WriteProgress,
        EchoRejection,
    >)
        requires
            old(self).wf(),
        ensures
            final(self).wf(),
            final(self).server_id == old(self).server_id,
            final(self).necessary_res == old(self).necessary_res,
            final(self).f_servers == old(self).f_servers,
            final(self).f_line == old(self).f_line,
            final(self).server_keys == old(self).server_keys,
            final(self).storage.size == old(self).storage.size,
            forall|i: usize|
                old(self).storage.blacklisted(i) ==> final(self).storage.blacklisted(i),
            forall|c: usize, e: usize|
                pair_in(old(self).logic.delivered@, c, e) ==> pair_in(
                    final(self).logic.delivered@,
                    c,
                    e,
                ),
            // the rejections are exactly these, and a rejection changes nothing
            (match old(self).write_rejection(from_server, write@) {
                Some(x) => r == Result::<WriteProgress, EchoRejection>::Err(x) && *final(self)
                    == *old(self),
                None => r is Ok,
            }),
            // an already delivered instance gets a benign acknowledgement on
            // first sight of its message, with nothing changed
            (old(self).write_rejection(from_server, write@) is None && !has_msg(
                if write.echo {
                    old(self).logic.echos@
                } else {
                    old(self).logic.readys@
                },
                write.client_id,
                write.epoch,
                write.report@,
            ) && pair_in(old(self).logic.delivered@, write.client_id, write.epoch)) ==> r
                == Result::<WriteProgress, EchoRejection>::Ok(
                WriteProgress { send_echo: false, send_ready: false, delivered: None },
            ) && *final(self) == *old(self),
            match r {
                Ok(p) => {
                    &&& !p.send_echo
                    &&& (p.send_ready ==> pair_in(
                        final(self).logic.sent_ready@,
                        write.client_id,
                        write.epoch,
                    ) && !pair_in(old(self).logic.sent_ready@, write.client_id, write.epoch))
                    &&& (p.delivered is Some ==> !pair_in(
                        old(self).logic.delivered@,
                        write.client_id,
                        write.epoch,
                    ) && pair_in(final(self).logic.delivered@, write.client_id, write.epoch))
                    &&& (p.delivered matches Some(res) ==> res == old(self).deliver_outcome(
                        write.client_id,
                        write.report@,
                    ))
                    &&& (p.delivered == Some(Result::<(), DeliverError>::Ok(())) ==> {
                        &&& old(self).admissible(write.client_id, write.report@)
                        &&& (old(self).opened_report(write.client_id, write.report@)
                            matches Some(rd) && has_route(
                            final(self).storage.routes@,
                            rd.epoch,
                            write.client_id,
                        ))
                    })
                },
                Err(_) => true,
            },
            // counting an ECHO: the vote lands, and crossing the quorum is
            // exactly what makes this replica send READY
            (old(self).write_rejection(from_server, write@) is None && write.echo && (has_msg(
                old(self).logic.echos@,
                write.client_id,
                write.epoch,
                write.report@,
            ) || !pair_in(old(self).logic.delivered@, write.client_id, write.epoch))) ==> (r
                matches Ok(p) && {
                &&& (!voted(old(self).logic.echos@, write.client_id, write.epoch, from_server)
                    ==> voted(final(self).logic.echos@, write.client_id, write.epoch, from_server)
                    && vote_count(
                    final(self).logic.echos@,
                    write.client_id,
                    write.epoch,
                    write.report@,
                ) == vote_count(
                    old(self).logic.echos@,
                    write.client_id,
                    write.epoch,
                    write.report@,
                ) + 1)
                &&& p.send_ready == (count_after_vote(
                    old(self).logic.echos@,
                    write.client_id,
                    write.epoch,
                    from_server,
                    write.report@,
                ) > old(self).necessary_res && !pair_in(
                    old(self).logic.sent_ready@,
                    write.client_id,
                    write.epoch,
                ))
                &&& (!p.send_ready ==> p.delivered is None && final(self).logic.readys@ == old(
                    self,
                ).logic.readys@)
                &&& (p.send_ready && !voted(
                    old(self).logic.readys@,
                    write.client_id,
                    write.epoch,
                    old(self).server_id,
                ) ==> (p.delivered is Some) == (vote_count(
                    old(self).logic.readys@,
                    write.client_id,
                    write.epoch,
                    write.report@,
                ) + 1 > old(self).necessary_res && !pair_in(
                    old(self).logic.delivered@,
                    write.client_id,
                    write.epoch,
                )))
            }),
            // counting a READY: the vote lands, crossing f amplifies, and a
            // ready quorum compels delivery of an undelivered instance
            (old(self).write_rejection(from_server, write@) is None && !write.echo && (has_msg(
                old(self).logic.readys@,
                write.client_id,
                write.epoch,
                write.report@,
            ) || !pair_in(old(self).logic.delivered@, write.client_id, write.epoch))) ==> (r
                matches Ok(p) && {
                &&& (!voted(old(self).logic.readys@, write.client_id, write.epoch, from_server)
                    ==> voted(
                    final(self).logic.readys@,
                    write.client_id,
                    write.epoch,
                    from_server,
                ) && vote_count(
                    final(self).logic.readys@,
                    write.client_id,
                    write.epoch,
                    write.report@,
                ) >= vote_count(
                    old(self).logic.readys@,
                    write.client_id,
                    write.epoch,
                    write.report@,
                ) + 1)
                &&& p.send_ready == (count_after_vote(
                    old(self).logic.readys@,
                    write.client_id,
                    write.epoch,
                    from_server,
                    write.report@,
                ) > old(self).f_servers && !pair_in(
                    old(self).logic.sent_ready@,
                    write.client_id,
                    write.epoch,
                ))
                &&& (count_after_vote(
                    old(self).logic.readys@,
                    write.client_id,
                    write.epoch,
                    from_server,
                    write.report@,
                ) > old(self).necessary_res && !pair_in(
                    old(self).logic.delivered@,
                    write.client_id,
                    write.epoch,
                ) ==> p.delivered is Some)
                &&& (from_server != old(self).server_id && !voted(
                    old(self).logic.readys@,
                    write.client_id,
                    write.epoch,
                    from_server,
                ) && !voted(
                    old(self).logic.readys@,
                    write.client_id,
                    write.epoch,
                    old(self).server_id,
                ) ==> {
                    &&& (p.delivered is Some) == ((if p.send_ready {
                        vote_count(
                            old(self).logic.readys@,
                            write.client_id,
                            write.epoch,
                            write.report@,
                        ) + 2
                    } else {
                        vote_count(
                            old(self).logic.readys@,
                            write.client_id,
                            write.epoch,
                            write.report@,
                        ) + 1
                    }) > old(self).necessary_res && !pair_in(
                        old(self).logic.delivered@,
                        write.client_id,
                        write.epoch,
                    ))
                    &&& (p.delivered is Some ==> vote_count(
                        final(self).logic.readys@,
                        write.client_id,
                        write.epoch,
                        write.report@,
                    ) > old(self).necessary_res)
                })
            }),
    {
        if !self.is_valid_server_id(from_server) {
            return Err(EchoRejection::InvalidServerId);
        }
        let client_id = write.client_id;
        let epoch = write.epoch;
        let message = &write.report;
        let is_echo = write.is_echo();
        let seen = if is_echo {
            self.logic.has_echo_message(client_id, epoch, message)
        } else {
            self.logic.has_ready_message(client_id, epoch, message)
        };
        if !seen {
            let report = match self.get_report_from_signed(message, client_id) {
                Some(rep) => rep,
                None => {
                    return Err(EchoRejection::BadReport);
                },
            };
            if !self.check_valid_location_report(client_id, &report) || report.epoch != epoch {
                return Err(EchoRejection::NotValid);
            }
            if self.logic.has_been_delivered(client_id, epoch) {
                return Ok(WriteProgress { send_echo: false, send_ready: false, delivered: None });
            }
        }
        let my_id = self.server_id;
        let quorum = self.necessary_res;
        let amplify = self.f_servers;
        let mut progress = WriteProgress { send_echo: false, send_ready: false, delivered: None };
        if is_echo {
            let echoes = self.logic.add_server_to_echo_msg(client_id, epoch, from_server, message);
            if echoes > quorum {
                if self.logic.start_ready(client_id, epoch) {
                    progress.send_ready = true;
                    let own = self.logic.add_server_to_ready_msg(client_id, epoch, my_id, message);
                    if own > quorum {
                        if self.logic.start_deliver(client_id, epoch) {
                            progress.delivered = Some(self.deliver(message, client_id));
                        }
                    }
                }
            }
        } else {
            let mut readies = self.logic.add_server_to_ready_msg(
                client_id,
                epoch,
                from_server,
                message,
            );
            if readies > amplify {
                if self.logic.start_ready(client_id, epoch) {
                    progress.send_ready = true;
                    let own = self.logic.add_server_to_ready_msg(client_id, epoch, my_id, message);
                    if own > readies {
                        readies = own;
                    }
                }
            }
            if readies > quorum {
                if self.logic.start_deliver(client_id, epoch) {
                    progress.delivered = Some(self.deliver(message, client_id));
                }
            }
        }
        Ok(progress)
    }
}

/// Every key a well-formed registry yields has verify-key length.
pub proof fn lemma_key_len(entries: Seq<(usize, Vec<u8>)>, idx: usize)
    requires
        forall|j: int|
            0 <= j < entries.len() ==> (#[trigger] entries[j]).1@.len() == SIGN_PK_LEN as int,
        key_lookup(entries, idx) is Some,
    ensures
        key_lookup(entries, idx).unwrap()@.len() == SIGN_PK_LEN as int,
{
    let j = choose|j: int| 0 <= j < entries.len() && (#[trigger] entries[j]).0 == idx;
    assert(entries[j].1@.len() == SIGN_PK_LEN as int);
}



/// One round of the broadcast fan-out: given the replicas that have
/// acknowledged a WRITE so far, either the quorum is beaten and the retry
/// loop may stop, or here is every peer still owed a send. The loop itself —
/// sending, sleeping, collecting acknowledgements — belongs to the caller.
pub fn fase_step(acks: &USet, self_id: usize, quorum: usize, n_servers: usize) -> (r: Option<
    Vec<usize>,
>)
    requires
        acks.wf(),
    ensures
        (r is None) == (acks.count() > quorum),
        (match r {
            Some(v) => {
                &&& forall|k: int|
                    0 <= k < v@.len() ==> (#[trigger] v@[k]) < n_servers && v@[k] != self_id
                        && !acks.has(v@[k])
                &&& forall|p: usize|
                    p < n_servers && p != self_id && !acks.has(p) ==> v@.contains(p)
            },
            None => true,
        }),
{
    if acks.len() > quorum {
        return None;
    }
    let mut owed: Vec<usize> = Vec::new();
    let mut p: usize = 0;
    while p < n_servers
        invariant
            acks.wf(),
            0 <= p <= n_servers,
            forall|k: int|
                0 <= k < owed@.len() ==> (#[trigger] owed@[k]) < n_servers && owed@[k] != self_id
                    && !acks.has(owed@[k]),
            forall|q: usize| q < p && q != self_id && !acks.has(q) ==> owed@.contains(q),
        decreases n_servers - p,
    {
        if p != self_id && !acks.contains(p) {
            let ghost before = owed@;
            owed.push(p);
            proof {
                crate::collections::lemma_contains_push(before, p);
            }
        }
        proof {
            assert forall|q: usize| q < p + 1 && q != self_id && !acks.has(q) implies owed@.contains(
                q,
            ) by {}
        }
        p += 1;
    }
    Some(owed)
}

/// The sizes of two finite sets split into their union and intersection.
proof fn lemma_inclusion_exclusion<A>(s1: Set<A>, s2: Set<A>)
    requires
        s1.finite(),
        s2.finite(),
    ensures
        s1.union(s2).finite(),
        s1.intersect(s2).finite(),
        s1.union(s2).len() + s1.intersect(s2).len() == s1.len() + s2.len(),
    decreases s1.len(),
{
    vstd::set_lib::lemma_set_union_finite_iff(s1, s2);
    vstd::set_lib::lemma_len_intersect(s1, s2);
    vstd::set_lib::lemma_set_subset_finite(s1, s1.intersect(s2));
    if s1.is_empty() {
        assert(s1.union(s2) =~= s2);
        assert(s1.intersect(s2) =~= Set::<A>::empty());
    } else {
        let a = s1.choose();
        assert(s1.contains(a));
        lemma_inclusion_exclusion(s1.remove(a), s2);
        if s2.contains(a) {
            assert(s1.remove(a).union(s2) =~= s1.union(s2));
            assert(s1.remove(a).intersect(s2) =~= s1.intersect(s2).remove(a));
            assert(s1.intersect(s2).contains(a));
        } else {
            assert(s1.remove(a).union(s2) =~= s1.union(s2).remove(a));
            assert(s1.remove(a).intersect(s2) =~= s1.intersect(s2));
            assert(s1.union(s2).contains(a));
        }
    }
}

/// No equivocation: when two ready quorums of more than `f + n/2` replicas
/// each stand behind messages `m1` and `m2` for one broadcast instance, at
/// most `f` of the `n` replicas are byzantine, and every honest replica
/// stands behind at most one message per instance (the map `readied`), then
/// `m1` and `m2` are the same message. With `n >= 3f + 1` the two quorums
/// overlap in at least `f + 1` replicas, so an honest one stands in both.
pub proof fn lemma_no_equivocation(
    n: int,
    f: int,
    q: int,
    honest: Set<int>,
    s1: Set<int>,
    s2: Set<int>,
    m1: Seq<u8>,
    m2: Seq<u8>,
    readied: Map<int, Seq<u8>>,
)
    requires
        f >= 0,
        n >= 3 * f + 1,
        q == f + n / 2,
        s1.subset_of(vstd::set_lib::set_int_range(0, n)),
        s2.subset_of(vstd::set_lib::set_int_range(0, n)),
        vstd::set_lib::set_int_range(0, n).difference(honest).len() <= f,
        s1.len() > q,
        s2.len() > q,
        forall|r: int|
            s1.contains(r) && honest.contains(r) ==> readied.contains_key(r) && readied[r] == m1,
        forall|r: int|
            s2.contains(r) && honest.contains(r) ==> readied.contains_key(r) && readied[r] == m2,
    ensures
        m1 == m2,
{
    let u = vstd::set_lib::set_int_range(0, n);
    vstd::set_lib::lemma_int_range(0, n);
    vstd::set_lib::lemma_len_subset(s1, u);
    vstd::set_lib::lemma_len_subset(s2, u);
    lemma_inclusion_exclusion(s1, s2);
    let inter = s1.intersect(s2);
    assert(s1.union(s2).subset_of(u));
    vstd::set_lib::lemma_len_subset(s1.union(s2), u);
    assert(inter.len() >= s1.len() + s2.len() - n);
    assert(2 * (n / 2) >= n - 1);
    assert(inter.len() > 2 * f);
    let byz = u.difference(honest);
    vstd::set_lib::lemma_set_subset_finite(u, byz);
    let caught = inter.difference(honest);
    assert(caught.subset_of(byz));
    vstd::set_lib::lemma_len_subset(caught, byz);
    let good = inter.intersect(honest);
    vstd::set_lib::lemma_set_subset_finite(u, inter);
    vstd::set_lib::lemma_set_subset_finite(inter, good);
    vstd::set_lib::lemma_set_subset_finite(inter, caught);
    lemma_inclusion_exclusion(good, caught);
    assert(good.union(caught) =~= inter);
    assert(good.intersect(caught) =~= Set::<int>::empty());
    assert(good.len() + caught.len() == inter.len());
    assert(good.len() > f);
    assert(good.len() > 0);
    let r = good.choose();
    assert(good.contains(r));
    assert(s1.contains(r) && s2.contains(r) && honest.contains(r));
    assert(readied[r] == m1 && readied[r] == m2);
}
} // verus!
