//! A cursor over the rows of a subscription: a snapshot of a table, or the
//! log store, whose rows carry the timestamp at which they were written.
//!
//! A cursor fetches nothing itself. It is handed the chunks of rows that were
//! fetched for it, and every call for the next row ends in one of three ways:
//! with a row, with the timestamp at which the rows go on, or with the
//! timestamp behind which more rows are to be asked for.

use std::collections::VecDeque;
use vstd::prelude::*;

verus! {

/// A cell of a row: its text, or nothing.
pub type Cell = Option<Vec<u8>>;

/// The type id of a text column.
pub const VARCHAR_OID: i32 = 1043;

/// The length of a text column: it varies.
pub const VARCHAR_LEN: i16 = -1;

/// The type id of a column of 16-bit integers.
pub const INT16_OID: i32 = 21;

/// The length of a column of 16-bit integers.
pub const INT16_LEN: i16 = 2;

/// The columns in front of the data of a log-store row that a cursor does
/// not hand out.
pub const LOGSTORE_LEADING_COLUMNS: usize = 3;

/// The descriptors in front of the data of a log-store row that a cursor
/// does not hand out.
pub const LOGSTORE_LEADING_DESCS: usize = 4;

/// The description of a column.
#[derive(Debug, PartialEq, Eq)]
pub struct PgFieldDescriptor {
    pub name: String,
    pub type_oid: i32,
    pub type_len: i16,
}

/// Why a cursor cannot go on.
#[derive(Debug, Clone, Copy, PartialEq, Eq, Structural)]
pub enum CursorError {
    /// The rows at the timestamp at which the cursor was to go on are gone.
    NoData { rw_timestamp: i64 },
    /// No retention time is known for the cursor's subscription.
    NoRetention,
    /// The cursor has lived longer than its subscription retains rows.
    Expired,
    /// No cursor has the name.
    NotFound,
    /// A fetch asked again and was again told to ask again.
    NoRowAfterQuery,
}

/// A row as a cursor is handed it: its cells, and for a row of the log store
/// the timestamp that its first cell names, with the epoch that stands for
/// that timestamp.
#[derive(Debug)]
pub struct CursorRow {
    pub rw_timestamp: i64,
    pub epoch: u64,
    pub cells: Vec<Cell>,
}

/// How asking a cursor for its next row ends.
#[derive(Debug)]
pub enum CursorRowValue {
    /// With a row and the description of its columns.
    Row((Vec<Cell>, Vec<PgFieldDescriptor>)),
    /// The rows go on at this timestamp of this subscription: the cursor is
    /// to be made anew from there.
    QueryWithNextRwTimestamp(i64, String),
    /// The rows of this timestamp of this subscription are spent: more are to
    /// be asked for behind it.
    QueryWithStartRwTimestamp(i64, String),
}

/// What a cursor is told about the rows that were fetched for it.
#[derive(Debug)]
pub enum CursorEvent {
    /// Nothing new.
    Poll,
    /// The next chunk of rows.
    Chunk(Vec<CursorRow>),
    /// There are no more rows.
    End,
}

/// What a cursor answers.
#[derive(Debug)]
pub enum CursorStep {
    /// The cursor has no row left: the next chunk is to be fetched.
    NeedChunk,
    /// The outcome.
    Value(CursorRowValue),
}

/// The decimal digits of a number, as text.
pub open spec fn decimal_digits(value: nat) -> Seq<u8>
    decreases value,
{
    if value < 10 {
        seq![(48 + value) as u8]
    } else {
        decimal_digits(value / 10).push((48 + value % 10) as u8)
    }
}

/// The decimal digits of `value`, as text.
pub fn decimal(value: u64) -> (text: Vec<u8>)
    ensures
        text@ == decimal_digits(value as nat),
{
    let mut reversed: Vec<u8> = Vec::new();
    let mut rest: u64 = value;
    assert(decimal_digits(value as nat) =~= decimal_digits(rest as nat) + reversed@.reverse());
    while rest >= 10
        invariant
            decimal_digits(value as nat) == decimal_digits(rest as nat) + reversed@.reverse(),
        decreases rest,
    {
        let digit: u8 = 48 + (rest % 10) as u8;
        let ghost before = reversed@;
        reversed.push(digit);
        proof {
            assert(reversed@.reverse() =~= seq![digit] + before.reverse());
            assert(decimal_digits(rest as nat) == decimal_digits((rest / 10) as nat).push(digit));
            assert(decimal_digits((rest / 10) as nat).push(digit) + before.reverse()
                =~= decimal_digits((rest / 10) as nat) + reversed@.reverse());
        }
        rest = rest / 10;
    }
    let mut text: Vec<u8> = Vec::new();
    text.push(48 + rest as u8);
    let mut left: usize = reversed.len();
    let ghost turned = reversed@.reverse();
    assert(text@ =~= decimal_digits(rest as nat) + turned.subrange(0, 0));
    while left > 0
        invariant
            left <= reversed@.len(),
            turned == reversed@.reverse(),
            text@ == decimal_digits(rest as nat) + turned.subrange(0, reversed@.len() - left),
        decreases left,
    {
        left = left - 1;
        text.push(reversed[left]);
        proof {
            assert(turned[reversed@.len() - 1 - left] == reversed@[left as int]);
            assert(text@ =~= decimal_digits(rest as nat) + turned.subrange(
                0,
                reversed@.len() - left,
            ));
        }
    }
    proof {
        assert(turned.subrange(0, reversed@.len() as int) =~= turned);
    }
    text
}

/// The row that a cursor over a snapshot hands out: the epoch of the
/// snapshot, the operation 1 (an insert), and the cells of the row.
pub fn build_row_with_snapshot(row: Vec<Cell>, epoch: u64) -> (new_row: Vec<Cell>)
    ensures
        new_row@.len() == row@.len() + 2,
        new_row@[0] matches Some(text) && text@ == decimal_digits(epoch as nat),
        new_row@[1] matches Some(op) && op@ == seq![49u8],
        new_row@.subrange(2, new_row@.len() as int) == row@,
{
    let ghost given = row@;
    let mut rest = row;
    let mut new_row: Vec<Cell> = Vec::new();
    new_row.push(Some(decimal(epoch)));
    let mut op: Vec<u8> = Vec::new();
    op.push(49);
    assert(op@ =~= seq![49u8]);
    new_row.push(Some(op));
    new_row.append(&mut rest);
    assert(new_row@.subrange(2, new_row@.len() as int) =~= given);
    new_row
}

/// The row that a cursor over the log store hands out: the epoch at which
/// the row was written, and the cells of the row without the three in front
/// and the one at the end, which belong to the log store.
pub fn build_row_with_logstore(row: Vec<Cell>, epoch: u64) -> (res: Result<Vec<Cell>, CursorError>)
    requires
        row@.len() > LOGSTORE_LEADING_COLUMNS,
    ensures
        res matches Ok(new_row) && {
            &&& new_row@.len() == row@.len() - LOGSTORE_LEADING_COLUMNS
            &&& new_row@[0] matches Some(text) && text@ == decimal_digits(epoch as nat)
            &&& new_row@.subrange(1, new_row@.len() as int) == row@.subrange(
                LOGSTORE_LEADING_COLUMNS as int,
                row@.len() - 1,
            )
        },
{
    let ghost given = row@;
    let mut rest = row;
    let mut new_row: Vec<Cell> = Vec::new();
    new_row.push(Some(decimal(epoch)));
    let mut data = rest.split_off(LOGSTORE_LEADING_COLUMNS);
    let keep: usize = data.len() - 1;
    data.truncate(keep);
    new_row.append(&mut data);
    assert(new_row@.subrange(1, new_row@.len() as int) =~= given.subrange(
        LOGSTORE_LEADING_COLUMNS as int,
        given.len() - 1,
    ));
    Ok(new_row)
}

/// The description of the rows that a cursor hands out: the timestamp and
/// the operation, and then the columns of a snapshot as they are, or those of
/// the log store without the four in front and the one at the end.
pub fn build_desc(descs: Vec<PgFieldDescriptor>, is_snapshot: bool) -> (new_descs: Vec<
    PgFieldDescriptor,
>)
    requires
        !is_snapshot ==> descs@.len() > LOGSTORE_LEADING_DESCS,
    ensures
        new_descs@.len() >= 2,
        new_descs@[0].name@ == "rw_timestamp"@,
        new_descs@[0].type_oid == VARCHAR_OID,
        new_descs@[0].type_len == VARCHAR_LEN,
        new_descs@[1].name@ == "op"@,
        new_descs@[1].type_oid == INT16_OID,
        new_descs@[1].type_len == INT16_LEN,
        new_descs@.subrange(2, new_descs@.len() as int) == (if is_snapshot {
            descs@
        } else {
            descs@.subrange(LOGSTORE_LEADING_DESCS as int, descs@.len() - 1)
        }),
{
    let ghost given = descs@;
    let mut rest = descs;
    let mut new_descs: Vec<PgFieldDescriptor> = Vec::new();
    new_descs.push(
        PgFieldDescriptor {
            name: "rw_timestamp".to_owned(),
            type_oid: VARCHAR_OID,
            type_len: VARCHAR_LEN,
        },
    );
    new_descs.push(
        PgFieldDescriptor { name: "op".to_owned(), type_oid: INT16_OID, type_len: INT16_LEN },
    );
    if is_snapshot {
        new_descs.append(&mut rest);
        assert(new_descs@.subrange(2, new_descs@.len() as int) =~= given);
    } else {
        let mut data = rest.split_off(LOGSTORE_LEADING_DESCS);
        let keep: usize = data.len() - 1;
        data.truncate(keep);
        new_descs.append(&mut data);
        assert(new_descs@.subrange(2, new_descs@.len() as int) =~= given.subrange(
            LOGSTORE_LEADING_DESCS as int,
            given.len() - 1,
        ));
    }
    new_descs
}

/// A copy of `descs`.
pub fn copy_descs(descs: &[PgFieldDescriptor]) -> (copy: Vec<PgFieldDescriptor>)
    ensures
        copy@ == descs@,
{
    let mut copy: Vec<PgFieldDescriptor> = Vec::new();
    let mut i: usize = 0;
    while i < descs.len()
        invariant
            i <= descs.len(),
            copy@ == descs@.subrange(0, i as int),
        decreases descs.len() - i,
    {
        let desc = &descs[i];
        copy.push(
            PgFieldDescriptor {
                name: desc.name.clone(),
                type_oid: desc.type_oid,
                type_len: desc.type_len,
            },
        );
        i = i + 1;
        assert(copy@ =~= descs@.subrange(0, i as int));
    }
    assert(copy@ =~= descs@);
    copy
}

/// Every row has more cells than the log store puts in front of its data.
pub open spec fn log_rows(rows: Seq<CursorRow>) -> bool {
    forall|i: int| 0 <= i < rows.len() ==> (#[trigger] rows[i]).cells@.len() > LOGSTORE_LEADING_COLUMNS
}

/// A cursor.
#[derive(Debug)]
pub struct Cursor {
    cursor_name: String,
    data_chunk_cache: VecDeque<CursorRow>,
    rw_timestamp: i64,
    epoch: u64,
    is_snapshot: bool,
    subscription_name: String,
    pg_desc: Vec<PgFieldDescriptor>,
}

impl Cursor {
    /// The rows that wait in a cursor over the log store are rows of the
    /// log store.
    pub closed spec fn wf(&self) -> bool {
        !self.is_snapshot ==> log_rows(self.data_chunk_cache@)
    }

    /// The name of the cursor.
    pub closed spec fn name(&self) -> String {
        self.cursor_name
    }

    /// The rows that wait in the cursor.
    pub closed spec fn cache(&self) -> Seq<CursorRow> {
        self.data_chunk_cache@
    }

    /// The timestamp whose rows the cursor hands out.
    pub closed spec fn spec_rw_timestamp(&self) -> i64 {
        self.rw_timestamp
    }

    /// The epoch of a snapshot.
    pub closed spec fn spec_epoch(&self) -> u64 {
        self.epoch
    }

    /// Whether the cursor reads a snapshot.
    pub closed spec fn spec_is_snapshot(&self) -> bool {
        self.is_snapshot
    }

    /// Whether the cursor reads a snapshot.
    #[verifier::when_used_as_spec(spec_is_snapshot)]
    pub fn is_snapshot(&self) -> (snapshot: bool)
        ensures
            snapshot == self.spec_is_snapshot(),
    {
        self.is_snapshot
    }

    /// The subscription that the cursor belongs to.
    pub closed spec fn subscription(&self) -> String {
        self.subscription_name
    }

    /// The description of the rows that the cursor hands out.
    pub closed spec fn descs(&self) -> Seq<PgFieldDescriptor> {
        self.pg_desc@
    }

    /// A cursor from the timestamp `start_timestamp` on. A cursor over a
    /// snapshot starts without rows. A cursor over the log store starts with
    /// `first_chunk`, the first rows that were fetched, and at their
    /// timestamp; where the timestamp is to be checked, the rows must be
    /// there and be of `start_timestamp`, else they are taken to be gone.
    pub fn new(
        cursor_name: String,
        first_chunk: Vec<CursorRow>,
        start_timestamp: i64,
        start_epoch: u64,
        is_snapshot: bool,
        need_check_timestamp: bool,
        subscription_name: String,
        row_desc: Vec<PgFieldDescriptor>,
    ) -> (res: Result<Self, CursorError>)
        requires
            !is_snapshot ==> row_desc@.len() > LOGSTORE_LEADING_DESCS && log_rows(first_chunk@),
        ensures
            res is Err <==> !is_snapshot && need_check_timestamp && (first_chunk@.len() == 0
                || first_chunk@[0].rw_timestamp != start_timestamp),
            res matches Err(e) ==> e == (CursorError::NoData { rw_timestamp: start_timestamp }),
            res matches Ok(cursor) ==> {
                &&& cursor.wf()
                &&& cursor.name() == cursor_name
                &&& cursor.subscription() == subscription_name
                &&& cursor.spec_is_snapshot() == is_snapshot
                &&& cursor.spec_epoch() == start_epoch
                &&& cursor.cache() == (if is_snapshot {
                    Seq::<CursorRow>::empty()
                } else {
                    first_chunk@
                })
                &&& cursor.spec_rw_timestamp() == (if is_snapshot || first_chunk@.len() == 0 {
                    start_timestamp
                } else {
                    first_chunk@[0].rw_timestamp
                })
                &&& cursor.descs().len() >= 2
                &&& cursor.descs().subrange(2, cursor.descs().len() as int) == (if is_snapshot {
                    row_desc@
                } else {
                    row_desc@.subrange(LOGSTORE_LEADING_DESCS as int, row_desc@.len() - 1)
                })
            },
    {
        let mut rw_timestamp = start_timestamp;
        let mut data_chunk_cache: VecDeque<CursorRow> = VecDeque::new();
        if !is_snapshot {
            if first_chunk.len() > 0 {
                rw_timestamp = first_chunk[0].rw_timestamp;
            }
            if need_check_timestamp && (first_chunk.len() == 0 || rw_timestamp
                != start_timestamp) {
                return Err(CursorError::NoData { rw_timestamp: start_timestamp });
            }
            let mut rows = first_chunk;
            let mut taken: usize = 0;
            let count = rows.len();
            let ghost all = rows@;
            while rows.len() > 0
                invariant
                    data_chunk_cache@ + rows@ == all,
                decreases rows.len(),
            {
                let ghost before = data_chunk_cache@;
                let ghost rest = rows@;
                let row = rows.remove(0);
                data_chunk_cache.push_back(row);
                assert(data_chunk_cache@ + rows@ =~= before + rest);
            }
            assert(data_chunk_cache@ =~= all);
        }
        let pg_desc = build_desc(row_desc, is_snapshot);
        Ok(
            Cursor {
                cursor_name,
                data_chunk_cache,
                rw_timestamp,
                epoch: start_epoch,
                is_snapshot,
                subscription_name,
                pg_desc,
            },
        )
    }

    /// The name of the cursor.
    pub fn cursor_name(&self) -> (name: &String)
        ensures
            *name == self.name(),
    {
        &self.cursor_name
    }

    /// The subscription that the cursor belongs to.
    pub fn subscription_name(&self) -> (name: &String)
        ensures
            *name == self.subscription(),
    {
        &self.subscription_name
    }

    /// The timestamp whose rows the cursor hands out.
    pub fn rw_timestamp(&self) -> (timestamp: i64)
        ensures
            timestamp == self.spec_rw_timestamp(),
    {
        self.rw_timestamp
    }

    /// The rows that wait once `event` is taken in: a chunk goes behind the
    /// rows that wait already.
    pub open spec fn waiting(&self, event: CursorEvent) -> Seq<CursorRow> {
        match event {
            CursorEvent::Chunk(rows) => self.cache() + rows@,
            _ => self.cache(),
        }
    }

    /// What asking the cursor `pre` for its next row leaves: the cursor
    /// `post` and the answer `step`. With a row waiting, the first is taken: a
    /// cursor over a snapshot hands it out; a cursor over the log store hands
    /// it out if it is of the cursor's timestamp, and else gives up the row and
    /// answers with the row's timestamp, at which the rows go on. With no row
    /// waiting, the cursor asks for the next chunk, or, where it is told that
    /// there is none, answers with its own timestamp, behind which more rows
    /// are to be asked for.
    pub open spec fn next_outcome(pre: Self, post: Self, event: CursorEvent, step: CursorStep) -> bool {
        &&& post.wf()
        &&& post.name() == pre.name()
        &&& post.subscription() == pre.subscription()
        &&& post.spec_rw_timestamp() == pre.spec_rw_timestamp()
        &&& post.spec_epoch() == pre.spec_epoch()
        &&& post.spec_is_snapshot() == pre.spec_is_snapshot()
        &&& post.descs() == pre.descs()
        &&& pre.waiting(event).len() == 0 ==> post.cache().len() == 0 && (match step {
            CursorStep::NeedChunk => !(event is End),
            CursorStep::Value(CursorRowValue::QueryWithStartRwTimestamp(timestamp, name)) =>
                event is End && timestamp == pre.spec_rw_timestamp() && name
                    == pre.subscription(),
            _ => false,
        })
        &&& pre.waiting(event).len() > 0 ==> {
            let row = pre.waiting(event)[0];
            &&& post.cache() == pre.waiting(event).subrange(1, pre.waiting(event).len() as int)
            &&& match step {
                CursorStep::Value(CursorRowValue::Row((cells, descs))) => {
                    &&& descs@ == pre.descs()
                    &&& cells@.len() > 0
                    &&& if pre.spec_is_snapshot() {
                        &&& cells@[0] matches Some(text) && text@ == decimal_digits(
                            pre.spec_epoch() as nat,
                        )
                        &&& cells@.len() == row.cells@.len() + 2
                        &&& cells@[1] matches Some(op) && op@ == seq![49u8]
                        &&& cells@.subrange(2, cells@.len() as int) == row.cells@
                    } else {
                        &&& row.rw_timestamp == pre.spec_rw_timestamp()
                        &&& cells@[0] matches Some(text) && text@ == decimal_digits(
                            row.epoch as nat,
                        )
                        &&& cells@.subrange(1, cells@.len() as int) == row.cells@.subrange(
                            LOGSTORE_LEADING_COLUMNS as int,
                            row.cells@.len() - 1,
                        )
                    }
                },
                CursorStep::Value(CursorRowValue::QueryWithNextRwTimestamp(timestamp, name)) => {
                    &&& !pre.spec_is_snapshot()
                    &&& row.rw_timestamp != pre.spec_rw_timestamp()
                    &&& timestamp == row.rw_timestamp
                    &&& name == pre.subscription()
                },
                _ => false,
            }
        }
    }

    /// The next row of the cursor, or what is to be done to get one: see
    /// [`Cursor::next_outcome`].
    pub fn next(&mut self, event: CursorEvent) -> (step: CursorStep)
        requires
            old(self).wf(),
            event matches CursorEvent::Chunk(rows) ==> old(self).spec_is_snapshot() || log_rows(
                rows@,
            ),
        ensures
            Self::next_outcome(*old(self), *final(self), event, step),
    {
        let end = match event {
            CursorEvent::Poll => false,
            CursorEvent::End => true,
            CursorEvent::Chunk(rows) => {
                let mut rows = rows;
                let ghost all = self.data_chunk_cache@ + rows@;
                while rows.len() > 0
                    invariant
                        self.data_chunk_cache@ + rows@ == all,
                        self.cursor_name == old(self).cursor_name,
                        self.subscription_name == old(self).subscription_name,
                        self.rw_timestamp == old(self).rw_timestamp,
                        self.epoch == old(self).epoch,
                        self.is_snapshot == old(self).is_snapshot,
                        self.pg_desc == old(self).pg_desc,
                    decreases rows.len(),
                {
                    let ghost before = self.data_chunk_cache@;
                    let ghost rest = rows@;
                    let row = rows.remove(0);
                    self.data_chunk_cache.push_back(row);
                    assert(self.data_chunk_cache@ + rows@ =~= before + rest);
                }
                assert(self.data_chunk_cache@ =~= all);
                false
            },
        };
        let ghost waiting = self.data_chunk_cache@;
        match self.data_chunk_cache.pop_front() {
            None => {
                if end {
                    CursorStep::Value(
                        CursorRowValue::QueryWithStartRwTimestamp(
                            self.rw_timestamp,
                            self.subscription_name.clone(),
                        ),
                    )
                } else {
                    CursorStep::NeedChunk
                }
            },
            Some(row) => {
                proof {
                    assert(row == waiting[0]);
                    assert forall|i: int| 0 <= i < self.data_chunk_cache@.len(
                        ) implies #[trigger] self.data_chunk_cache@[i]
                        == waiting[i + 1] by {}
                }
                if self.is_snapshot {
                    CursorStep::Value(
                        CursorRowValue::Row(
                            (
                                build_row_with_snapshot(row.cells, self.epoch),
                                copy_descs(self.pg_desc.as_slice()),
                            ),
                        ),
                    )
                } else if row.rw_timestamp != self.rw_timestamp {
                    CursorStep::Value(
                        CursorRowValue::QueryWithNextRwTimestamp(
                            row.rw_timestamp,
                            self.subscription_name.clone(),
                        ),
                    )
                } else {
                    match build_row_with_logstore(row.cells, row.epoch) {
                        Ok(cells) => CursorStep::Value(
                            CursorRowValue::Row((cells, copy_descs(self.pg_desc.as_slice()))),
                        ),
                        Err(_) => CursorStep::NeedChunk,
                    }
                }
            },
        }
    }
}

/// What a fetch does with the outcome of asking a cursor.
#[derive(Debug)]
pub enum FetchPlan {
    /// Answer with this row.
    Respond((Vec<Cell>, Vec<PgFieldDescriptor>)),
    /// Query the log store of the subscription from the timestamp on, make
    /// the cursor anew from the rows, and ask it again.
    Requery { rw_timestamp: i64, subscription_name: String, need_check_timestamp: bool },
}

/// What a fetch does with the first outcome of asking its cursor: a row is
/// the answer; where the rows go on at a later timestamp, they are queried
/// from there, and must then be there; where the rows of the cursor's
/// timestamp are spent, the next timestamp is queried.
pub fn plan_fetch(value: CursorRowValue) -> (plan: FetchPlan)
    requires
        value matches CursorRowValue::QueryWithStartRwTimestamp(timestamp, _) ==> timestamp
            < i64::MAX,
    ensures
        match value {
            CursorRowValue::Row(row) => plan matches FetchPlan::Respond(answer) && answer == row,
            CursorRowValue::QueryWithNextRwTimestamp(timestamp, name) => plan
                matches FetchPlan::Requery { rw_timestamp, subscription_name, need_check_timestamp }
                && rw_timestamp == timestamp && subscription_name == name && need_check_timestamp,
            CursorRowValue::QueryWithStartRwTimestamp(timestamp, name) => plan
                matches FetchPlan::Requery { rw_timestamp, subscription_name, need_check_timestamp }
                && rw_timestamp == timestamp + 1 && subscription_name == name
                && !need_check_timestamp,
        },
{
    match value {
        CursorRowValue::Row(row) => FetchPlan::Respond(row),
        CursorRowValue::QueryWithNextRwTimestamp(rw_timestamp, subscription_name) => {
            FetchPlan::Requery { rw_timestamp, subscription_name, need_check_timestamp: true }
        },
        CursorRowValue::QueryWithStartRwTimestamp(rw_timestamp, subscription_name) => {
            FetchPlan::Requery {
                rw_timestamp: rw_timestamp + 1,
                subscription_name,
                need_check_timestamp: false,
            }
        },
    }
}

/// What a fetch answers with the outcome of asking the cursor that was made
/// anew: the row; nothing, where the rows are spent; and it fails where the
/// rows go on at yet another timestamp.
pub fn conclude_fetch(value: CursorRowValue) -> (res: Result<
    Option<(Vec<Cell>, Vec<PgFieldDescriptor>)>,
    CursorError,
>)
    ensures
        match value {
            CursorRowValue::Row(row) => res matches Ok(Some(answer)) && answer == row,
            CursorRowValue::QueryWithStartRwTimestamp(_, _) => res matches Ok(None),
            CursorRowValue::QueryWithNextRwTimestamp(_, _) => res matches Err(e) && e
                == CursorError::NoRowAfterQuery,
        },
{
    match value {
        CursorRowValue::Row(row) => Ok(Some(row)),
        CursorRowValue::QueryWithStartRwTimestamp(_, _) => Ok(None),
        CursorRowValue::QueryWithNextRwTimestamp(_, _) => Err(CursorError::NoRowAfterQuery),
    }
}

/// The first position of `name` among `names`, if it is among them.
pub open spec fn position(names: Seq<Seq<char>>, name: Seq<char>) -> Option<int>
    decreases names.len(),
{
    if names.len() == 0 {
        None
    } else {
        match position(names.drop_last(), name) {
            Some(at) => Some(at),
            None => if names.last() == name {
                Some(names.len() - 1)
            } else {
                None
            },
        }
    }
}

/// No name stands twice among `names`.
pub open spec fn distinct(names: Seq<Seq<char>>) -> bool {
    forall|i: int, j: int| 0 <= i < j < names.len() ==> names[i] != names[j]
}

/// The position of a name is the first place at which it stands.
pub proof fn lemma_position(names: Seq<Seq<char>>, name: Seq<char>)
    ensures
        match position(names, name) {
            Some(at) => 0 <= at < names.len() && names[at] == name && forall|j: int|
                0 <= j < at ==> names[j] != name,
            None => forall|j: int| 0 <= j < names.len() ==> names[j] != name,
        },
    decreases names.len(),
{
    if names.len() > 0 {
        let front = names.drop_last();
        lemma_position(front, name);
        match position(front, name) {
            Some(at) => {
                assert(front[at] == names[at]);
                assert forall|j: int| 0 <= j < at implies names[j] != name by {
                    assert(front[j] == names[j]);
                }
            },
            None => {
                assert forall|j: int| 0 <= j < names.len() - 1 implies names[j] != name by {
                    assert(front[j] == names[j]);
                }
            },
        }
    }
}

/// Among distinct names, a name stands at its position and nowhere else.
pub proof fn lemma_position_distinct(names: Seq<Seq<char>>, at: int)
    requires
        distinct(names),
        0 <= at < names.len(),
    ensures
        position(names, names[at]) == Some(at),
{
    lemma_position(names, names[at]);
}

/// A name that is put behind distinct names among which it does not stand
/// leaves them distinct, stands at the end, and leaves every other name at
/// its position.
pub proof fn lemma_pushed(names: Seq<Seq<char>>, name: Seq<char>)
    requires
        distinct(names),
        position(names, name) is None,
    ensures
        distinct(names.push(name)),
        position(names.push(name), name) == Some(names.len() as int),
        forall|other: Seq<char>|
            other != name ==> position(names.push(name), other) == position(names, other),
{
    lemma_position(names, name);
    let after = names.push(name);
    assert(after.drop_last() =~= names);
    assert forall|i: int, j: int| 0 <= i < j < after.len() implies after[i] != after[j] by {
        if j < names.len() {
            assert(after[i] == names[i] && after[j] == names[j]);
        } else {
            assert(after[i] == names[i]);
        }
    }
}

/// The cursors of a session, each with the time at which it is dropped, and
/// the time for which each subscription retains its rows.
#[derive(Debug)]
pub struct CursorManager {
    cursors: Vec<(Cursor, u64)>,
    retentions: Vec<(String, u64)>,
}

impl CursorManager {
    /// The names of the cursors, in the order in which they are kept.
    pub closed spec fn cursor_names(&self) -> Seq<Seq<char>> {
        Seq::new(self.cursors@.len(), |i: int| self.cursors@[i].0.name()@)
    }

    /// The names of the subscriptions whose retention is known.
    pub closed spec fn subscription_names(&self) -> Seq<Seq<char>> {
        Seq::new(self.retentions@.len(), |i: int| self.retentions@[i].0@)
    }

    /// Every cursor is in order, and no cursor and no subscription is kept
    /// twice.
    pub closed spec fn wf(&self) -> bool {
        &&& distinct(self.cursor_names())
        &&& distinct(self.subscription_names())
        &&& forall|i: int| 0 <= i < self.cursors@.len() ==> (#[trigger] self.cursors@[i]).0.wf()
    }

    /// The cursor of the name `name`, and the time at which it is dropped.
    pub closed spec fn cursor(&self, name: Seq<char>) -> Option<(Cursor, u64)> {
        match position(self.cursor_names(), name) {
            Some(at) => Some(self.cursors@[at]),
            None => None,
        }
    }

    /// The time for which the subscription `name` retains its rows.
    pub closed spec fn retention(&self, name: Seq<char>) -> Option<u64> {
        match position(self.subscription_names(), name) {
            Some(at) => Some(self.retentions@[at].1),
            None => None,
        }
    }

    /// A manager without cursors.
    pub fn new() -> (manager: Self)
        ensures
            manager.wf(),
            forall|name: Seq<char>| manager.cursor(name) is None,
            forall|name: Seq<char>| manager.retention(name) is None,
    {
        CursorManager { cursors: Vec::new(), retentions: Vec::new() }
    }

    /// The place at which the subscription `name` is kept.
    fn find_retention(&self, name: &String) -> (at: Option<usize>)
        ensures
            match at {
                Some(at) => position(self.subscription_names(), name@) == Some(at as int) && at
                    < self.retentions@.len(),
                None => position(self.subscription_names(), name@) is None,
            },
    {
        proof {
            lemma_position(self.subscription_names(), name@);
        }
        let mut i: usize = 0;
        while i < self.retentions.len()
            invariant
                i <= self.retentions@.len(),
                forall|j: int| 0 <= j < i ==> self.subscription_names()[j] != name@,
            decreases self.retentions.len() - i,
        {
            if self.retentions[i].0 == *name {
                proof {
                    assert(self.subscription_names()[i as int] == name@);
                    lemma_position(self.subscription_names(), name@);
                }
                return Some(i);
            }
            i = i + 1;
        }
        proof {
            lemma_position(self.subscription_names(), name@);
        }
        None
    }

    /// The place at which the cursor `name` is kept.
    fn find_cursor(&self, name: &String) -> (at: Option<usize>)
        ensures
            match at {
                Some(at) => position(self.cursor_names(), name@) == Some(at as int) && at
                    < self.cursors@.len(),
                None => position(self.cursor_names(), name@) is None,
            },
    {
        proof {
            lemma_position(self.cursor_names(), name@);
        }
        let mut i: usize = 0;
        while i < self.cursors.len()
            invariant
                i <= self.cursors@.len(),
                forall|j: int| 0 <= j < i ==> self.cursor_names()[j] != name@,
            decreases self.cursors.len() - i,
        {
            if *self.cursors[i].0.cursor_name() == *name {
                proof {
                    assert(self.cursor_names()[i as int] == name@);
                    lemma_position(self.cursor_names(), name@);
                }
                return Some(i);
            }
            i = i + 1;
        }
        proof {
            lemma_position(self.cursor_names(), name@);
        }
        None
    }

    /// Sets the time for which the subscription retains its rows.
    pub fn add_cursor_retention_secs(&mut self, subscription_name: String, retention_secs: u64)
        requires
            old(self).wf(),
        ensures
            final(self).wf(),
            final(self).retention(subscription_name@) == Some(retention_secs),
            forall|name: Seq<char>|
                name != subscription_name@ ==> final(self).retention(name) == old(self).retention(
                    name,
                ),
            forall|name: Seq<char>| final(self).cursor(name) == old(self).cursor(name),
    {
        let ghost before = self.subscription_names();
        let ghost kept = self.retentions@;
        let ghost key = subscription_name@;
        proof {
            lemma_position(before, key);
        }
        match self.find_retention(&subscription_name) {
            Some(at) => {
                self.retentions[at].1 = retention_secs;
                proof {
                    assert(self.subscription_names() =~= before);
                    assert forall|name: Seq<char>| name != key implies final(self).retention(name)
                        == old(self).retention(name) by {
                        lemma_position(before, name);
                        match position(before, name) {
                            Some(was) => {
                                assert(self.retentions@[was] == kept[was]);
                            },
                            None => {},
                        }
                    }
                }
            },
            None => {
                self.retentions.push((subscription_name, retention_secs));
                proof {
                    let after = self.subscription_names();
                    assert(after =~= before.push(key));
                    lemma_pushed(before, key);
                    assert forall|name: Seq<char>| name != key implies final(self).retention(name)
                        == old(self).retention(name) by {
                        lemma_position(before, name);
                        match position(before, name) {
                            Some(was) => {
                                assert(self.retentions@[was] == kept[was]);
                            },
                            None => {},
                        }
                    }
                }
            },
        }
    }

    /// Keeps `cursor` under its name, in place of a cursor of that name, to
    /// be dropped when the retention of its subscription has passed from now
    /// on. A cursor of a subscription whose retention is not known is
    /// refused.
    pub fn add_cursor(&mut self, cursor: Cursor, now: u64) -> (res: Result<(), CursorError>)
        requires
            old(self).wf(),
            cursor.wf(),
        ensures
            final(self).wf(),
            forall|name: Seq<char>| final(self).retention(name) == old(self).retention(name),
            match old(self).retention(cursor.subscription()@) {
                None => res == Err::<(), CursorError>(CursorError::NoRetention) && forall|
                    name: Seq<char>,
                | final(self).cursor(name) == old(self).cursor(name),
                Some(retention) => {
                    &&& res is Ok
                    &&& final(self).cursor(cursor.name()@) == Some(
                        (cursor, now.saturating_add(retention)),
                    )
                    &&& forall|name: Seq<char>|
                        name != cursor.name()@ ==> final(self).cursor(name) == old(self).cursor(
                            name,
                        )
                },
            },
    {
        let retention = match self.find_retention(cursor.subscription_name()) {
            Some(at) => self.retentions[at].1,
            None => {
                return Err(CursorError::NoRetention);
            },
        };
        let drop_time = now.saturating_add(retention);
        let ghost before = self.cursor_names();
        let ghost kept = self.cursors@;
        let ghost name = cursor.name()@;
        proof {
            lemma_position(before, name);
        }
        match self.find_cursor(cursor.cursor_name()) {
            Some(at) => {
                self.cursors[at] = (cursor, drop_time);
                proof {
                    assert(self.cursor_names() =~= before);
                    assert forall|i: int| 0 <= i < self.cursors@.len() implies (
                    #[trigger] self.cursors@[i]).0.wf() by {
                        if i != at {
                            assert(self.cursors@[i] == kept[i]);
                        }
                    }
                    assert forall|other: Seq<char>| other != name implies final(self).cursor(other)
                        == old(self).cursor(other) by {
                        lemma_position(before, other);
                        match position(before, other) {
                            Some(was) => {
                                assert(self.cursors@[was] == kept[was]);
                            },
                            None => {},
                        }
                    }
                }
            },
            None => {
                self.cursors.push((cursor, drop_time));
                proof {
                    let after = self.cursor_names();
                    assert(after =~= before.push(name));
                    lemma_pushed(before, name);
                    assert forall|i: int| 0 <= i < self.cursors@.len() implies (
                    #[trigger] self.cursors@[i]).0.wf() by {
                        if i < kept.len() {
                            assert(self.cursors@[i] == kept[i]);
                        }
                    }
                    assert forall|other: Seq<char>| other != name implies final(self).cursor(other)
                        == old(self).cursor(other) by {
                        lemma_position(before, other);
                        match position(before, other) {
                            Some(was) => {
                                assert(self.cursors@[was] == kept[was]);
                            },
                            None => {},
                        }
                    }
                }
            },
        }
        Ok(())
    }

    /// Keeps `cursor` in place of the cursor of its name, as
    /// [`CursorManager::add_cursor`] does.
    pub fn update_cursor(&mut self, cursor: Cursor, now: u64) -> (res: Result<(), CursorError>)
        requires
            old(self).wf(),
            cursor.wf(),
        ensures
            final(self).wf(),
            forall|name: Seq<char>| final(self).retention(name) == old(self).retention(name),
            match old(self).retention(cursor.subscription()@) {
                None => res == Err::<(), CursorError>(CursorError::NoRetention) && forall|
                    name: Seq<char>,
                | final(self).cursor(name) == old(self).cursor(name),
                Some(retention) => {
                    &&& res is Ok
                    &&& final(self).cursor(cursor.name()@) == Some(
                        (cursor, now.saturating_add(retention)),
                    )
                    &&& forall|name: Seq<char>|
                        name != cursor.name()@ ==> final(self).cursor(name) == old(self).cursor(
                            name,
                        )
                },
            },
    {
        self.add_cursor(cursor, now)
    }

    /// Drops the cursor of the name `cursor_name`, if there is one.
    pub fn remove_cursor(&mut self, cursor_name: String) -> (res: Result<(), CursorError>)
        requires
            old(self).wf(),
        ensures
            final(self).wf(),
            res is Ok,
            final(self).cursor(cursor_name@) is None,
            forall|name: Seq<char>|
                name != cursor_name@ ==> final(self).cursor(name) == old(self).cursor(name),
            forall|name: Seq<char>| final(self).retention(name) == old(self).retention(name),
    {
        let ghost before = self.cursor_names();
        let ghost kept = self.cursors@;
        match self.find_cursor(&cursor_name) {
            Some(at) => {
                self.cursors.remove(at);
                proof {
                    let after = self.cursor_names();
                    assert(after =~= before.remove(at as int));
                    assert(distinct(after));
                    lemma_position(after, cursor_name@);
                    lemma_position(before, cursor_name@);
                    assert forall|name: Seq<char>| name != cursor_name@ implies final(self).cursor(
                        name,
                    ) == old(self).cursor(name) by {
                        lemma_position(before, name);
                        lemma_position(after, name);
                        match position(before, name) {
                            Some(was) => {
                                let now_at = if was < at {
                                    was
                                } else {
                                    was - 1
                                };
                                assert(after[now_at] == name);
                                lemma_position_distinct(after, now_at);
                                assert(self.cursors@[now_at] == kept[was]);
                            },
                            None => {
                                match position(after, name) {
                                    Some(is_at) => {
                                        let was = if is_at < at {
                                            is_at
                                        } else {
                                            is_at + 1
                                        };
                                        assert(before[was] == name);
                                    },
                                    None => {},
                                }
                            },
                        }
                    }
                }
            },
            None => {},
        }
        Ok(())
    }

    /// Asks the cursor of the name `cursor_name` for its next row, as
    /// [`Cursor::next`] does. A cursor whose time has passed is dropped.
    pub fn get_row_with_cursor(&mut self, cursor_name: String, now: u64, event: CursorEvent) -> (res:
        Result<CursorStep, CursorError>)
        requires
            old(self).wf(),
            event matches CursorEvent::Chunk(rows) ==> (old(self).cursor(cursor_name@) matches Some(
                (cursor, _),
            ) ==> cursor.spec_is_snapshot() || log_rows(rows@)),
        ensures
            final(self).wf(),
            forall|name: Seq<char>| final(self).retention(name) == old(self).retention(name),
            forall|name: Seq<char>|
                name != cursor_name@ ==> final(self).cursor(name) == old(self).cursor(name),
            match old(self).cursor(cursor_name@) {
                None => res == Err::<CursorStep, CursorError>(CursorError::NotFound)
                    && final(self).cursor(cursor_name@) is None,
                Some((cursor, drop_time)) => if now > drop_time {
                    res == Err::<CursorStep, CursorError>(CursorError::Expired)
                        && final(self).cursor(cursor_name@) is None
                } else {
                    &&& res matches Ok(step)
                    &&& final(self).cursor(cursor_name@) matches Some((after, time))
                    &&& time == drop_time
                    &&& Cursor::next_outcome(cursor, after, event, step)
                },
            },
    {
        let ghost before = self.cursor_names();
        match self.find_cursor(&cursor_name) {
            None => Err(CursorError::NotFound),
            Some(at) => {
                if now > self.cursors[at].1 {
                    let removed = self.remove_cursor(cursor_name);
                    Err(CursorError::Expired)
                } else {
                    let ghost kept = self.cursors@;
                    let step = self.cursors[at].0.next(event);
                    proof {
                        let after = self.cursor_names();
                        assert(after =~= before) by {
                            assert forall|i: int| 0 <= i < after.len() implies after[i]
                                == before[i] by {
                                if i != at {
                                    assert(self.cursors@[i] == kept[i]);
                                }
                            }
                        }
                        assert forall|i: int| 0 <= i < self.cursors@.len() implies (
                        #[trigger] self.cursors@[i]).0.wf() by {
                            if i != at {
                                assert(self.cursors@[i] == kept[i]);
                            }
                        }
                        assert forall|name: Seq<char>| name != cursor_name@ implies final(
                            self).cursor(name) == old(self).cursor(name) by {
                            lemma_position(before, name);
                            lemma_position(before, cursor_name@);
                            match position(before, name) {
                                Some(was) => {
                                    assert(self.cursors@[was] == kept[was]);
                                },
                                None => {},
                            }
                        }
                    }
                    Ok(step)
                }
            },
        }
    }
}

} // verus!
