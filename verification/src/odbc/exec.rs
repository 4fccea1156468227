//! The executor: what to ask of the driver next, and which units to emit, for
//! each answer that the driver gives.
//!
//! The executor keeps no rows. Between two answers it holds the column names
//! and the request that is pending, so one batch is all that is ever in
//! memory, whatever the size of the result set.

use vstd::prelude::*;
use crate::ffi::ExecOutcome;
use crate::odbc::batch::{TextBatch, BATCH_SIZE};
use crate::odbc::util::{
    batch_units,
    collected,
    column_names_to_header,
    header_unit,
    meta_unit,
    names_view,
    row_unit,
    stream_header,
    stream_meta,
    stream_rows,
    units_view,
    Mode,
};

verus! {

/// What the executor asks of the driver.
#[derive(Clone, Copy, Debug, PartialEq, Eq, Structural)]
pub enum Request {
    /// Prepare the statement and execute it without parameters.
    Run,
    /// Read the names of the result set's columns.
    DescribeColumns,
    /// Bind a text buffer of `BATCH_SIZE` rows and `BUFFER_SIZE` bytes a field.
    BindBuffer,
    /// Fetch the next batch.
    Fetch,
    /// Read the number of rows that the statement affected.
    CountRows,
    /// Nothing more: the statement has ended in this way.
    Stop(ExecOutcome),
}

/// What the driver answered to the pending request.
#[derive(Debug)]
pub enum DriverReply {
    /// The driver reported an error.
    Failed,
    /// The statement ran and yields a result set.
    Cursor,
    /// The statement ran and yields no result set.
    NoCursor,
    /// The column names in result-set order; `None` for a name that could
    /// not be read.
    Columns(Vec<Option<String>>),
    /// The buffer is bound.
    Bound,
    /// The next batch of rows.
    Batch(TextBatch),
    /// The result set has no more rows.
    Exhausted,
    /// The number of affected rows, or `None` when the driver cannot tell.
    RowCount(Option<usize>),
}

/// What a `DriverReply` stands for.
pub enum ReplyModel {
    Failed,
    Cursor,
    NoCursor,
    Columns(Seq<Option<Seq<char>>>),
    Bound,
    Batch(TextBatch),
    Exhausted,
    RowCount(Option<usize>),
}

impl View for DriverReply {
    type V = ReplyModel;

    open spec fn view(&self) -> ReplyModel {
        match self {
            DriverReply::Failed => ReplyModel::Failed,
            DriverReply::Cursor => ReplyModel::Cursor,
            DriverReply::NoCursor => ReplyModel::NoCursor,
            DriverReply::Columns(names) => ReplyModel::Columns(names_view(names@)),
            DriverReply::Bound => ReplyModel::Bound,
            DriverReply::Batch(batch) => ReplyModel::Batch(*batch),
            DriverReply::Exhausted => ReplyModel::Exhausted,
            DriverReply::RowCount(n) => ReplyModel::RowCount(*n),
        }
    }
}

/// The execution of one statement.
#[derive(Debug)]
pub struct Executor {
    mode: Mode,
    pending: Request,
    col_names: Vec<String>,
}

/// What an `Executor` stands for.
pub struct ExecutorModel {
    /// The encoding of the units.
    pub mode: Mode,
    /// The request that the next reply answers.
    pub pending: Request,
    /// The column names, once the header was emitted.
    pub col_names: Seq<Seq<char>>,
}

impl View for Executor {
    type V = ExecutorModel;

    closed spec fn view(&self) -> ExecutorModel {
        ExecutorModel {
            mode: self.mode,
            pending: self.pending,
            col_names: self.col_names.deep_view(),
        }
    }
}

/// The executor after a reply, and the units to emit for it.
pub struct StepModel {
    pub next: ExecutorModel,
    pub units: Seq<Seq<u8>>,
}

/// The executor before the first request was answered.
pub open spec fn start(mode: Mode) -> ExecutorModel {
    ExecutorModel { mode, pending: Request::Run, col_names: Seq::empty() }
}

/// The executor with another request pending, and nothing to emit.
pub open spec fn ask(state: ExecutorModel, request: Request) -> StepModel {
    StepModel {
        next: ExecutorModel { mode: state.mode, pending: request, col_names: state.col_names },
        units: Seq::empty(),
    }
}

/// One step. A driver error ends the statement as failed. A reply that the
/// pending request cannot have, or a batch with fewer columns than the header
/// named, is a fault. Units emitted before either of them stay emitted.
pub open spec fn step(state: ExecutorModel, reply: ReplyModel) -> StepModel {
    match state.pending {
        Request::Stop(_) => ask(state, state.pending),
        Request::Run => match reply {
            ReplyModel::Cursor => ask(state, Request::DescribeColumns),
            ReplyModel::NoCursor => ask(state, Request::CountRows),
            ReplyModel::Failed => ask(state, Request::Stop(ExecOutcome::Failed)),
            _ => ask(state, Request::Stop(ExecOutcome::Faulted)),
        },
        Request::DescribeColumns => match reply {
            ReplyModel::Columns(names) => match collected(names) {
                Some(col_names) => StepModel {
                    next: ExecutorModel {
                        mode: state.mode,
                        pending: Request::BindBuffer,
                        col_names,
                    },
                    units: seq![header_unit(state.mode, col_names)],
                },
                None => ask(state, Request::Stop(ExecOutcome::Failed)),
            },
            ReplyModel::Failed => ask(state, Request::Stop(ExecOutcome::Failed)),
            _ => ask(state, Request::Stop(ExecOutcome::Faulted)),
        },
        Request::BindBuffer => match reply {
            ReplyModel::Bound => ask(state, Request::Fetch),
            ReplyModel::Failed => ask(state, Request::Stop(ExecOutcome::Failed)),
            _ => ask(state, Request::Stop(ExecOutcome::Faulted)),
        },
        Request::Fetch => match reply {
            ReplyModel::Batch(batch) => if state.col_names.len() <= batch.num_cols_spec() {
                StepModel { next: state, units: batch_units(state.mode, batch, state.col_names) }
            } else {
                ask(state, Request::Stop(ExecOutcome::Faulted))
            },
            ReplyModel::Exhausted => ask(state, Request::Stop(ExecOutcome::Completed)),
            ReplyModel::Failed => ask(state, Request::Stop(ExecOutcome::Failed)),
            _ => ask(state, Request::Stop(ExecOutcome::Faulted)),
        },
        Request::CountRows => match reply {
            ReplyModel::RowCount(affected) => StepModel {
                next: ask(state, Request::Stop(ExecOutcome::Completed)).next,
                units: seq![meta_unit(state.mode, affected)],
            },
            ReplyModel::Failed => StepModel {
                next: ask(state, Request::Stop(ExecOutcome::Completed)).next,
                units: seq![meta_unit(state.mode, None)],
            },
            _ => ask(state, Request::Stop(ExecOutcome::Faulted)),
        },
    }
}

/// A whole conversation: the executor after the replies, and all units in
/// the order in which they were emitted.
pub open spec fn run(state: ExecutorModel, replies: Seq<ReplyModel>) -> StepModel
    decreases replies.len(),
{
    if replies.len() == 0 {
        StepModel { next: state, units: Seq::empty() }
    } else {
        let first = step(state, replies[0]);
        let rest = run(first.next, replies.skip(1));
        StepModel { next: rest.next, units: first.units + rest.units }
    }
}

impl Executor {
    /// An executor for one statement, with `Request::Run` pending.
    pub fn new(mode: Mode) -> (executor: Executor)
        ensures
            executor@ == start(mode),
    {
        let executor = Executor { mode, pending: Request::Run, col_names: Vec::new() };
        assert(executor.col_names.deep_view() =~= Seq::<Seq<char>>::empty());
        executor
    }

    /// The request that the next reply is to answer.
    pub fn request(&self) -> (request: Request)
        ensures
            request == self@.pending,
    {
        self.pending
    }

    /// The encoding of the units.
    pub fn mode(&self) -> (mode: Mode)
        ensures
            mode == self@.mode,
    {
        self.mode
    }

    /// The column names of the result set, once they were read.
    pub fn col_names(&self) -> (col_names: &Vec<String>)
        ensures
            col_names.deep_view() == self@.col_names,
    {
        &self.col_names
    }
}

/// Advances the execution of a statement by one reply of the driver and
/// returns the units to emit for it, in order.
pub fn execute(executor: &mut Executor, reply: DriverReply) -> (units: Vec<Vec<u8>>)
    ensures
        final(executor)@ == step(old(executor)@, reply@).next,
        units_view(units@) == step(old(executor)@, reply@).units,
        units@.len() == step(old(executor)@, reply@).units.len(),
{
    let mut units: Vec<Vec<u8>> = Vec::new();
    assert(units_view(units@) =~= Seq::<Seq<u8>>::empty());
    match executor.pending {
        Request::Stop(_) => {},
        Request::Run => match reply {
            DriverReply::Cursor => {
                executor.pending = Request::DescribeColumns;
            },
            DriverReply::NoCursor => {
                executor.pending = Request::CountRows;
            },
            DriverReply::Failed => {
                executor.pending = Request::Stop(ExecOutcome::Failed);
            },
            _ => {
                executor.pending = Request::Stop(ExecOutcome::Faulted);
            },
        },
        Request::DescribeColumns => match reply {
            DriverReply::Columns(names) => match column_names_to_header(&names) {
                Some(col_names) => {
                    units.push(stream_header(&col_names, executor.mode));
                    assert(units_view(units@) =~= seq![
                        header_unit(executor.mode, col_names.deep_view()),
                    ]);
                    executor.col_names = col_names;
                    executor.pending = Request::BindBuffer;
                },
                None => {
                    executor.pending = Request::Stop(ExecOutcome::Failed);
                },
            },
            DriverReply::Failed => {
                executor.pending = Request::Stop(ExecOutcome::Failed);
            },
            _ => {
                executor.pending = Request::Stop(ExecOutcome::Faulted);
            },
        },
        Request::BindBuffer => match reply {
            DriverReply::Bound => {
                executor.pending = Request::Fetch;
            },
            DriverReply::Failed => {
                executor.pending = Request::Stop(ExecOutcome::Failed);
            },
            _ => {
                executor.pending = Request::Stop(ExecOutcome::Faulted);
            },
        },
        Request::Fetch => match reply {
            DriverReply::Batch(batch) => {
                if executor.col_names.len() <= batch.num_cols() {
                    units = stream_rows(&batch, &executor.col_names, executor.mode);
                } else {
                    executor.pending = Request::Stop(ExecOutcome::Faulted);
                }
            },
            DriverReply::Exhausted => {
                executor.pending = Request::Stop(ExecOutcome::Completed);
            },
            DriverReply::Failed => {
                executor.pending = Request::Stop(ExecOutcome::Failed);
            },
            _ => {
                executor.pending = Request::Stop(ExecOutcome::Faulted);
            },
        },
        Request::CountRows => match reply {
            DriverReply::RowCount(affected) => {
                units.push(stream_meta(affected, executor.mode));
                assert(units_view(units@) =~= seq![meta_unit(executor.mode, affected)]);
                executor.pending = Request::Stop(ExecOutcome::Completed);
            },
            DriverReply::Failed => {
                units.push(stream_meta(None, executor.mode));
                assert(units_view(units@) =~= seq![meta_unit(executor.mode, None)]);
                executor.pending = Request::Stop(ExecOutcome::Completed);
            },
            _ => {
                executor.pending = Request::Stop(ExecOutcome::Faulted);
            },
        },
    }
    assert(units_view(units@).len() == units@.len());
    units
}

/// The column names as the driver gives them when it can read every one.
pub open spec fn all_read(col_names: Seq<Seq<char>>) -> Seq<Option<Seq<char>>> {
    Seq::new(col_names.len(), |i: int| Some(col_names[i]))
}

/// The batches as replies, in fetch order.
pub open spec fn fetched(batches: Seq<TextBatch>) -> Seq<ReplyModel> {
    Seq::new(batches.len(), |i: int| ReplyModel::Batch(batches[i]))
}

/// The row units of the batches: those of the first batch, then those of the
/// second, and so on.
pub open spec fn all_rows(mode: Mode, batches: Seq<TextBatch>, col_names: Seq<Seq<char>>) -> Seq<
    Seq<u8>,
>
    decreases batches.len(),
{
    if batches.len() == 0 {
        Seq::empty()
    } else {
        batch_units(mode, batches[0], col_names) + all_rows(mode, batches.skip(1), col_names)
    }
}

/// Number of rows in the batches before batch `upto`.
pub open spec fn rows_before(batches: Seq<TextBatch>, upto: int) -> nat
    decreases upto,
{
    if upto <= 0 {
        0
    } else {
        rows_before(batches, upto - 1) + batches[upto - 1].num_rows_spec()
    }
}

/// Once stopped, the executor emits nothing and stays stopped, whatever is
/// said to it.
pub proof fn stopped_stays(state: ExecutorModel, replies: Seq<ReplyModel>)
    requires
        state.pending is Stop,
    ensures
        run(state, replies).next == state,
        run(state, replies).units == Seq::<Seq<u8>>::empty(),
    decreases replies.len(),
{
    if replies.len() > 0 {
        stopped_stays(state, replies.skip(1));
        assert(run(state, replies).units =~= Seq::<Seq<u8>>::empty());
    }
}

/// A conversation in two parts: the second part goes on where the first
/// ended, and its units follow those of the first.
pub proof fn run_concat(state: ExecutorModel, first: Seq<ReplyModel>, second: Seq<ReplyModel>)
    ensures
        run(state, first + second).next == run(run(state, first).next, second).next,
        run(state, first + second).units == run(state, first).units + run(
            run(state, first).next,
            second,
        ).units,
    decreases first.len(),
{
    if first.len() == 0 {
        assert(first + second =~= second);
        assert(run(state, first).units + run(state, second).units =~= run(state, second).units);
    } else {
        let all = first + second;
        assert(all[0] == first[0]);
        assert(all.skip(1) =~= first.skip(1) + second);
        let s1 = step(state, first[0]);
        run_concat(s1.next, first.skip(1), second);
        assert(run(state, all).units =~= run(state, first).units + run(
            run(state, first).next,
            second,
        ).units);
    }
}

/// While a result set is fetched, a batch that is wide enough leaves the
/// executor as it was, and the units of the batches are those of their rows,
/// batch after batch.
pub proof fn fetch_emits_rows(state: ExecutorModel, batches: Seq<TextBatch>)
    requires
        state.pending == Request::Fetch,
        forall|i: int|
            0 <= i < batches.len() ==> state.col_names.len() <= (#[trigger] batches[i]).num_cols_spec(),
    ensures
        run(state, fetched(batches)).next == state,
        run(state, fetched(batches)).units == all_rows(state.mode, batches, state.col_names),
    decreases batches.len(),
{
    let replies = fetched(batches);
    if batches.len() > 0 {
        assert(replies[0] == ReplyModel::Batch(batches[0]));
        assert(replies.skip(1) =~= fetched(batches.skip(1)));
        assert forall|i: int| 0 <= i < batches.skip(1).len() implies state.col_names.len() <= (
        #[trigger] batches.skip(1)[i]).num_cols_spec() by {
            assert(batches.skip(1)[i] == batches[i + 1]);
        }
        fetch_emits_rows(state, batches.skip(1));
    }
}

/// One step emits at most as many units as a batch holds rows. Together with
/// `fetch_emits_rows`, by which the executor is after a batch what it was
/// before, this bounds what one statement holds at any time by one batch,
/// however many rows its result set has.
pub proof fn step_is_bounded(state: ExecutorModel, reply: ReplyModel)
    requires
        reply matches ReplyModel::Batch(batch) ==> batch.wf(),
    ensures
        step(state, reply).units.len() <= BATCH_SIZE,
{
    if let ReplyModel::Batch(batch) = reply {
        batch.shape();
    }
}

/// For a statement with a result set, the first unit is the header with the
/// column names in result-set order, whatever follows; nothing is emitted
/// before it.
pub proof fn header_comes_first(mode: Mode, col_names: Seq<Seq<char>>, rest: Seq<ReplyModel>)
    ensures
        step(start(mode), ReplyModel::Cursor).units == Seq::<Seq<u8>>::empty(),
        run(
            start(mode),
            seq![ReplyModel::Cursor, ReplyModel::Columns(all_read(col_names))] + rest,
        ).units.len() >= 1,
        run(
            start(mode),
            seq![ReplyModel::Cursor, ReplyModel::Columns(all_read(col_names))] + rest,
        ).units[0] == header_unit(mode, col_names),
{
    let head = seq![ReplyModel::Cursor, ReplyModel::Columns(all_read(col_names))];
    let replies = head + rest;
    let s1 = step(start(mode), ReplyModel::Cursor);
    assert(collected(all_read(col_names)) == Some(col_names)) by {
        assert(Seq::new(all_read(col_names).len(), |i: int| all_read(col_names)[i]->0)
            =~= col_names);
    }
    assert(replies[0] == ReplyModel::Cursor);
    assert(replies.skip(1)[0] == ReplyModel::Columns(all_read(col_names)));
    let s2 = step(s1.next, replies.skip(1)[0]);
    assert(s2.units == seq![header_unit(mode, col_names)]);
    let tail = run(s2.next, replies.skip(1).skip(1));
    assert(run(s1.next, replies.skip(1)).units == s2.units + tail.units);
    assert(run(start(mode), replies).units == s1.units + (s2.units + tail.units));
}

/// For a statement without result set, exactly one unit is emitted: the
/// metadata unit with the affected-row count. The statement has then
/// completed, and nothing that is said afterwards adds a unit.
pub proof fn statement_without_result_set(mode: Mode, affected: Option<usize>, rest: Seq<ReplyModel>)
    ensures
        run(start(mode), seq![ReplyModel::NoCursor, ReplyModel::RowCount(affected)] + rest).units
            == seq![meta_unit(mode, affected)],
        run(
            start(mode),
            seq![ReplyModel::NoCursor, ReplyModel::RowCount(affected)] + rest,
        ).next.pending == Request::Stop(ExecOutcome::Completed),
{
    let head = seq![ReplyModel::NoCursor, ReplyModel::RowCount(affected)];
    let replies = head + rest;
    let s1 = step(start(mode), ReplyModel::NoCursor);
    assert(replies[0] == ReplyModel::NoCursor);
    assert(replies.skip(1)[0] == ReplyModel::RowCount(affected));
    let s2 = step(s1.next, replies.skip(1)[0]);
    stopped_stays(s2.next, replies.skip(1).skip(1));
    let tail = run(s2.next, replies.skip(1).skip(1));
    assert(run(s1.next, replies.skip(1)).units == s2.units + tail.units);
    assert(run(start(mode), replies).units =~= seq![meta_unit(mode, affected)]);
}

/// A result set that is fetched in any number of batches: the units are the
/// header and then one unit for each row, in the order in which the rows were
/// fetched, and the statement completes.
pub proof fn rows_in_fetch_order(mode: Mode, col_names: Seq<Seq<char>>, batches: Seq<TextBatch>)
    requires
        forall|i: int|
            0 <= i < batches.len() ==> col_names.len() <= (#[trigger] batches[i]).num_cols_spec(),
    ensures
        run(
            start(mode),
            seq![ReplyModel::Cursor, ReplyModel::Columns(all_read(col_names)), ReplyModel::Bound]
                + fetched(batches) + seq![ReplyModel::Exhausted],
        ).units == seq![header_unit(mode, col_names)] + all_rows(mode, batches, col_names),
        run(
            start(mode),
            seq![ReplyModel::Cursor, ReplyModel::Columns(all_read(col_names)), ReplyModel::Bound]
                + fetched(batches) + seq![ReplyModel::Exhausted],
        ).next.pending == Request::Stop(ExecOutcome::Completed),
{
    let head = seq![
        ReplyModel::Cursor,
        ReplyModel::Columns(all_read(col_names)),
        ReplyModel::Bound,
    ];
    let last = seq![ReplyModel::Exhausted];
    assert(collected(all_read(col_names)) == Some(col_names)) by {
        assert(Seq::new(all_read(col_names).len(), |i: int| all_read(col_names)[i]->0)
            =~= col_names);
    }
    let s1 = step(start(mode), head[0]);
    let s2 = step(s1.next, head[1]);
    let s3 = step(s2.next, head[2]);
    assert(head.skip(1)[0] == head[1]);
    assert(head.skip(1).skip(1)[0] == head[2]);
    assert(head.skip(1).skip(1).skip(1).len() == 0);
    let r3 = run(s2.next, head.skip(1).skip(1));
    assert(r3.units == s3.units + run(s3.next, head.skip(1).skip(1).skip(1)).units);
    let r2 = run(s1.next, head.skip(1));
    assert(r2.units == s2.units + r3.units);
    let r1 = run(start(mode), head);
    assert(r1.units == s1.units + r2.units);
    assert(r1.units =~= seq![header_unit(mode, col_names)]);
    assert(r1.next == s3.next);
    let fetching = s3.next;
    fetch_emits_rows(fetching, batches);
    run_concat(start(mode), head, fetched(batches));
    run_concat(start(mode), head + fetched(batches), last);
    let end = run(fetching, last);
    let stop = step(fetching, last[0]);
    assert(last.skip(1).len() == 0);
    assert(run(stop.next, last.skip(1)).next == stop.next);
    assert(end.units =~= stop.units + run(stop.next, last.skip(1)).units);
    assert(end.units =~= Seq::<Seq<u8>>::empty());
    assert(end.next.pending == Request::Stop(ExecOutcome::Completed));
    assert(run(start(mode), head + fetched(batches) + last).units =~= seq![
        header_unit(mode, col_names),
    ] + all_rows(mode, batches, col_names));
}

/// Where each row's unit stands among the row units: row `row` of batch
/// `index` is at the place that counts the rows fetched before it. So no row
/// is left out, none comes twice, and none changes place.
pub proof fn row_position(
    mode: Mode,
    col_names: Seq<Seq<char>>,
    batches: Seq<TextBatch>,
    index: int,
    row: int,
)
    requires
        0 <= index < batches.len(),
        0 <= row < batches[index].num_rows_spec(),
    ensures
        all_rows(mode, batches, col_names).len() == rows_before(batches, batches.len() as int),
        rows_before(batches, index) + row < all_rows(mode, batches, col_names).len(),
        all_rows(mode, batches, col_names)[rows_before(batches, index) + row] == row_unit(
            mode,
            batches[index],
            row,
            col_names,
        ),
    decreases batches.len(),
{
    let rest = batches.skip(1);
    rows_before_skip(batches, batches.len() as int);
    rows_before_skip(batches, index);
    all_rows_len(mode, rest, col_names);
    if index > 0 {
        assert(rest[index - 1] == batches[index]);
        row_position(mode, col_names, rest, index - 1, row);
    } else {
        rows_before_grows(rest, 0, rest.len() as int);
    }
}

proof fn all_rows_len(mode: Mode, batches: Seq<TextBatch>, col_names: Seq<Seq<char>>)
    ensures
        all_rows(mode, batches, col_names).len() == rows_before(batches, batches.len() as int),
    decreases batches.len(),
{
    if batches.len() > 0 {
        all_rows_len(mode, batches.skip(1), col_names);
        rows_before_skip(batches, batches.len() as int);
    } else {
        assert(rows_before(batches, 0) == 0);
    }
}

proof fn rows_before_skip(batches: Seq<TextBatch>, upto: int)
    requires
        0 <= upto <= batches.len(),
        batches.len() > 0,
    ensures
        upto > 0 ==> rows_before(batches, upto) == batches[0].num_rows_spec() + rows_before(
            batches.skip(1),
            upto - 1,
        ),
        upto == 0 ==> rows_before(batches, upto) == 0,
    decreases upto,
{
    if upto > 1 {
        rows_before_skip(batches, upto - 1);
        assert(batches.skip(1)[upto - 2] == batches[upto - 1]);
    } else if upto == 1 {
        assert(rows_before(batches, 0) == 0);
        assert(rows_before(batches.skip(1), 0) == 0);
    }
}

proof fn rows_before_grows(batches: Seq<TextBatch>, from: int, upto: int)
    requires
        0 <= from <= upto,
    ensures
        rows_before(batches, from) <= rows_before(batches, upto),
    decreases upto - from,
{
    if from < upto {
        rows_before_grows(batches, from, upto - 1);
    }
}

} // verus!
