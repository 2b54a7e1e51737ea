//! Merging of neighbouring block runs that are short.

use crate::blockrun::{summary, BLOCK_RUN_MIN_SECS};
use crate::db::{BlockRun, BlockRunView, BlockView};
use crate::totals::{
    lemma_block_txs_concat, lemma_run_counts_concat, run_blocks, run_txs, saturated,
};
use vstd::prelude::*;

verus! {

/// The view of one item of a stream of runs.
pub open spec fn item_view<E>(item: Result<BlockRun, E>) -> Result<BlockRunView, E> {
    match item {
        Ok(run) => Ok(run@),
        Err(e) => Err(e),
    }
}

/// The views of the items of a stream, in order.
pub open spec fn item_views<E>(items: Seq<Result<BlockRun, E>>) -> Seq<Result<BlockRunView, E>> {
    items.map_values(|item: Result<BlockRun, E>| item_view(item))
}

/// Two neighbouring runs together span less than a run should.
pub open spec fn two_short_runs(newer: BlockRunView, older: BlockRunView) -> bool {
    newer.newest_block_timestamp - older.oldest_block_timestamp < BLOCK_RUN_MIN_SECS
}

/// The run that takes the place of two neighbouring ones.
pub open spec fn joined(newer: BlockRunView, older: BlockRunView) -> BlockRunView {
    BlockRunView {
        newest_block_number: newer.newest_block_number,
        newest_block_hash: newer.newest_block_hash,
        newest_block_timestamp: newer.newest_block_timestamp,
        oldest_block_timestamp: older.oldest_block_timestamp,
        prev_block: older.prev_block,
        num_blocks: saturated(newer.num_blocks as nat + older.num_blocks as nat),
        num_txs: saturated(newer.num_txs as nat + older.num_txs as nat),
    }
}

/// What a merger that holds `held` does with an item: what it holds then, and
/// what it gives out.
pub open spec fn offered<E>(held: Option<BlockRunView>, item: Result<BlockRunView, E>) -> (
    Option<BlockRunView>,
    Seq<Result<BlockRunView, E>>,
) {
    match (held, item) {
        (None, Ok(older)) => (Some(older), seq![]),
        (None, Err(e)) => (None, seq![Err(e)]),
        (Some(newer), Ok(older)) => if two_short_runs(newer, older) {
            (Some(joined(newer, older)), seq![])
        } else {
            (Some(older), seq![Ok(newer)])
        },
        (Some(newer), Err(e)) => (None, seq![Ok(newer), Err(e)]),
    }
}

/// All that a merger that holds `held` gives out for a stream, its end included.
pub open spec fn merged<E>(
    held: Option<BlockRunView>,
    items: Seq<Result<BlockRunView, E>>,
) -> Seq<Result<BlockRunView, E>>
    decreases items.len(),
{
    if items.len() == 0 {
        match held {
            Some(run) => seq![Ok(run)],
            None => seq![],
        }
    } else {
        let (next, out) = offered(held, items.first());
        out + merged(next, items.drop_first())
    }
}

/// Merges neighbouring short runs of a stream as they come. Its view is the run
/// that it holds back, to which an older one may still be joined.
pub struct RunMerger {
    newer: Option<BlockRun>,
}

impl View for RunMerger {
    type V = Option<BlockRunView>;

    closed spec fn view(&self) -> Option<BlockRunView> {
        match self.newer {
            Some(run) => Some(run@),
            None => None,
        }
    }
}

impl RunMerger {
    /// A merger that holds nothing.
    pub fn new() -> (merger: Self)
        ensures
            merger@ is None,
    {
        RunMerger { newer: None }
    }

    /// Takes the next item of the stream; returns the items that are ready.
    pub fn offer<E>(&mut self, item: Result<BlockRun, E>) -> (out: Vec<Result<BlockRun, E>>)
        ensures
            (final(self)@, item_views(out@)) == offered(old(self)@, item_view(item)),
    {
        let mut out: Vec<Result<BlockRun, E>> = Vec::new();
        let ghost expected = offered(self@, item_view(item)).1;
        match (self.newer.take(), item) {
            (None, Ok(older)) => {
                self.newer = Some(older);
            },
            (None, Err(e)) => {
                out.push(Err(e));
            },
            (Some(newer), Ok(older)) => {
                let two_block_time: u64 = newer.newest_block_timestamp.saturating_sub(
                    older.oldest_block_timestamp,
                );
                if two_block_time < BLOCK_RUN_MIN_SECS {
                    self.newer = Some(
                        BlockRun {
                            newest_block_number: newer.newest_block_number,
                            newest_block_hash: newer.newest_block_hash,
                            newest_block_timestamp: newer.newest_block_timestamp,
                            oldest_block_timestamp: older.oldest_block_timestamp,
                            prev_block: older.prev_block,
                            num_blocks: newer.num_blocks.saturating_add(older.num_blocks),
                            num_txs: newer.num_txs.saturating_add(older.num_txs),
                        },
                    );
                } else {
                    out.push(Ok(newer));
                    self.newer = Some(older);
                }
            },
            (Some(newer), Err(e)) => {
                out.push(Ok(newer));
                out.push(Err(e));
            },
        }
        assert(item_views(out@) =~= expected);
        out
    }

    /// The run that is left when the stream has ended.
    pub fn finish(self) -> (last: Option<BlockRun>)
        ensures
            match last {
                Some(run) => self@ == Some(run@),
                None => self@ is None,
            },
    {
        self.newer
    }
}

/// The stream with its short runs merged.
pub fn merge_short_runs<E>(items: Vec<Result<BlockRun, E>>) -> (out: Vec<Result<BlockRun, E>>)
    ensures
        item_views(out@) == merged(None, item_views(items@)),
{
    let mut merger = RunMerger::new();
    let mut out: Vec<Result<BlockRun, E>> = Vec::new();
    let ghost all = item_views(items@);
    assert(all.skip(0) =~= all);
    assert(item_views(out@) + merged(None, all) =~= merged(None, all));
    for item in iter: items
        invariant
            all == item_views(iter.seq()),
            item_views(out@) + merged(merger@, all.skip(iter.index())) == merged(None, all),
    {
        let ghost rest = all.skip(iter.index());
        let ghost before = item_views(out@);
        assert(rest.first() == item_view(item));
        assert(rest.drop_first() =~= all.skip(iter.index() + 1));
        let mut ready = merger.offer(item);
        let ghost given = item_views(ready@);
        out.append(&mut ready);
        assert(item_views(out@) =~= before + given);
    }
    let ghost before = item_views(out@);
    if let Some(run) = merger.finish() {
        out.push(Ok(run));
        assert(item_views(out@) =~= before.push(Ok(run@)));
    }
    assert(item_views(out@) =~= merged(None, all));
    out
}

/// The runs of a stream, in order, without its errors.
pub open spec fn runs_of<E>(items: Seq<Result<BlockRunView, E>>) -> Seq<BlockRunView>
    decreases items.len(),
{
    if items.len() == 0 {
        seq![]
    } else {
        match items.first() {
            Ok(run) => seq![run] + runs_of(items.drop_first()),
            Err(_) => runs_of(items.drop_first()),
        }
    }
}

/// The errors of a stream, in order, without its runs.
pub open spec fn errors_of<E>(items: Seq<Result<BlockRunView, E>>) -> Seq<E>
    decreases items.len(),
{
    if items.len() == 0 {
        seq![]
    } else {
        match items.first() {
            Ok(_) => errors_of(items.drop_first()),
            Err(e) => seq![e] + errors_of(items.drop_first()),
        }
    }
}

/// The runs and errors of a stream that follows another are those of both.
proof fn lemma_parts_concat<E>(a: Seq<Result<BlockRunView, E>>, b: Seq<Result<BlockRunView, E>>)
    ensures
        runs_of(a + b) == runs_of(a) + runs_of(b),
        errors_of(a + b) == errors_of(a) + errors_of(b),
    decreases a.len(),
{
    if a.len() == 0 {
        assert(a + b =~= b);
        assert(runs_of(a) + runs_of(b) =~= runs_of(b));
        assert(errors_of(a) + errors_of(b) =~= errors_of(b));
    } else {
        assert((a + b).drop_first() =~= a.drop_first() + b);
        lemma_parts_concat(a.drop_first(), b);
        assert(runs_of(a + b) =~= runs_of(a) + runs_of(b));
        assert(errors_of(a + b) =~= errors_of(a) + errors_of(b));
    }
}

/// The counts and errors of the few items that one step of a merger gives out.
proof fn lemma_small_parts<E>(run: BlockRunView, e: E)
    ensures
        runs_of::<E>(seq![]) == Seq::<BlockRunView>::empty(),
        errors_of::<E>(seq![]) == Seq::<E>::empty(),
        runs_of::<E>(seq![Ok(run)]) == seq![run],
        errors_of::<E>(seq![Ok(run)]) == Seq::<E>::empty(),
        runs_of::<E>(seq![Err(e)]) == Seq::<BlockRunView>::empty(),
        errors_of::<E>(seq![Err(e)]) == seq![e],
        runs_of::<E>(seq![Ok(run), Err(e)]) == seq![run],
        errors_of::<E>(seq![Ok(run), Err(e)]) == seq![e],
        run_txs(seq![]) == 0,
        run_blocks(seq![]) == 0,
        run_txs(seq![run]) == run.num_txs,
        run_blocks(seq![run]) == run.num_blocks,
{
    reveal_with_fuel(runs_of, 3);
    reveal_with_fuel(errors_of, 3);
    reveal_with_fuel(run_txs, 2);
    reveal_with_fuel(run_blocks, 2);
    let pair: Seq<Result<BlockRunView, E>> = seq![Ok(run), Err(e)];
    assert(pair.drop_first() =~= seq![Err(e)]);
    assert(runs_of::<E>(seq![Ok(run)]) =~= seq![run]);
    assert(errors_of::<E>(seq![Err(e)]) =~= seq![e]);
    assert(runs_of(pair) =~= seq![run]);
    assert(errors_of(pair) =~= seq![e]);
    assert(seq![run].drop_last() =~= seq![]);
}

/// What a merger gives out for a stream has the same saturated counts as the
/// stream and the run held before it, and the same errors.
proof fn lemma_merged_counts<E>(
    held: Option<BlockRunView>,
    items: Seq<Result<BlockRunView, E>>,
)
    ensures
        errors_of(merged(held, items)) == errors_of(items),
        ({
            let txs: nat = match held {
                Some(run) => run.num_txs as nat,
                None => 0,
            };
            let blocks: nat = match held {
                Some(run) => run.num_blocks as nat,
                None => 0,
            };
            &&& saturated(run_txs(runs_of(merged(held, items)))) == saturated(
                txs + run_txs(runs_of(items)),
            )
            &&& saturated(run_blocks(runs_of(merged(held, items)))) == saturated(
                blocks + run_blocks(runs_of(items)),
            )
        }),
    decreases items.len(),
{
    if items.len() == 0 {
        if let Some(run) = held {
            let e: E = arbitrary();
            lemma_small_parts::<E>(run, e);
        }
    } else {
        let (next, out) = offered(held, items.first());
        let rest = items.drop_first();
        lemma_merged_counts(next, rest);
        lemma_parts_concat(out, merged(next, rest));
        lemma_parts_concat(seq![items.first()], rest);
        assert(seq![items.first()] + rest =~= items);
        lemma_run_counts_concat(runs_of(out), runs_of(merged(next, rest)));
        lemma_run_counts_concat(runs_of(seq![items.first()]), runs_of(rest));
        let run: BlockRunView = match held {
            Some(run) => run,
            None => arbitrary(),
        };
        let e: E = match items.first() {
            Err(e) => e,
            Ok(_) => arbitrary(),
        };
        lemma_small_parts::<E>(run, e);
        if let Ok(older) = items.first() {
            lemma_small_parts::<E>(older, e);
        }
        assert(errors_of(merged(held, items)) =~= errors_of(items));
    }
}

/// Merging loses no transaction and no block of a stream: the saturated counts
/// are the same before and after. Every error comes out, in the same order.
pub proof fn law_merging_keeps_counts<E>(items: Seq<Result<BlockRunView, E>>)
    ensures
        saturated(run_txs(runs_of(merged(None, items)))) == saturated(run_txs(runs_of(items))),
        saturated(run_blocks(runs_of(merged(None, items)))) == saturated(
            run_blocks(runs_of(items)),
        ),
        errors_of(merged(None, items)) == errors_of(items),
{
    lemma_merged_counts(None, items);
}

/// The oldest blocks of a stream's runs go back in time: that of a run is at least as
/// old as that of the run before it, where no error stands between them.
pub open spec fn ends_go_back<E>(items: Seq<Result<BlockRunView, E>>) -> bool {
    forall|i: int, j: int|
        #![trigger items[i], items[j]]
        0 <= i && j == i + 1 && j < items.len() && items[i] is Ok && items[j] is Ok
            ==> items[j]->Ok_0.oldest_block_timestamp <= items[i]->Ok_0.oldest_block_timestamp
}

/// No two neighbouring runs of a stream are short.
pub open spec fn none_short<E>(items: Seq<Result<BlockRunView, E>>) -> bool {
    forall|i: int, j: int|
        #![trigger items[i], items[j]]
        0 <= i && j == i + 1 && j < items.len() && items[i] is Ok && items[j] is Ok
            ==> !two_short_runs(items[i]->Ok_0, items[j]->Ok_0)
}

/// What a merger gives out, with a run held whose oldest block is followed by older ones.
proof fn lemma_merged_none_short<E>(
    held: Option<BlockRunView>,
    items: Seq<Result<BlockRunView, E>>,
)
    requires
        ends_go_back(items),
        held matches Some(run) ==> (items.len() > 0 && items.first() is Ok
            ==> items.first()->Ok_0.oldest_block_timestamp <= run.oldest_block_timestamp),
    ensures
        none_short(merged(held, items)),
        held matches Some(run) ==> {
            let out = merged(held, items);
            &&& out.len() > 0
            &&& out.first() is Ok
            &&& out.first()->Ok_0.newest_block_timestamp == run.newest_block_timestamp
            &&& out.first()->Ok_0.oldest_block_timestamp <= run.oldest_block_timestamp
        },
        held is None && items.len() > 0 && items.first() is Err ==> merged(held, items).len() > 0
            && merged(held, items).first() is Err,
    decreases items.len(),
{
    if items.len() > 0 {
        let (next, out) = offered(held, items.first());
        let rest = items.drop_first();
        assert forall|i: int, j: int|
            #![trigger rest[i], rest[j]]
            0 <= i && j == i + 1 && j < rest.len() && rest[i] is Ok && rest[j] is Ok implies
            rest[j]->Ok_0.oldest_block_timestamp <= rest[i]->Ok_0.oldest_block_timestamp by {
            assert(rest[i] == items[i + 1]);
            assert(rest[j] == items[j + 1]);
        }
        if rest.len() > 0 {
            assert(rest.first() == items[1]);
        }
        assert(items.first() == items[0]);
        lemma_merged_none_short(next, rest);
        let tail = merged(next, rest);
        let all = merged(held, items);
        assert(all == out + tail);
        assert forall|i: int, j: int|
            #![trigger all[i], all[j]]
            0 <= i && j == i + 1 && j < all.len() && all[i] is Ok && all[j] is Ok implies
            !two_short_runs(all[i]->Ok_0, all[j]->Ok_0) by {
            if i >= out.len() {
                assert(all[i] == tail[i - out.len()]);
                assert(all[j] == tail[j - out.len()]);
            }
        }
    }
}

/// Where the oldest blocks of a stream's runs go back in time, merging leaves no two
/// neighbours that could still be merged.
pub proof fn law_merging_leaves_none_short<E>(items: Seq<Result<BlockRunView, E>>)
    requires
        ends_go_back(items),
    ensures
        none_short(merged(None, items)),
{
    lemma_merged_none_short(None, items);
}

/// A stream with no short neighbours passes through a merger as it is.
proof fn lemma_none_short_unchanged<E>(
    held: Option<BlockRunView>,
    items: Seq<Result<BlockRunView, E>>,
)
    requires
        none_short(
            match held {
                Some(run) => seq![Ok(run)] + items,
                None => items,
            },
        ),
    ensures
        merged(held, items) == match held {
            Some(run) => seq![Ok::<BlockRunView, E>(run)] + items,
            None => items,
        },
    decreases items.len(),
{
    let whole = match held {
        Some(run) => seq![Ok(run)] + items,
        None => items,
    };
    if items.len() > 0 {
        let (next, out) = offered(held, items.first());
        let rest = items.drop_first();
        if let Some(run) = held {
            assert(whole[0] == Ok::<BlockRunView, E>(run));
            assert(whole[1] == items[0]);
        }
        let after = match next {
            Some(run) => seq![Ok(run)] + rest,
            None => rest,
        };
        assert(out + after =~= whole);
        assert forall|i: int, j: int|
            #![trigger after[i], after[j]]
            0 <= i && j == i + 1 && j < after.len() && after[i] is Ok && after[j] is Ok implies
            !two_short_runs(after[i]->Ok_0, after[j]->Ok_0) by {
            assert(after[i] == whole[i + out.len()]);
            assert(after[j] == whole[j + out.len()]);
        }
        lemma_none_short_unchanged(next, rest);
    }
    assert(merged(held, items) =~= whole);
}

/// Merging is done once: a stream in which the oldest blocks of the runs go back in
/// time, once merged, is not changed by merging it again.
pub proof fn law_merging_is_idempotent<E>(items: Seq<Result<BlockRunView, E>>)
    requires
        ends_go_back(items),
    ensures
        merged(None, merged(None, items)) == merged(None, items),
{
    lemma_merged_none_short(None, items);
    lemma_none_short_unchanged(None, merged(None, items));
}

/// All items of the stream are runs.
pub open spec fn all_runs<E>(items: Seq<Result<BlockRunView, E>>) -> bool {
    forall|i: int| 0 <= i < items.len() ==> (#[trigger] items[i]) is Ok
}

/// What a merger gives out for runs alone begins and ends where they do.
proof fn lemma_merged_ends<E>(held: BlockRunView, items: Seq<Result<BlockRunView, E>>)
    requires
        all_runs(items),
    ensures
        ({
            let out = merged(Some(held), items);
            let last = if items.len() > 0 {
                items.last()->Ok_0
            } else {
                held
            };
            &&& out.len() > 0
            &&& all_runs(out)
            &&& out.first()->Ok_0.newest_block_number == held.newest_block_number
            &&& out.first()->Ok_0.newest_block_hash == held.newest_block_hash
            &&& out.first()->Ok_0.newest_block_timestamp == held.newest_block_timestamp
            &&& out.last()->Ok_0.oldest_block_timestamp == last.oldest_block_timestamp
            &&& out.last()->Ok_0.prev_block == last.prev_block
        }),
    decreases items.len(),
{
    if items.len() > 0 {
        let (next, out) = offered(Some(held), items.first());
        let rest = items.drop_first();
        assert(items[0] is Ok);
        lemma_merged_ends(next->Some_0, rest);
        assert(rest.len() > 0 ==> rest.last() == items.last());
    }
}

/// Merging keeps both ends: the merged runs begin at the newest block of the
/// first run and end before the block that the last run ends before.
pub proof fn law_merging_keeps_ends<E>(items: Seq<Result<BlockRunView, E>>)
    requires
        all_runs(items),
        items.len() > 0,
    ensures
        ({
            let out = merged(None, items);
            let (first, last) = (items.first()->Ok_0, items.last()->Ok_0);
            &&& out.len() > 0
            &&& all_runs(out)
            &&& out.first()->Ok_0.newest_block_number == first.newest_block_number
            &&& out.first()->Ok_0.newest_block_hash == first.newest_block_hash
            &&& out.first()->Ok_0.newest_block_timestamp == first.newest_block_timestamp
            &&& out.last()->Ok_0.oldest_block_timestamp == last.oldest_block_timestamp
            &&& out.last()->Ok_0.prev_block == last.prev_block
        }),
{
    assert(items[0] is Ok);
    lemma_merged_ends(items.first()->Ok_0, items.drop_first());
    assert(merged(None, items) =~= merged(Some(items.first()->Ok_0), items.drop_first()));
    assert(items.drop_first().len() > 0 ==> items.drop_first().last() == items.last());
}

/// Joining the runs of two stretches of blocks that follow each other gives the run
/// of both.
pub proof fn law_joined_run_sums_up_both(newer: Seq<BlockView>, older: Seq<BlockView>)
    requires
        newer.len() > 0,
        older.len() > 0,
        newer.len() + older.len() <= u64::MAX,
    ensures
        joined(summary(newer), summary(older)) == summary(newer + older),
{
    lemma_block_txs_concat(newer, older);
    assert((newer + older).first() == newer.first());
    assert((newer + older).last() == older.last());
}

/// A merger by its parts. Two neighbours are joined exactly where the older one's oldest
/// block is less than an hour older than the newer one's newest block; what is held then
/// reaches from the one's newest to the other's oldest block and counts what both do. Else
/// the newer one is given out and the older one held. A run that comes first is held; an
/// error is given out at once, after the run that is held.
pub proof fn law_merger_by_its_parts<E>(newer: BlockRunView, older: BlockRunView, e: E)
    ensures
        offered::<E>(None, Ok(older)) == (
            Some(older),
            Seq::<Result<BlockRunView, E>>::empty(),
        ),
        offered::<E>(None, Err(e)) == (None::<BlockRunView>, seq![Err::<BlockRunView, E>(e)]),
        offered::<E>(Some(newer), Err(e)) == (
            None::<BlockRunView>,
            seq![Ok::<BlockRunView, E>(newer), Err::<BlockRunView, E>(e)],
        ),
        older.oldest_block_timestamp + 3600 <= newer.newest_block_timestamp ==> offered::<E>(
            Some(newer),
            Ok(older),
        ) == (Some(older), seq![Ok::<BlockRunView, E>(newer)]),
        older.oldest_block_timestamp + 3600 > newer.newest_block_timestamp ==> {
            let (held, out) = offered::<E>(Some(newer), Ok(older));
            &&& out.len() == 0
            &&& held matches Some(run) && {
                &&& run.newest_block_number == newer.newest_block_number
                &&& run.newest_block_hash == newer.newest_block_hash
                &&& run.newest_block_timestamp == newer.newest_block_timestamp
                &&& run.oldest_block_timestamp == older.oldest_block_timestamp
                &&& run.prev_block == older.prev_block
                &&& run.num_blocks == newer.num_blocks + older.num_blocks || (run.num_blocks
                    == 0xffff_ffff_ffff_ffff && newer.num_blocks + older.num_blocks
                    > 0xffff_ffff_ffff_ffff)
                &&& run.num_txs == newer.num_txs + older.num_txs || (run.num_txs
                    == 0xffff_ffff_ffff_ffff && newer.num_txs + older.num_txs
                    > 0xffff_ffff_ffff_ffff)
            }
        },
{
    assert(offered::<E>(None, Ok(older)).1 =~= Seq::empty());
}

/// A stream is merged item by item: what comes out for a longer stream is what the first
/// item lets out, followed by what comes out for the rest. At the end of a stream what is
/// held comes out.
pub proof fn law_streams_are_merged_item_by_item<E>(
    held: Option<BlockRunView>,
    item: Result<BlockRunView, E>,
    rest: Seq<Result<BlockRunView, E>>,
    run: BlockRunView,
)
    ensures
        merged::<E>(None, Seq::empty()) == Seq::<Result<BlockRunView, E>>::empty(),
        merged::<E>(Some(run), Seq::empty()) == seq![Ok::<BlockRunView, E>(run)],
        merged(held, seq![item] + rest) == offered(held, item).1 + merged(
            offered(held, item).0,
            rest,
        ),
{
    let items = seq![item] + rest;
    assert(items.first() == item);
    assert(items.drop_first() =~= rest);
    assert(merged::<E>(None, Seq::empty()) =~= Seq::empty());
}

/// The views of a stream's items show its runs and errors as they are, in order.
pub proof fn law_item_views_show_the_items<E>(
    run: BlockRun,
    e: E,
    items: Seq<Result<BlockRun, E>>,
    i: int,
)
    ensures
        item_view::<E>(Ok(run)) == Ok::<BlockRunView, E>(run@),
        item_view::<E>(Err(e)) == Err::<BlockRunView, E>(e),
        item_views(items).len() == items.len(),
        0 <= i < items.len() ==> item_views(items)[i] == item_view(items[i]),
{
}

} // verus!
