//! What the installer does with the books when it starts: it looks for plugins,
//! brings the built-in ones up to date, and restores links.
use crate::order::viewed;
use crate::plugins::built_in::record_outcome;
use crate::plugins::discovery::{link_to_reconcile, reconcile_plugin_bin_path};
use crate::plugins::error::{PluginError, Refusal};
use crate::plugins::records::{binary_path_of, current_binary_path, PluginRecord, RecordView};
use crate::plugins::store::{
    discover_plugins, discovered, discovery_only_adds, discovery_settles, fits,
    fitting_records_keep_order, free_records_fit, has_id, has_path, has_target, id_index,
    in_order, is_taken, lemma_id_index, put, well_named, FoundEntry, FoundView, PluginStore,
};
use crate::text::{holds, views};
use vstd::prelude::*;

verus! {

// ── Built-in plugins ─────────────────────────────────────────────────────────

/// Why a start ends early.
#[derive(Debug)]
pub enum StartFailure {
    /// A built-in plugin is broken.
    Refused(PluginError),
    /// Another plugin has the service, the link path or the update target of a
    /// built-in one.
    Taken(PluginRecord),
}

/// What the end of a start stands for.
pub enum StartEnd {
    Refused(Refusal),
    Taken(RecordView),
}

impl View for StartFailure {
    type V = StartEnd;

    open spec fn view(&self) -> StartEnd {
        match *self {
            StartFailure::Refused(err) => StartEnd::Refused(err@),
            StartFailure::Taken(record) => StartEnd::Taken(record@),
        }
    }
}

/// What was found of built-in plugins: a record, nothing, or why there is none.
pub open spec fn outcomes(core: Seq<Result<Option<PluginRecord>, PluginError>>) -> Seq<
    Result<Option<RecordView>, Refusal>,
> {
    core.map_values(|out: Result<Option<PluginRecord>, PluginError>| record_outcome(out))
}

/// The books after built-in plugins were put in, one after the other, up to the
/// first that cannot be.
pub open spec fn synced(
    records: Seq<RecordView>,
    core: Seq<Result<Option<RecordView>, Refusal>>,
) -> Seq<RecordView>
    decreases core.len(),
{
    if core.len() == 0 {
        records
    } else {
        match core[0] {
            Ok(Some(record)) => if fits(records, record) {
                synced(put(records, record), core.skip(1))
            } else {
                records
            },
            Ok(None) => synced(records, core.skip(1)),
            Err(_) => records,
        }
    }
}

/// Why not all built-in plugins are put in, if they are not.
pub open spec fn sync_end(
    records: Seq<RecordView>,
    core: Seq<Result<Option<RecordView>, Refusal>>,
) -> Option<StartEnd>
    decreases core.len(),
{
    if core.len() == 0 {
        None
    } else {
        match core[0] {
            Ok(Some(record)) => if fits(records, record) {
                sync_end(put(records, record), core.skip(1))
            } else {
                Some(StartEnd::Taken(record))
            },
            Ok(None) => sync_end(records, core.skip(1)),
            Err(refusal) => Some(StartEnd::Refused(refusal)),
        }
    }
}

/// Puts built-in plugins into the books, up to the first that cannot be.
pub fn sync_core_plugins(
    store: &mut PluginStore,
    core: Vec<Result<Option<PluginRecord>, PluginError>>,
) -> (out: Result<(), StartFailure>)
    requires
        old(store).wf(),
    ensures
        final(store).wf(),
        final(store)@ == synced(old(store)@, outcomes(core@)),
        match sync_end(old(store)@, outcomes(core@)) {
            None => out is Ok,
            Some(end) => out matches Err(failure) && failure@ == end,
        },
{
    let ghost start = store@;
    let ghost all = outcomes(core@);
    let ghost mut n: int = 0;
    let mut rest = core;
    assert(all.skip(0) =~= all);
    while rest.len() > 0
        invariant
            0 <= n <= all.len(),
            start == old(store)@,
            all == outcomes(core@),
            outcomes(rest@) == all.skip(n),
            store.wf(),
            synced(store@, all.skip(n)) == synced(start, all),
            sync_end(store@, all.skip(n)) == sync_end(start, all),
        decreases rest@.len(),
    {
        let ghost left = outcomes(rest@);
        let outcome = rest.remove(0);
        proof {
            assert(left[0] == record_outcome(outcome));
            assert(outcomes(rest@) =~= left.skip(1));
            assert(left.skip(1) =~= all.skip(n + 1));
            n = n + 1;
        }
        match outcome {
            Ok(Some(record)) => {
                if !store.has_room(&record) {
                    return Err(StartFailure::Taken(record));
                }
                store.upsert_plugin(record);
            },
            Ok(None) => {},
            Err(err) => {
                return Err(StartFailure::Refused(err));
            },
        }
    }
    assert(all.skip(n).len() == 0);
    Ok(())
}

// ── Links ────────────────────────────────────────────────────────────────────

/// The links that plugins should have, with their targets. `files` are the
/// binaries that are there.
pub open spec fn wanted_links(records: Seq<RecordView>, files: Seq<Seq<char>>) -> Seq<
    (Seq<char>, Seq<char>),
> {
    records.filter_map(wanted_link(files))
}

/// The link that a plugin should have where `files` are the binaries that are
/// there.
pub open spec fn wanted_link(files: Seq<Seq<char>>) -> spec_fn(RecordView) -> Option<
    (Seq<char>, Seq<char>),
> {
    |record: RecordView| link_to_reconcile(record, files.contains(binary_path_of(record)))
}

/// The texts of pairs of strings.
pub open spec fn pair_views(pairs: Seq<(String, String)>) -> Seq<(Seq<char>, Seq<char>)> {
    pairs.map_values(|pair: (String, String)| (pair.0@, pair.1@))
}

/// The links that plugins should have, with their targets. `files` are the
/// binaries that are there.
pub fn reconcile_plugin_bin_paths(store: &PluginStore, files: &Vec<String>) -> (out: Vec<
    (String, String),
>)
    ensures
        pair_views(out@) == wanted_links(store@, views(files@)),
{
    let ghost all = store@;
    let ghost f = wanted_link(views(files@));
    let mut out: Vec<(String, String)> = Vec::new();
    let mut i: usize = 0;
    proof {
        assert(all.take(0) =~= Seq::<RecordView>::empty());
        assert(pair_views(out@) =~= all.take(0).filter_map(f));
    }
    while i < store.records.len()
        invariant
            i <= store.records@.len(),
            all == viewed(store.records@),
            f == wanted_link(views(files@)),
            pair_views(out@) == all.take(i as int).filter_map(f),
        decreases store.records@.len() - i,
    {
        let record = &store.records[i];
        let ghost before = pair_views(out@);
        proof {
            assert(all.take(i + 1).drop_last() =~= all.take(i as int));
            assert(all.take(i + 1).last() == record@);
        }
        let path = current_binary_path(record);
        let has_binary = holds(files, path.as_str());
        if let Some(link) = reconcile_plugin_bin_path(record, has_binary) {
            out.push(link);
            assert(pair_views(out@) =~= before + seq![(link.0@, link.1@)]);
        }
        i += 1;
    }
    assert(all.take(i as int) =~= all);
    out
}

// ── Start ────────────────────────────────────────────────────────────────────

/// The books after a start.
pub open spec fn started(
    records: Seq<RecordView>,
    found: Seq<FoundView>,
    core: Seq<Result<Option<RecordView>, Refusal>>,
) -> Seq<RecordView> {
    synced(discovered(records, found), core)
}

/// Why a start ends early, if it does.
pub open spec fn start_end(
    records: Seq<RecordView>,
    found: Seq<FoundView>,
    core: Seq<Result<Option<RecordView>, Refusal>>,
) -> Option<StartEnd> {
    sync_end(discovered(records, found), core)
}

/// Brings the books up to date when the installer starts, and names the links
/// that are to be made. `found` is what is in the directory of plugins, `core`
/// are the built-in plugins, and `files` the binaries that are there.
pub fn initialize_store(
    store: &mut PluginStore,
    found: &Vec<FoundEntry>,
    core: Vec<Result<Option<PluginRecord>, PluginError>>,
    files: &Vec<String>,
) -> (out: Result<Vec<(String, String)>, StartFailure>)
    requires
        old(store).wf(),
    ensures
        final(store).wf(),
        final(store)@ == started(old(store)@, viewed(found@), outcomes(core@)),
        match start_end(old(store)@, viewed(found@), outcomes(core@)) {
            None => out matches Ok(links) && pair_views(links@) == wanted_links(
                final(store)@,
                views(files@),
            ),
            Some(end) => out matches Err(failure) && failure@ == end,
        },
{
    discover_plugins(store, found);
    match sync_core_plugins(store, core) {
        Ok(()) => Ok(reconcile_plugin_bin_paths(store, files)),
        Err(failure) => Err(failure),
    }
}

// ── Laws ─────────────────────────────────────────────────────────────────────

/// Whether the built-in plugins are in the books as they are.
pub open spec fn core_settled(
    records: Seq<RecordView>,
    core: Seq<Result<Option<RecordView>, Refusal>>,
) -> bool {
    forall|k: int|
        0 <= k < core.len() ==> ((#[trigger] core[k]) matches Ok(Some(record)) ==> records.contains(
            record,
        ))
}

/// Whether no two built-in plugins are the same.
pub open spec fn core_distinct(core: Seq<Result<Option<RecordView>, Refusal>>) -> bool {
    forall|i: int, j: int|
        0 <= i < j < core.len() ==> ((#[trigger] core[i]) matches Ok(Some(a)) ==> ((
        #[trigger] core[j]) matches Ok(Some(b)) ==> a.id != b.id))
}

/// The links on disk after links were made, one after the other.
pub open spec fn linked(
    disk: Map<Seq<char>, Seq<char>>,
    links: Seq<(Seq<char>, Seq<char>)>,
) -> Map<Seq<char>, Seq<char>>
    decreases links.len(),
{
    if links.len() == 0 {
        disk
    } else {
        linked(disk, links.drop_last()).insert(links.last().0, links.last().1)
    }
}

/// Looking for plugins keeps the books in order.
pub proof fn discovery_keeps_order(records: Seq<RecordView>, found: Seq<FoundView>)
    requires
        in_order(records),
    ensures
        in_order(discovered(records, found)),
    decreases found.len(),
{
    if found.len() > 0 {
        discovery_keeps_order(records, found.drop_last());
        let before = discovered(records, found.drop_last());
        if is_taken(before, found.last()) {
            free_records_fit(before, found.last().record->Ok_0);
            fitting_records_keep_order(before, found.last().record->Ok_0);
        }
    }
}

/// A start that finds every built-in plugin in the books as it is can be
/// repeated: a second start leaves the books as the first did, and wants the same
/// links, each plugin the one that it wanted before.
pub proof fn starts_repeat(
    records: Seq<RecordView>,
    found: Seq<FoundView>,
    core: Seq<Result<Option<RecordView>, Refusal>>,
    files: Seq<Seq<char>>,
)
    requires
        in_order(records),
        well_named(found),
        core_settled(records, core),
    ensures
        ({
            let first = started(records, found, core);
            let second = started(first, found, core);
            &&& second == first
            &&& start_end(first, found, core) == start_end(records, found, core)
            &&& wanted_links(second, files) == wanted_links(first, files)
            &&& forall|i: int|
                0 <= i < second.len() ==> wanted_link(files)(#[trigger] second[i]) == wanted_link(
                    files,
                )(first[i])
        }),
{
    lemma_start_adds(records, found, core);
    discovery_settles(records, found);
}

/// After a start that put in all built-in plugins, the starts that follow settle:
/// from the second on, no start changes the books.
pub proof fn starts_settle(
    records: Seq<RecordView>,
    found: Seq<FoundView>,
    core: Seq<Result<Option<RecordView>, Refusal>>,
)
    requires
        in_order(records),
        well_named(found),
        core_distinct(core),
        start_end(records, found, core) is None,
    ensures
        ({
            let first = started(records, found, core);
            let second = started(first, found, core);
            started(second, found, core) == second
        }),
{
    let looked = discovered(records, found);
    discovery_keeps_order(records, found);
    lemma_synced(looked, core);
    starts_repeat(synced(looked, core), found, core, Seq::empty());
}

/// Once the links that plugins should have are made, every plugin with a link
/// path has its link, whatever was on disk before.
pub proof fn starts_restore_links(
    records: Seq<RecordView>,
    files: Seq<Seq<char>>,
    disk: Map<Seq<char>, Seq<char>>,
    i: int,
)
    requires
        in_order(records),
        0 <= i < records.len(),
        has_path(records[i]),
    ensures
        wanted_link(files)(records[i]) matches Some((link, target)) ==> linked(
            disk,
            wanted_links(records, files),
        ).dom().contains(link) && linked(disk, wanted_links(records, files))[link] == target,
    decreases records.len(),
{
    let f = wanted_link(files);
    let last = records.last();
    let shorter = records.drop_last();
    let before = wanted_links(shorter, files);
    let all = wanted_links(records, files);
    assert(all == match f(last) {
        Some(link) => before + seq![link],
        None => before,
    });
    if let Some(link) = f(last) {
        assert(all.drop_last() =~= before);
        assert(all.last() == link);
    }
    if i < records.len() - 1 {
        assert forall|a: int, b: int| 0 <= a < b < shorter.len() implies {
            &&& (#[trigger] shorter[a]).id != (#[trigger] shorter[b]).id
            &&& shorter[a].service != shorter[b].service
            &&& has_path(shorter[a]) ==> shorter[a].bin_path != shorter[b].bin_path
            &&& has_target(shorter[a]) ==> shorter[a].target_name
                != shorter[b].target_name
        } by {
            assert(records[a].id != records[b].id);
        }
        assert(shorter[i] == records[i]);
        starts_restore_links(shorter, files, disk, i);
        assert(records[i].id != records[records.len() - 1].id);
    }
}

/// A link that is removed after a start comes back with the next, with the same
/// target.
pub proof fn removed_links_come_back(
    records: Seq<RecordView>,
    found: Seq<FoundView>,
    core: Seq<Result<Option<RecordView>, Refusal>>,
    files: Seq<Seq<char>>,
    disk: Map<Seq<char>, Seq<char>>,
    i: int,
)
    requires
        in_order(records),
        well_named(found),
        core_settled(records, core),
        0 <= i < started(records, found, core).len(),
        has_path(started(records, found, core)[i]),
    ensures
        ({
            let first = started(records, found, core);
            let second = started(first, found, core);
            let once = linked(disk, wanted_links(first, files));
            wanted_link(files)(first[i]) matches Some((link, target)) ==> {
                let again = linked(once.remove(link), wanted_links(second, files));
                &&& once.dom().contains(link) && once[link] == target
                &&& again.dom().contains(link) && again[link] == target
            }
        }),
{
    let first = started(records, found, core);
    starts_repeat(records, found, core, files);
    discovery_keeps_order(records, found);
    lemma_start_adds(records, found, core);
    starts_restore_links(first, files, disk, i);
    if let Some((link, _)) = wanted_link(files)(first[i]) {
        let once = linked(disk, wanted_links(first, files));
        starts_restore_links(first, files, once.remove(link), i);
    }
}

/// A start that finds every built-in plugin in the books as it is only looks for
/// plugins.
proof fn lemma_start_adds(
    records: Seq<RecordView>,
    found: Seq<FoundView>,
    core: Seq<Result<Option<RecordView>, Refusal>>,
)
    requires
        in_order(records),
        well_named(found),
        core_settled(records, core),
    ensures
        started(records, found, core) == discovered(records, found),
{
    let first = discovered(records, found);
    discovery_only_adds(records, found);
    discovery_keeps_order(records, found);
    assert forall|k: int| 0 <= k < core.len() implies ((#[trigger] core[k]) matches Ok(
        Some(record),
    ) ==> first.contains(record)) by {
        if let Ok(Some(record)) = core[k] {
            assert(records.contains(record));
            let i = choose|i: int| 0 <= i < records.len() && records[i] == record;
            assert(first[i] == record);
        }
    }
    lemma_settled_core(first, core);
}

proof fn lemma_settled_core(
    records: Seq<RecordView>,
    core: Seq<Result<Option<RecordView>, Refusal>>,
)
    requires
        in_order(records),
        core_settled(records, core),
    ensures
        synced(records, core) == records,
    decreases core.len(),
{
    if core.len() > 0 {
        let rest = core.skip(1);
        assert(core_settled(records, rest)) by {
            assert forall|k: int| 0 <= k < rest.len() implies ((#[trigger] rest[k]) matches Ok(
                Some(record),
            ) ==> records.contains(record)) by {
                assert(rest[k] == core[k + 1]);
            }
        }
        lemma_settled_core(records, rest);
        if let Ok(Some(record)) = core[0] {
            assert(records.contains(record));
            let at = choose|i: int| 0 <= i < records.len() && records[i] == record;
            lemma_own_place(records, at);
            assert(put(records, record) =~= records);
        }
    }
}

/// A record of the books fits into them, in the place where it is.
proof fn lemma_own_place(records: Seq<RecordView>, at: int)
    requires
        in_order(records),
        0 <= at < records.len(),
    ensures
        fits(records, records[at]),
        has_id(records, records[at].id),
        id_index(records, records[at].id) == at,
{
    let record = records[at];
    lemma_id_index(records, record.id);
    let n = id_index(records, record.id);
    assert(has_id(records, record.id));
    if n < at {
        assert(records[n].id != records[at].id);
    }
    assert forall|k: int| 0 <= k < records.len() && (#[trigger] records[k]).id
        != record.id implies {
        &&& records[k].service != record.service
        &&& has_path(record) ==> records[k].bin_path != record.bin_path
        &&& has_target(record) ==> records[k].target_name
            != record.target_name
    } by {
        if k < at {
            assert(records[k].id != records[at].id);
        } else {
            assert(records[at].id != records[k].id);
        }
    }
}

/// Once all built-in plugins were put in, they are in the books as they are.
proof fn lemma_synced(
    records: Seq<RecordView>,
    core: Seq<Result<Option<RecordView>, Refusal>>,
)
    requires
        in_order(records),
        core_distinct(core),
        sync_end(records, core) is None,
    ensures
        in_order(synced(records, core)),
        core_settled(synced(records, core), core),
        forall|record: RecordView|
            records.contains(record) && (forall|k: int|
                0 <= k < core.len() ==> ((#[trigger] core[k]) matches Ok(Some(own)) ==> own.id
                    != record.id)) ==> #[trigger] synced(records, core).contains(record),
    decreases core.len(),
{
    if core.len() > 0 {
        let rest = core.skip(1);
        assert forall|k: int| 0 <= k < rest.len() implies #[trigger] rest[k] == core[k + 1] by {}
        assert(core_distinct(rest)) by {
            assert forall|i: int, j: int| 0 <= i < j < rest.len() implies ((
            #[trigger] rest[i]) matches Ok(Some(a)) ==> ((#[trigger] rest[j]) matches Ok(Some(b))
                ==> a.id != b.id)) by {
                assert(rest[i] == core[i + 1] && rest[j] == core[j + 1]);
            }
        }
        let next = match core[0] {
            Ok(Some(record)) => put(records, record),
            _ => records,
        };
        if let Ok(Some(record)) = core[0] {
            fitting_records_keep_order(records, record);
            lemma_id_index(records, record.id);
        }
        lemma_synced(next, rest);
        let end = synced(records, core);
        assert(end == synced(next, rest));
        if let Ok(Some(record)) = core[0] {
            let at = if has_id(records, record.id) {
                id_index(records, record.id)
            } else {
                records.len() as int
            };
            assert(next[at] == record);
            assert(next.contains(record));
            assert forall|k: int| 0 <= k < rest.len() implies ((#[trigger] rest[k]) matches Ok(
                Some(own),
            ) ==> own.id != record.id) by {
                assert(core[0] is Ok);
                assert(rest[k] == core[k + 1]);
            }
            assert(end.contains(record));
        }
        assert forall|k: int| 0 <= k < core.len() implies ((#[trigger] core[k]) matches Ok(
            Some(record),
        ) ==> end.contains(record)) by {
            if k > 0 {
                assert(rest[k - 1] == core[k]);
            }
        }
        assert forall|record: RecordView|
            records.contains(record) && (forall|k: int|
                0 <= k < core.len() ==> ((#[trigger] core[k]) matches Ok(Some(own)) ==> own.id
                    != record.id)) implies #[trigger] end.contains(record) by {
            let i = choose|i: int| 0 <= i < records.len() && records[i] == record;
            assert(core[0] is Ok);
            assert(next[i] == record);
            assert(next.contains(record));
            assert forall|k: int| 0 <= k < rest.len() implies ((#[trigger] rest[k]) matches Ok(
                Some(own),
            ) ==> own.id != record.id) by {
                assert(rest[k] == core[k + 1]);
            }
        }
    }
}

/// A start that ends well has every built-in plugin in the books as it was found,
/// and none of them was broken; plugins that are not built in stay as they are.
pub proof fn good_starts_take_up_the_built_in_plugins(
    records: Seq<RecordView>,
    core: Seq<Result<Option<RecordView>, Refusal>>,
)
    requires
        in_order(records),
        core_distinct(core),
        sync_end(records, core) is None,
    ensures
        forall|k: int|
            0 <= k < core.len() ==> (#[trigger] core[k]) is Ok && (core[k] matches Ok(
                Some(record),
            ) ==> synced(records, core).contains(record)),
        forall|record: RecordView|
            records.contains(record) && (forall|k: int|
                0 <= k < core.len() ==> ((#[trigger] core[k]) matches Ok(Some(own)) ==> own.id
                    != record.id)) ==> #[trigger] synced(records, core).contains(record),
{
    lemma_synced(records, core);
    bad_starts_name_their_reason(records, core);
}

/// A start that ends early does so at a built-in plugin that is broken, and says
/// why, or at one whose place another plugin has, and says which.
pub proof fn bad_starts_name_their_reason(
    records: Seq<RecordView>,
    core: Seq<Result<Option<RecordView>, Refusal>>,
)
    ensures
        sync_end(records, core) matches Some(StartEnd::Refused(refusal)) ==> exists|k: int|
            0 <= k < core.len() && #[trigger] core[k] == Err::<Option<RecordView>, Refusal>(
                refusal,
            ),
        sync_end(records, core) matches Some(StartEnd::Taken(record)) ==> exists|k: int|
            0 <= k < core.len() && #[trigger] core[k] == Ok::<Option<RecordView>, Refusal>(
                Some(record),
            ),
        (exists|k: int| 0 <= k < core.len() && (#[trigger] core[k]) is Err) ==> sync_end(
            records,
            core,
        ) is Some,
    decreases core.len(),
{
    if core.len() > 0 {
        let rest = core.skip(1);
        let next = match core[0] {
            Ok(Some(record)) => put(records, record),
            _ => records,
        };
        bad_starts_name_their_reason(next, rest);
        assert(forall|k: int| 0 <= k < rest.len() ==> #[trigger] rest[k] == core[k + 1]);
        if exists|k: int| 0 <= k < core.len() && (#[trigger] core[k]) is Err {
            let k = choose|k: int| 0 <= k < core.len() && (#[trigger] core[k]) is Err;
            if k > 0 {
                assert(rest[k - 1] is Err);
            }
        }
        assert(core[0] == core[0]);
    }
}

} // verus!
