//! The books that the installer keeps on plugins.
use crate::order::viewed;
use crate::plugins::discovery::{is_plugin_entry, may_be_plugin};
use crate::plugins::error::{bad, failed, PluginError, Refusal};
use crate::plugins::records::{
    ensure_bin_path_available, ensure_service_available, PluginRecord, RecordView,
};
use crate::text::{opt_as_str, opt_view, same};
use vstd::prelude::*;

verus! {

// ── Books ────────────────────────────────────────────────────────────────────

/// The records of plugins.
#[derive(Debug)]
pub struct PluginStore {
    pub records: Vec<PluginRecord>,
}

impl View for PluginStore {
    type V = Seq<RecordView>;

    open spec fn view(&self) -> Seq<RecordView> {
        viewed(self.records@)
    }
}

/// Where the record of a plugin is, or how many records there are.
pub open spec fn id_index(records: Seq<RecordView>, id: Seq<char>) -> int
    decreases records.len(),
{
    if records.len() == 0 || records[0].id == id {
        0
    } else {
        1 + id_index(records.skip(1), id)
    }
}

/// Whether a plugin is in the books.
pub open spec fn has_id(records: Seq<RecordView>, id: Seq<char>) -> bool {
    exists|i: int| 0 <= i < records.len() && (#[trigger] records[i]).id == id
}

/// The plugin that has a service, if there is one.
pub open spec fn service_owner(records: Seq<RecordView>, service: Seq<char>) -> Option<Seq<char>>
    decreases records.len(),
{
    if records.len() == 0 {
        None
    } else if records[0].service == service {
        Some(records[0].id)
    } else {
        service_owner(records.skip(1), service)
    }
}

/// The plugin that has a link path, if there is one.
pub open spec fn bin_path_owner(records: Seq<RecordView>, path: Seq<char>) -> Option<Seq<char>>
    decreases records.len(),
{
    if records.len() == 0 {
        None
    } else if records[0].bin_path == Some(path) {
        Some(records[0].id)
    } else {
        bin_path_owner(records.skip(1), path)
    }
}

/// The plugin that stands for an update target, if there is one.
pub open spec fn target_owner(records: Seq<RecordView>, target: Seq<char>) -> Option<Seq<char>>
    decreases records.len(),
{
    if records.len() == 0 {
        None
    } else if records[0].target_name == Some(target) {
        Some(records[0].id)
    } else {
        target_owner(records.skip(1), target)
    }
}

/// Whether no other plugin has the service of a plugin, its link path or its
/// update target.
pub open spec fn is_free(records: Seq<RecordView>, record: RecordView) -> bool {
    &&& service_owner(records, record.service) matches Some(owner) ==> owner == record.id
    &&& record.bin_path matches Some(path) ==> (bin_path_owner(records, path) matches Some(owner)
        ==> owner == record.id)
    &&& has_target(record) ==> (target_owner(records, record.target_name->Some_0) matches Some(
        owner,
    ) ==> owner == record.id)
}

/// The refusal of a plugin that is not free: for its service, otherwise for its
/// link path, and otherwise for its update target.
pub open spec fn not_free(records: Seq<RecordView>, record: RecordView) -> Refusal {
    match service_owner(records, record.service) {
        Some(owner) if owner != record.id => bad(
            "service "@ + record.service + " is already owned by plugin "@ + owner,
        ),
        _ => match record.bin_path {
            Some(path) if bin_path_owner(records, path) is Some && bin_path_owner(
                records,
                path,
            )->Some_0 != record.id => bad(
                "bin_path "@ + path + " is already owned by plugin "@ + bin_path_owner(
                    records,
                    path,
                )->Some_0,
            ),
            _ => failed("upsert plugin record: UNIQUE constraint failed: plugins.target_name"@),
        },
    }
}

/// Whether a plugin can be put into the books: no other plugin has its service,
/// its link path or its update target.
pub open spec fn fits(records: Seq<RecordView>, record: RecordView) -> bool {
    forall|k: int|
        0 <= k < records.len() && (#[trigger] records[k]).id != record.id ==> {
            &&& records[k].service != record.service
            &&& has_path(record) ==> records[k].bin_path != record.bin_path
            &&& has_target(record) ==> records[k].target_name != record.target_name
        }
}

/// The books with a record put in, in place of the one that the plugin had.
pub open spec fn put(records: Seq<RecordView>, record: RecordView) -> Seq<RecordView> {
    if has_id(records, record.id) {
        records.update(id_index(records, record.id), record)
    } else {
        records.push(record)
    }
}

/// Whether a plugin has a link path.
pub open spec fn has_path(record: RecordView) -> bool {
    record.bin_path matches Some(path) && path.len() > 0
}

/// Whether a plugin stands for an update target.
pub open spec fn has_target(record: RecordView) -> bool {
    record.target_name matches Some(target) && target.len() > 0
}

/// Whether each plugin comes once, and no two have the same service, the same
/// link path or the same update target.
pub open spec fn in_order(records: Seq<RecordView>) -> bool {
    forall|i: int, j: int|
        0 <= i < j < records.len() ==> {
            &&& (#[trigger] records[i]).id != (#[trigger] records[j]).id
            &&& records[i].service != records[j].service
            &&& has_path(records[i]) ==> records[i].bin_path != records[j].bin_path
            &&& has_target(records[i]) ==> records[i].target_name != records[j].target_name
        }
}

pub proof fn lemma_id_index(records: Seq<RecordView>, id: Seq<char>)
    ensures
        0 <= id_index(records, id) <= records.len(),
        forall|k: int| 0 <= k < id_index(records, id) ==> (#[trigger] records[k]).id != id,
        id_index(records, id) < records.len() ==> records[id_index(records, id)].id == id,
        id_index(records, id) < records.len() <==> has_id(records, id),
    decreases records.len(),
{
    if records.len() > 0 && records[0].id != id {
        let rest = records.skip(1);
        lemma_id_index(rest, id);
        let n = id_index(records, id);
        assert forall|k: int| 0 <= k < n implies (#[trigger] records[k]).id != id by {
            if k > 0 {
                assert(rest[k - 1] == records[k]);
            }
        }
        if n < records.len() {
            assert(rest[n - 1] == records[n]);
        }
        if has_id(records, id) {
            let k = choose|k: int| 0 <= k < records.len() && (#[trigger] records[k]).id == id;
            assert(k < n ==> records[k].id != id);
        }
    } else if records.len() > 0 {
        assert(records[0].id == id);
    }
}

/// The owner of a service is a plugin that has it, and there is none where no
/// plugin has it.
proof fn lemma_service_owner(records: Seq<RecordView>, service: Seq<char>)
    ensures
        service_owner(records, service) matches Some(owner) ==> exists|i: int|
            0 <= i < records.len() && (#[trigger] records[i]).service == service && records[i].id
                == owner,
        service_owner(records, service) is None ==> forall|i: int|
            0 <= i < records.len() ==> (#[trigger] records[i]).service != service,
    decreases records.len(),
{
    if records.len() > 0 && records[0].service != service {
        let rest = records.skip(1);
        lemma_service_owner(rest, service);
        match service_owner(records, service) {
            Some(owner) => {
                let i = choose|i: int|
                    0 <= i < rest.len() && (#[trigger] rest[i]).service == service && rest[i].id
                        == owner;
                assert(records[i + 1] == rest[i]);
            },
            None => {
                assert forall|i: int| 0 <= i < records.len() implies (#[trigger] records[i]).service
                    != service by {
                    if i > 0 {
                        assert(rest[i - 1] == records[i]);
                    }
                }
            },
        }
    } else if records.len() > 0 {
        assert(records[0].service == service);
    }
}

/// The owner of a link path is a plugin that has it, and there is none where no
/// plugin has it.
proof fn lemma_bin_path_owner(records: Seq<RecordView>, path: Seq<char>)
    ensures
        bin_path_owner(records, path) matches Some(owner) ==> exists|i: int|
            0 <= i < records.len() && (#[trigger] records[i]).bin_path == Some(path)
                && records[i].id == owner,
        bin_path_owner(records, path) is None ==> forall|i: int|
            0 <= i < records.len() ==> (#[trigger] records[i]).bin_path != Some(path),
    decreases records.len(),
{
    if records.len() > 0 && records[0].bin_path != Some(path) {
        let rest = records.skip(1);
        lemma_bin_path_owner(rest, path);
        match bin_path_owner(records, path) {
            Some(owner) => {
                let i = choose|i: int|
                    0 <= i < rest.len() && (#[trigger] rest[i]).bin_path == Some(path)
                        && rest[i].id == owner;
                assert(records[i + 1] == rest[i]);
            },
            None => {
                assert forall|i: int| 0 <= i < records.len() implies (
                #[trigger] records[i]).bin_path != Some(path) by {
                    if i > 0 {
                        assert(rest[i - 1] == records[i]);
                    }
                }
            },
        }
    } else if records.len() > 0 {
        assert(records[0].bin_path == Some(path));
    }
}

/// The owner of an update target is a plugin that stands for it, and there is
/// none where no plugin does.
proof fn lemma_target_owner(records: Seq<RecordView>, target: Seq<char>)
    ensures
        target_owner(records, target) matches Some(owner) ==> exists|i: int|
            0 <= i < records.len() && (#[trigger] records[i]).target_name == Some(target)
                && records[i].id == owner,
        target_owner(records, target) is None ==> forall|i: int|
            0 <= i < records.len() ==> (#[trigger] records[i]).target_name != Some(target),
    decreases records.len(),
{
    if records.len() > 0 && records[0].target_name != Some(target) {
        let rest = records.skip(1);
        lemma_target_owner(rest, target);
        match target_owner(records, target) {
            Some(owner) => {
                let i = choose|i: int|
                    0 <= i < rest.len() && (#[trigger] rest[i]).target_name == Some(target)
                        && rest[i].id == owner;
                assert(records[i + 1] == rest[i]);
            },
            None => {
                assert forall|i: int| 0 <= i < records.len() implies (
                #[trigger] records[i]).target_name != Some(target) by {
                    if i > 0 {
                        assert(rest[i - 1] == records[i]);
                    }
                }
            },
        }
    } else if records.len() > 0 {
        assert(records[0].target_name == Some(target));
    }
}

/// A plugin whose service, link path and update target are free fits into the
/// books.
pub proof fn free_records_fit(records: Seq<RecordView>, record: RecordView)
    requires
        in_order(records),
        is_free(records, record),
    ensures
        fits(records, record),
{
    lemma_service_owner(records, record.service);
    assert forall|k: int| 0 <= k < records.len() && (#[trigger] records[k]).id
        != record.id implies records[k].service != record.service by {
        if records[k].service == record.service {
            let owner = service_owner(records, record.service)->Some_0;
            let i = choose|i: int|
                0 <= i < records.len() && (#[trigger] records[i]).service == record.service
                    && records[i].id == owner;
            if i != k {
                if i < k {
                    assert(records[i].service != records[k].service);
                } else {
                    assert(records[k].service != records[i].service);
                }
            }
        }
    }
    assert forall|k: int| 0 <= k < records.len() && (#[trigger] records[k]).id != record.id
        && has_path(record) implies records[k].bin_path != record.bin_path by {
        let path = record.bin_path->Some_0;
        lemma_bin_path_owner(records, path);
        if records[k].bin_path == Some(path) {
            let owner = bin_path_owner(records, path)->Some_0;
            let i = choose|i: int|
                0 <= i < records.len() && (#[trigger] records[i]).bin_path == Some(path)
                    && records[i].id == owner;
            if i < k {
                assert(records[i].bin_path != records[k].bin_path);
            } else if k < i {
                assert(records[k].bin_path != records[i].bin_path);
            }
        }
    }
    assert forall|k: int| 0 <= k < records.len() && (#[trigger] records[k]).id != record.id
        && has_target(record) implies records[k].target_name != record.target_name by {
        let target = record.target_name->Some_0;
        lemma_target_owner(records, target);
        if records[k].target_name == Some(target) {
            let owner = target_owner(records, target)->Some_0;
            let i = choose|i: int|
                0 <= i < records.len() && (#[trigger] records[i]).target_name == Some(target)
                    && records[i].id == owner;
            if i < k {
                assert(records[i].target_name != records[k].target_name);
            } else if k < i {
                assert(records[k].target_name != records[i].target_name);
            }
        }
    }
}

/// Putting in a plugin that fits into the books keeps them in order.
pub proof fn fitting_records_keep_order(records: Seq<RecordView>, record: RecordView)
    requires
        in_order(records),
        fits(records, record),
    ensures
        in_order(put(records, record)),
{
    let after = put(records, record);
    lemma_id_index(records, record.id);
    if has_id(records, record.id) {
        let at = id_index(records, record.id);
        assert forall|i: int, j: int| 0 <= i < j < after.len() implies {
            &&& (#[trigger] after[i]).id != (#[trigger] after[j]).id
            &&& after[i].service != after[j].service
            &&& has_path(after[i]) ==> after[i].bin_path != after[j].bin_path
            &&& has_target(after[i]) ==> after[i].target_name != after[j].target_name
        } by {
            if i == at {
                assert(records[i].id != records[j].id);
            } else if j == at {
                assert(records[i].id != records[j].id);
            } else {
                assert(records[i].id != records[j].id);
            }
        }
    } else {
        assert forall|i: int, j: int| 0 <= i < j < after.len() implies {
            &&& (#[trigger] after[i]).id != (#[trigger] after[j]).id
            &&& after[i].service != after[j].service
            &&& has_path(after[i]) ==> after[i].bin_path != after[j].bin_path
            &&& has_target(after[i]) ==> after[i].target_name != after[j].target_name
        } by {
            if j < records.len() {
                assert(records[i].id != records[j].id);
            } else {
                assert(records[i].id != record.id);
            }
        }
    }
}

/// Whether two plugins have the same text, and it is not empty.
fn share(a: &Option<String>, b: &Option<String>) -> (out: bool)
    ensures
        out == (opt_view(*a) == opt_view(*b) && (opt_view(*b) matches Some(text) && text.len() > 0)),
{
    match (a, b) {
        (Some(a), Some(b)) => same(a.as_str(), b.as_str()) && !b.as_str().is_empty(),
        _ => false,
    }
}

impl PluginStore {
    /// Each plugin comes once, and no two have the same service, the same link
    /// path or the same update target.
    pub open spec fn wf(self) -> bool {
        in_order(self@)
    }

    /// No records.
    pub fn new() -> (out: PluginStore)
        ensures
            out.wf(),
            out@ == Seq::<RecordView>::empty(),
    {
        let out = PluginStore { records: Vec::new() };
        assert(out@ =~= Seq::<RecordView>::empty());
        out
    }

    /// Where the record of a plugin is, or how many records there are.
    fn position(&self, id: &str) -> (out: usize)
        ensures
            out == id_index(self@, id@),
            out <= self.records@.len(),
            out < self.records@.len() <==> has_id(self@, id@),
    {
        let ghost all = self@;
        let mut i: usize = 0;
        assert(all.skip(0) =~= all);
        while i < self.records.len()
            invariant
                i <= self.records@.len(),
                all == viewed(self.records@),
                all.len() == self.records@.len(),
                i + id_index(all.skip(i as int), id@) == id_index(all, id@),
            decreases self.records@.len() - i,
        {
            proof {
                assert(all.skip(i as int)[0] == self.records@[i as int]@);
                assert(all.skip(i as int).skip(1) =~= all.skip(i + 1));
                lemma_id_index(all, id@);
            }
            if same(self.records[i].id.as_str(), id) {
                return i;
            }
            i += 1;
        }
        proof {
            assert(all.skip(i as int) =~= Seq::<RecordView>::empty());
            lemma_id_index(all, id@);
        }
        i
    }

    /// The record of a plugin, if there is one.
    pub fn load_plugin(&self, id: &str) -> (out: Option<PluginRecord>)
        ensures
            match out {
                Some(record) => has_id(self@, id@) && record@ == self@[id_index(self@, id@)],
                None => !has_id(self@, id@),
            },
    {
        let i = self.position(id);
        if i < self.records.len() {
            Some(self.records[i].copy())
        } else {
            None
        }
    }

    /// The plugin that has a service, if there is one.
    pub fn service_owner(&self, service: &str) -> (out: Option<String>)
        ensures
            opt_view(out) == service_owner(self@, service@),
    {
        let ghost all = self@;
        let mut i: usize = 0;
        assert(all.skip(0) =~= all);
        while i < self.records.len()
            invariant
                i <= self.records@.len(),
                all == viewed(self.records@),
                service_owner(all.skip(i as int), service@) == service_owner(all, service@),
            decreases self.records@.len() - i,
        {
            proof {
                assert(all.skip(i as int)[0] == self.records@[i as int]@);
                assert(all.skip(i as int).skip(1) =~= all.skip(i + 1));
            }
            if same(self.records[i].service.as_str(), service) {
                return Some(self.records[i].id.clone());
            }
            i += 1;
        }
        assert(all.skip(i as int) =~= Seq::<RecordView>::empty());
        None
    }

    /// The plugin that has a link path, if there is one.
    pub fn bin_path_owner(&self, path: &str) -> (out: Option<String>)
        ensures
            opt_view(out) == bin_path_owner(self@, path@),
    {
        let ghost all = self@;
        let mut i: usize = 0;
        assert(all.skip(0) =~= all);
        while i < self.records.len()
            invariant
                i <= self.records@.len(),
                all == viewed(self.records@),
                bin_path_owner(all.skip(i as int), path@) == bin_path_owner(all, path@),
            decreases self.records@.len() - i,
        {
            proof {
                assert(all.skip(i as int)[0] == self.records@[i as int]@);
                assert(all.skip(i as int).skip(1) =~= all.skip(i + 1));
            }
            let found = match &self.records[i].bin_path {
                Some(own) => same(own.as_str(), path),
                None => false,
            };
            if found {
                return Some(self.records[i].id.clone());
            }
            i += 1;
        }
        assert(all.skip(i as int) =~= Seq::<RecordView>::empty());
        None
    }

    /// The plugin that stands for an update target, if there is one.
    pub fn target_owner(&self, target: &str) -> (out: Option<String>)
        ensures
            opt_view(out) == target_owner(self@, target@),
    {
        let ghost all = self@;
        let mut i: usize = 0;
        assert(all.skip(0) =~= all);
        while i < self.records.len()
            invariant
                i <= self.records@.len(),
                all == viewed(self.records@),
                target_owner(all.skip(i as int), target@) == target_owner(all, target@),
            decreases self.records@.len() - i,
        {
            proof {
                assert(all.skip(i as int)[0] == self.records@[i as int]@);
                assert(all.skip(i as int).skip(1) =~= all.skip(i + 1));
            }
            let found = match &self.records[i].target_name {
                Some(own) => same(own.as_str(), target),
                None => false,
            };
            if found {
                return Some(self.records[i].id.clone());
            }
            i += 1;
        }
        assert(all.skip(i as int) =~= Seq::<RecordView>::empty());
        None
    }

    /// Whether a plugin can be put in.
    pub fn has_room(&self, record: &PluginRecord) -> (out: bool)
        ensures
            out == fits(self@, record@),
    {
        let mut i: usize = 0;
        while i < self.records.len()
            invariant
                i <= self.records@.len(),
                forall|k: int|
                    0 <= k < i && (#[trigger] self@[k]).id != record@.id ==> {
                        &&& self@[k].service != record@.service
                        &&& has_path(record@) ==> self@[k].bin_path != record@.bin_path
                        &&& has_target(record@) ==> self@[k].target_name != record@.target_name
                    },
            decreases self.records@.len() - i,
        {
            let other = &self.records[i];
            assert(self@[i as int] == other@);
            if !same(other.id.as_str(), record.id.as_str()) {
                if same(other.service.as_str(), record.service.as_str()) || share(
                    &other.bin_path,
                    &record.bin_path,
                ) || share(&other.target_name, &record.target_name) {
                    return false;
                }
            }
            i += 1;
        }
        true
    }

    /// Puts in the record of a plugin that fits into the books.
    pub fn upsert_plugin(&mut self, record: PluginRecord)
        requires
            old(self).wf(),
            fits(old(self)@, record@),
        ensures
            final(self).wf(),
            final(self)@ == put(old(self)@, record@),
    {
        proof {
            fitting_records_keep_order(self@, record@);
        }
        let i = self.position(record.id.as_str());
        if i < self.records.len() {
            self.records.set(i, record);
            assert(self@ =~= put(old(self)@, record@));
        } else {
            self.records.push(record);
            assert(self@ =~= put(old(self)@, record@));
        }
    }

    /// Why a plugin cannot be put in: another one has its service, its link path
    /// or its update target.
    pub fn check_free(&self, record: &PluginRecord) -> (out: Result<(), PluginError>)
        ensures
            out is Ok <==> is_free(self@, record@),
            out matches Err(err) ==> err@ == not_free(self@, record@),
    {
        let owner = self.service_owner(record.service.as_str());
        match ensure_service_available(
            opt_as_str(&owner),
            record.service.as_str(),
            Some(record.id.as_str()),
        ) {
            Ok(()) => {},
            Err(err) => {
                return Err(err);
            },
        }
        let owner = match &record.bin_path {
            Some(path) => self.bin_path_owner(path.as_str()),
            None => None,
        };
        match ensure_bin_path_available(
            opt_as_str(&owner),
            opt_as_str(&record.bin_path),
            Some(record.id.as_str()),
        ) {
            Ok(()) => {},
            Err(err) => {
                return Err(err);
            },
        }
        if let Some(target) = &record.target_name {
            if !target.as_str().is_empty() {
                if let Some(owner) = self.target_owner(target.as_str()) {
                    if !same(owner.as_str(), record.id.as_str()) {
                        return Err(
                            PluginError::internal(
                                "upsert plugin record: UNIQUE constraint failed: plugins.target_name".to_owned(),
                            ),
                        );
                    }
                }
            }
        }
        Ok(())
    }
}

// ── Discovery ────────────────────────────────────────────────────────────────

/// An entry of the directory of plugins, and the record that is found in it.
#[derive(Debug)]
pub struct FoundEntry {
    pub name: String,
    pub is_dir: bool,
    pub record: Result<PluginRecord, PluginError>,
}

/// What an entry of the directory of plugins stands for.
pub struct FoundView {
    pub name: Seq<char>,
    pub is_dir: bool,
    pub record: Result<RecordView, Refusal>,
}

impl View for FoundEntry {
    type V = FoundView;

    open spec fn view(&self) -> FoundView {
        FoundView {
            name: self.name@,
            is_dir: self.is_dir,
            record: match self.record {
                Ok(record) => Ok(record@),
                Err(err) => Err(err@),
            },
        }
    }
}

/// Whether an entry is taken into the books: it is one of a plugin that is not
/// in them, it is intact, and its service, link path and update target are free.
pub open spec fn is_taken(records: Seq<RecordView>, entry: FoundView) -> bool {
    &&& may_be_plugin(entry.is_dir, entry.name)
    &&& !has_id(records, entry.name)
    &&& entry.record matches Ok(record) && is_free(records, record)
}

/// The books after entries were looked at, one after the other.
pub open spec fn discovered(records: Seq<RecordView>, found: Seq<FoundView>) -> Seq<RecordView>
    decreases found.len(),
{
    if found.len() == 0 {
        records
    } else {
        let before = discovered(records, found.drop_last());
        if is_taken(before, found.last()) {
            put(before, found.last().record->Ok_0)
        } else {
            before
        }
    }
}

/// Takes the plugins that are found in the directory of plugins into the books.
pub fn discover_plugins(store: &mut PluginStore, found: &Vec<FoundEntry>)
    requires
        old(store).wf(),
    ensures
        final(store).wf(),
        final(store)@ == discovered(old(store)@, viewed(found@)),
{
    let ghost before = store@;
    let ghost all = viewed(found@);
    let mut i: usize = 0;
    assert(all.take(0) =~= Seq::<FoundView>::empty());
    while i < found.len()
        invariant
            i <= found@.len(),
            all == viewed(found@),
            store.wf(),
            store@ == discovered(before, all.take(i as int)),
        decreases found@.len() - i,
    {
        proof {
            assert(all.take(i + 1).drop_last() =~= all.take(i as int));
            assert(all.take(i + 1).last() == found@[i as int]@);
        }
        let entry = &found[i];
        if is_plugin_entry(entry.is_dir, entry.name.as_str()) {
            let known = store.position(entry.name.as_str()) < store.records.len();
            if !known {
                if let Ok(record) = &entry.record {
                    if store.check_free(record).is_ok() {
                        proof {
                            free_records_fit(store@, record@);
                        }
                        store.upsert_plugin(record.copy());
                    }
                }
            }
        }
        i += 1;
    }
    assert(all.take(i as int) =~= all);
}

// ── Laws ─────────────────────────────────────────────────────────────────────

/// Whether every plugin that is found is in a directory with its name.
pub open spec fn well_named(found: Seq<FoundView>) -> bool {
    forall|i: int|
        0 <= i < found.len() ==> ((#[trigger] found[i]).record matches Ok(record) ==> record.id
            == found[i].name)
}

/// Looking at the directory of plugins only adds to the books: what is in them
/// stays as it is.
pub proof fn discovery_only_adds(records: Seq<RecordView>, found: Seq<FoundView>)
    requires
        well_named(found),
    ensures
        records.is_prefix_of(discovered(records, found)),
    decreases found.len(),
{
    if found.len() > 0 {
        assert(well_named(found.drop_last())) by {
            assert forall|i: int| 0 <= i < found.drop_last().len() implies ((
            #[trigger] found.drop_last()[i]).record matches Ok(record) ==> record.id
                == found.drop_last()[i].name) by {
                assert(found.drop_last()[i] == found[i]);
            }
        }
        discovery_only_adds(records, found.drop_last());
        assert(found.last() == found[found.len() - 1]);
    }
}

/// Looking at the directory of plugins once is enough: looking at it again
/// changes nothing.
pub proof fn discovery_settles(records: Seq<RecordView>, found: Seq<FoundView>)
    requires
        well_named(found),
    ensures
        discovered(discovered(records, found), found) == discovered(records, found),
{
    lemma_settled(records, found, found.len() as int);
    assert(found.take(found.len() as int) =~= found);
}

proof fn lemma_settled(records: Seq<RecordView>, found: Seq<FoundView>, n: int)
    requires
        well_named(found),
        0 <= n <= found.len(),
    ensures
        discovered(discovered(records, found), found.take(n)) == discovered(records, found),
    decreases n,
{
    let last = discovered(records, found);
    if n > 0 {
        lemma_settled(records, found, n - 1);
        assert(found.take(n).drop_last() =~= found.take(n - 1));
        let entry = found[n - 1];
        assert(found.take(n).last() == entry);
        let before = discovered(records, found.take(n - 1));
        let after = discovered(records, found.take(n));
        lemma_grows(records, found, n - 1);
        lemma_grows(records, found, n);
        if is_taken(before, entry) {
            assert(after == before.push(entry.record->Ok_0));
            assert(after[before.len() as int].id == entry.name);
            assert(last[before.len() as int] == after[before.len() as int]);
            assert(has_id(last, entry.name));
        } else {
            lemma_stays_refused(before, last, entry);
        }
    }
}

/// The books after some entries are the beginning of the books after all.
proof fn lemma_grows(records: Seq<RecordView>, found: Seq<FoundView>, n: int)
    requires
        well_named(found),
        0 <= n <= found.len(),
    ensures
        discovered(records, found.take(n)).is_prefix_of(discovered(records, found)),
    decreases found.len(),
{
    if n == found.len() {
        assert(found.take(n) =~= found);
    } else {
        let shorter = found.drop_last();
        assert(well_named(shorter)) by {
            assert forall|i: int| 0 <= i < shorter.len() implies ((
            #[trigger] shorter[i]).record matches Ok(record) ==> record.id == shorter[i].name) by {
                assert(shorter[i] == found[i]);
            }
        }
        lemma_grows(records, shorter, n);
        assert(shorter.take(n) =~= found.take(n));
        assert(found.last() == found[found.len() - 1]);
        let middle = discovered(records, shorter);
        let last = discovered(records, found);
        assert(middle.is_prefix_of(last));
        let first = discovered(records, found.take(n));
        assert(first =~= last.subrange(0, first.len() as int));
    }
}

/// An entry that is passed over stays passed over when the books grow.
proof fn lemma_stays_refused(a: Seq<RecordView>, b: Seq<RecordView>, entry: FoundView)
    requires
        a.is_prefix_of(b),
        !is_taken(a, entry),
    ensures
        !is_taken(b, entry),
{
    if has_id(a, entry.name) {
        let i = choose|i: int| 0 <= i < a.len() && (#[trigger] a[i]).id == entry.name;
        assert(b[i] == a[i]);
        assert(has_id(b, entry.name));
    } else if entry.record is Ok && may_be_plugin(entry.is_dir, entry.name) {
        let record = entry.record->Ok_0;
        if service_owner(a, record.service) is Some {
            lemma_owner_stays(a, b, record.service);
        }
        if record.bin_path is Some && bin_path_owner(a, record.bin_path->Some_0) is Some {
            lemma_path_owner_stays(a, b, record.bin_path->Some_0);
        }
        if has_target(record) && target_owner(a, record.target_name->Some_0) is Some {
            lemma_target_owner_stays(a, b, record.target_name->Some_0);
        }
    }
}

proof fn lemma_owner_stays(a: Seq<RecordView>, b: Seq<RecordView>, service: Seq<char>)
    requires
        a.is_prefix_of(b),
        service_owner(a, service) is Some,
    ensures
        service_owner(b, service) == service_owner(a, service),
    decreases a.len(),
{
    assert(a[0] == b[0]);
    if a[0].service != service {
        assert(a.skip(1).is_prefix_of(b.skip(1))) by {
            assert forall|k: int| 0 <= k < a.skip(1).len() implies a.skip(1)[k] == b.skip(1)[k] by {
                assert(a[k + 1] == b[k + 1]);
            }
            assert(a.skip(1) =~= b.skip(1).subrange(0, a.skip(1).len() as int));
        }
        lemma_owner_stays(a.skip(1), b.skip(1), service);
    }
}

proof fn lemma_path_owner_stays(a: Seq<RecordView>, b: Seq<RecordView>, path: Seq<char>)
    requires
        a.is_prefix_of(b),
        bin_path_owner(a, path) is Some,
    ensures
        bin_path_owner(b, path) == bin_path_owner(a, path),
    decreases a.len(),
{
    assert(a[0] == b[0]);
    if a[0].bin_path != Some(path) {
        assert(a.skip(1).is_prefix_of(b.skip(1))) by {
            assert forall|k: int| 0 <= k < a.skip(1).len() implies a.skip(1)[k] == b.skip(1)[k] by {
                assert(a[k + 1] == b[k + 1]);
            }
            assert(a.skip(1) =~= b.skip(1).subrange(0, a.skip(1).len() as int));
        }
        lemma_path_owner_stays(a.skip(1), b.skip(1), path);
    }
}

proof fn lemma_target_owner_stays(a: Seq<RecordView>, b: Seq<RecordView>, target: Seq<char>)
    requires
        a.is_prefix_of(b),
        target_owner(a, target) is Some,
    ensures
        target_owner(b, target) == target_owner(a, target),
    decreases a.len(),
{
    assert(a[0] == b[0]);
    if a[0].target_name != Some(target) {
        assert(a.skip(1).is_prefix_of(b.skip(1))) by {
            assert forall|k: int| 0 <= k < a.skip(1).len() implies a.skip(1)[k] == b.skip(1)[k] by {
                assert(a[k + 1] == b[k + 1]);
            }
            assert(a.skip(1) =~= b.skip(1).subrange(0, a.skip(1).len() as int));
        }
        lemma_target_owner_stays(a.skip(1), b.skip(1), target);
    }
}

/// Putting a plugin in leaves the records of all others as they are, and the
/// books hold it afterwards, in the place of its earlier record or as one more.
pub proof fn putting_in_replaces_only_its_own(records: Seq<RecordView>, record: RecordView)
    requires
        in_order(records),
    ensures
        put(records, record).contains(record),
        put(records, record).len() == records.len() + (if has_id(records, record.id) {
            0int
        } else {
            1
        }),
        forall|i: int|
            0 <= i < records.len() ==> #[trigger] put(records, record)[i] == (if records[i].id
                == record.id {
                record
            } else {
                records[i]
            }),
{
    lemma_id_index(records, record.id);
    let after = put(records, record);
    let at = id_index(records, record.id);
    assert(after[at] == record);
    assert forall|i: int| 0 <= i < records.len() implies #[trigger] after[i] == (if records[i].id
        == record.id {
        record
    } else {
        records[i]
    }) by {
        if records[i].id == record.id && i != at {
            if i < at {
                assert(records[i].id != record.id);
            } else {
                assert(records[at].id != records[i].id);
            }
        }
    }
}

/// Whether another plugin has the service of a plugin, its link path or its
/// update target.
pub open spec fn stands_in_the_way(other: RecordView, record: RecordView) -> bool {
    &&& other.id != record.id
    &&& other.service == record.service || (record.bin_path is Some && other.bin_path
        == record.bin_path) || (record.target_name is Some && record.target_name->Some_0.len() > 0
        && other.target_name == record.target_name)
}

/// A plugin is free if and only if no other plugin stands in its way.
pub proof fn free_means_nobody_stands_in_the_way(records: Seq<RecordView>, record: RecordView)
    requires
        in_order(records),
    ensures
        (forall|i: int|
            0 <= i < records.len() ==> !stands_in_the_way(#[trigger] records[i], record))
            ==> is_free(records, record),
        is_free(records, record) ==> forall|i: int|
            0 <= i < records.len() && (#[trigger] records[i]).id != record.id ==> records[i].service
                != record.service && (record.bin_path is Some && record.bin_path->Some_0.len() > 0
                ==> records[i].bin_path != record.bin_path) && (record.target_name is Some
                && record.target_name->Some_0.len() > 0 ==> records[i].target_name
                != record.target_name),
{
    lemma_service_owner(records, record.service);
    if record.bin_path is Some {
        lemma_bin_path_owner(records, record.bin_path->Some_0);
    }
    if record.target_name is Some {
        lemma_target_owner(records, record.target_name->Some_0);
    }
    if is_free(records, record) {
        free_records_fit(records, record);
    } else {
        if forall|i: int|
            0 <= i < records.len() ==> !stands_in_the_way(#[trigger] records[i], record) {
            let s = service_owner(records, record.service);
            if s is Some && s->Some_0 != record.id {
                let i = choose|i: int|
                    0 <= i < records.len() && (#[trigger] records[i]).service == record.service
                        && records[i].id == s->Some_0;
                assert(stands_in_the_way(records[i], record));
            } else if record.bin_path is Some && bin_path_owner(
                records,
                record.bin_path->Some_0,
            ) is Some && bin_path_owner(records, record.bin_path->Some_0)->Some_0 != record.id {
                let path = record.bin_path->Some_0;
                let i = choose|i: int|
                    0 <= i < records.len() && (#[trigger] records[i]).bin_path == Some(path)
                        && records[i].id == bin_path_owner(records, path)->Some_0;
                assert(stands_in_the_way(records[i], record));
            } else {
                let target = record.target_name->Some_0;
                let i = choose|i: int|
                    0 <= i < records.len() && (#[trigger] records[i]).target_name == Some(target)
                        && records[i].id == target_owner(records, target)->Some_0;
                assert(stands_in_the_way(records[i], record));
            }
        }
    }
}

/// Every intact plugin in the directory of plugins is in the books once it was
/// looked at, unless another plugin has its service, its link path or its update
/// target.
pub proof fn intact_plugins_are_taken_up(records: Seq<RecordView>, found: Seq<FoundView>, i: int)
    requires
        well_named(found),
        0 <= i < found.len(),
        found[i].is_dir,
        found[i].name.len() > 0,
        found[i].name[0] != '.',
        found[i].record is Ok,
    ensures
        has_id(discovered(records, found), found[i].name) || !is_free(
            discovered(records, found),
            found[i].record->Ok_0,
        ),
{
    let last = discovered(records, found);
    let entry = found[i];
    let before = discovered(records, found.take(i));
    let after = discovered(records, found.take(i + 1));
    assert(found.take(i + 1).drop_last() =~= found.take(i));
    assert(found.take(i + 1).last() == entry);
    lemma_grows(records, found, i);
    lemma_grows(records, found, i + 1);
    if is_taken(before, entry) {
        assert(after == before.push(entry.record->Ok_0));
        assert(after[before.len() as int].id == entry.name);
        assert(last[before.len() as int] == after[before.len() as int]);
        assert(has_id(last, entry.name));
    } else {
        lemma_stays_refused(before, last, entry);
    }
}

/// Nothing gets into the books that was not there before or found intact.
pub proof fn only_found_plugins_are_added(records: Seq<RecordView>, found: Seq<FoundView>, k: int)
    requires
        well_named(found),
        records.len() <= k < discovered(records, found).len(),
    ensures
        exists|i: int|
            0 <= i < found.len() && (#[trigger] found[i]).record == Ok::<RecordView, Refusal>(
                discovered(records, found)[k],
            ),
    decreases found.len(),
{
    let shorter = found.drop_last();
    let last = found.last();
    assert(well_named(shorter)) by {
        assert forall|i: int| 0 <= i < shorter.len() implies ((
        #[trigger] shorter[i]).record matches Ok(record) ==> record.id == shorter[i].name) by {
            assert(shorter[i] == found[i]);
        }
    }
    let before = discovered(records, shorter);
    assert(found[found.len() - 1] == last);
    if k < before.len() {
        only_found_plugins_are_added(records, shorter, k);
        assert(discovered(records, found)[k] == before[k]);
        let i = choose|i: int|
            0 <= i < shorter.len() && (#[trigger] shorter[i]).record == Ok::<RecordView, Refusal>(
                before[k],
            );
        assert(found[i] == shorter[i]);
    } else {
        assert(discovered(records, found) == before.push(last.record->Ok_0));
    }
}

/// The refusal of a plugin that is not free names what another plugin has, and that
/// plugin.
pub proof fn refusals_name_the_owner(records: Seq<RecordView>, record: RecordView, i: int)
    requires
        in_order(records),
        0 <= i < records.len(),
        records[i].id != record.id,
    ensures
        records[i].service == record.service ==> !is_free(records, record) && not_free(
            records,
            record,
        ) == bad(
            "service "@ + record.service + " is already owned by plugin "@ + records[i].id,
        ),
{
    lemma_service_owner(records, record.service);
    if records[i].service == record.service {
        let owner = service_owner(records, record.service);
        let k = choose|k: int|
            0 <= k < records.len() && (#[trigger] records[k]).service == record.service
                && records[k].id == owner->Some_0;
        if k < i {
            assert(records[k].service != records[i].service);
        } else if i < k {
            assert(records[i].service != records[k].service);
        }
    }
}

} // verus!
