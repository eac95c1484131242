//! The rules for baselines: what a new snapshot of an inventory holds.
//!
//! Storage of baselines is the caller's business. The library builds the
//! record to be stored: it draws the identifier from the `uuid` crate, reads
//! the time through the `chrono` crate, counts the hosts and settles the label.

use crate::listing::{arranged, is_stable_order, positions, stable_order};
use crate::models::{meta_views, opt_text, texts, Baseline, BaselineMeta, BaselineMetaView, Host};
use crate::text::concat2;
use vstd::prelude::*;
use vstd::string::*;

verus! {

/// How many characters a fresh identifier has.
pub const ID_LENGTH: usize = 36;

/// How many leading characters of the identifier a default label shows.
pub const LABEL_ID_LENGTH: usize = 8;

/// `Uuid::new_v4` followed by `to_string`: a random identifier in the
/// hyphenated form, which is 36 characters long whatever the random bits are.
/// Nothing else is claimed of it. The crate panics where the operating system
/// hands out no random bytes.
#[verifier::external_body]
fn new_id() -> (id: String)
    ensures
        id@.len() == ID_LENGTH,
{
    uuid::Uuid::new_v4().to_string()
}

/// `Utc::now` followed by `to_rfc3339`: the current time as text. Nothing is
/// claimed of it. The crate panics where the clock stands before 1970.
#[verifier::external_body]
fn now() -> (timestamp: String) {
    chrono::Utc::now().to_rfc3339()
}

/// The label that a snapshot with identifier `id` gets where none is given.
pub open spec fn default_label(id: Seq<char>) -> Seq<char> {
    "Baseline "@ + id.take(LABEL_ID_LENGTH as int)
}

/// The label of a snapshot: the one that was given, or the default one.
pub open spec fn label_of(id: Seq<char>, label: Option<Seq<char>>) -> Seq<char> {
    match label {
        Some(l) => l,
        None => default_label(id),
    }
}

/// The keys by which baselines are listed: their times.
pub open spec fn time_keys(metas: Seq<BaselineMetaView>) -> Seq<Seq<char>> {
    Seq::new(metas.len(), |i: int| metas[i].timestamp)
}

/// The keeper of the rules for baselines.
#[derive(Debug)]
pub struct BaselineManager {}

impl BaselineManager {
    /// A keeper of the rules.
    pub fn new() -> (r: Self) {
        BaselineManager {}
    }

    /// The name of the file that holds the baseline `id`.
    pub open spec fn file_name_of(id: Seq<char>) -> Seq<char> {
        id + ".json"@
    }

    /// The name of the file that holds the baseline `id`.
    pub fn file_name(&self, id: &str) -> (r: String)
        ensures
            r@ == Self::file_name_of(id@),
    {
        concat2(id, ".json")
    }

    /// The snapshot of `hosts` under the identifier `id`, taken at
    /// `timestamp`: it holds the hosts as they are, counts them, and carries
    /// the given label or else the default one. Only the default label reads
    /// the identifier, so only without a label must the identifier have the
    /// characters that the label shows.
    pub fn snapshot(
        &self,
        id: String,
        timestamp: String,
        hosts: Vec<Host>,
        label: Option<String>,
    ) -> (r: Baseline)
        requires
            opt_text(label) is None ==> id@.len() >= LABEL_ID_LENGTH,
        ensures
            r.meta.id@ == id@,
            r.meta.timestamp@ == timestamp@,
            r.meta.label@ == label_of(id@, opt_text(label)),
            r.meta.host_count == hosts@.len(),
            r.hosts@ == hosts@,
    {
        let label = match label {
            Some(l) => l,
            None => concat2("Baseline ", id.as_str().substring_char(0, LABEL_ID_LENGTH)),
        };
        let host_count = hosts.len();
        Baseline { meta: BaselineMeta { id, label, timestamp, host_count }, hosts }
    }

    /// A fresh snapshot of `hosts`, to be stored by the caller: a snapshot as
    /// [`BaselineManager::snapshot`] makes it, under a new identifier of 36
    /// characters and with the time of the call.
    pub fn create_snapshot(&self, hosts: Vec<Host>, label: Option<String>) -> (r: Baseline)
        ensures
            r.meta.id@.len() == ID_LENGTH,
            r.meta.label@ == label_of(r.meta.id@, opt_text(label)),
            r.meta.host_count == hosts@.len(),
            r.hosts@ == hosts@,
    {
        self.snapshot(new_id(), now(), hosts, label)
    }
    /// The baselines in the order of listing: the newest first, by the text
    /// of their times, baselines of equal time in the order in which they
    /// came.
    pub fn arrange(&self, metas: Vec<BaselineMeta>) -> (r: Vec<BaselineMeta>)
        ensures
            exists|order: Seq<int>|
                is_stable_order(order, time_keys(meta_views(metas@)), true) && meta_views(r@)
                    == arranged(meta_views(metas@), order),
    {
        let ghost views = meta_views(metas@);
        let n: usize = metas.len();
        let mut keys: Vec<String> = Vec::new();
        let mut i: usize = 0;
        while i < n
            invariant
                i <= n,
                n == metas@.len(),
                keys@.len() == i,
                forall|k: int| 0 <= k < i ==> (#[trigger] keys@[k])@ == metas@[k]@.timestamp,
            decreases n - i,
        {
            keys.push(metas[i].timestamp.clone());
            i += 1;
        }
        assert(texts(keys@) =~= time_keys(views));
        let order = stable_order(&keys, true);
        let mut out: Vec<BaselineMeta> = Vec::new();
        let mut k: usize = 0;
        while k < n
            invariant
                k <= n,
                n == metas@.len(),
                n == order@.len(),
                out@.len() == k,
                forall|x: int| 0 <= x < order@.len() ==> (#[trigger] order@[x]) < n,
                forall|x: int| 0 <= x < k ==> (#[trigger] out@[x])@ == metas@[order@[x] as int]@,
            decreases n - k,
        {
            out.push(metas[order[k]].clone());
            k += 1;
        }
        assert(meta_views(out@) =~= arranged(views, positions(order@)));
        out
    }
}

} // verus!
