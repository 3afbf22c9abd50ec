//! The download queue: an in-memory registry of submitted download
//! jobs, keyed by an identifier that is issued once and never reused
//! within a queue's lifetime. The queue is pure bookkeeping; it never
//! starts a download itself.

use vstd::prelude::*;

use crate::downloader::{DownloadRequest, Platform};
use crate::text::{dec_rep, lemma_dec_rep_injective, str_eq, u64_to_string};

verus! {

/// Lifecycle state of one queued job. Progress is carried in permille
/// so that the library stays free of floating point; the interface
/// layer divides by one thousand.
#[derive(Debug)]
pub enum DownloadStatus {
    Pending,
    Downloading { progress_permille: u32 },
    Completed { file_path: String },
    Failed { error: String },
}

impl Clone for DownloadStatus {
    fn clone(&self) -> (r: Self)
        ensures
            r == *self,
    {
        match self {
            DownloadStatus::Pending => DownloadStatus::Pending,
            DownloadStatus::Downloading { progress_permille } => DownloadStatus::Downloading {
                progress_permille: *progress_permille,
            },
            DownloadStatus::Completed { file_path } => DownloadStatus::Completed {
                file_path: file_path.clone(),
            },
            DownloadStatus::Failed { error } => DownloadStatus::Failed { error: error.clone() },
        }
    }
}

/// One entry of the queue.
#[derive(Debug)]
pub struct QueueItem {
    pub id: String,
    pub request: DownloadRequest,
    pub status: DownloadStatus,
}

impl Clone for QueueItem {
    fn clone(&self) -> (r: Self)
        ensures
            r == *self,
    {
        QueueItem {
            id: self.id.clone(),
            request: self.request.clone(),
            status: self.status.clone(),
        }
    }
}

/// The identifier issued for the `k`-th job of a queue's lifetime.
pub open spec fn id_spec(k: int) -> Seq<char> {
    "download_"@ + dec_rep(k)
}

/// Distinct issue numbers give distinct identifiers.
pub proof fn lemma_id_spec_injective(a: int, b: int)
    requires
        0 <= a,
        0 <= b,
        id_spec(a) == id_spec(b),
    ensures
        a == b,
{
    assert(dec_rep(a) =~= id_spec(a).subrange("download_"@.len() as int, id_spec(a).len() as int));
    assert(dec_rep(b) =~= id_spec(b).subrange("download_"@.len() as int, id_spec(b).len() as int));
    lemma_dec_rep_injective(a, b);
}

/// Registry of submitted jobs. Identifiers are issued from a counter
/// that only grows, so every identifier in the queue was issued below
/// the counter's current value and no two entries share one.
pub struct DownloadQueue {
    items: Vec<QueueItem>,
    next_id: u64,
}

impl DownloadQueue {
    /// The stored entries, in insertion order.
    pub closed spec fn spec_items(&self) -> Seq<QueueItem> {
        self.items@
    }

    /// The number of identifiers issued so far.
    pub closed spec fn spec_next(&self) -> int {
        self.next_id as int
    }

    /// Every entry carries an identifier issued below the counter, and
    /// no two entries share an identifier.
    pub closed spec fn wf(&self) -> bool {
        &&& forall|i: int|
            0 <= i < self.items@.len() ==> exists|k: int|
                0 <= k < self.next_id && (#[trigger] self.items@[i].id)@ == id_spec(k)
        &&& forall|i: int, j: int|
            0 <= i < j < self.items@.len() ==> (#[trigger] self.items@[i].id)@ != (
            #[trigger] self.items@[j].id)@
    }

    /// How many identifiers this queue has issued so far.
    pub fn issued(&self) -> (r: u64)
        ensures
            r as int == self.spec_next(),
    {
        self.next_id
    }

    pub fn new() -> (r: Self)
        ensures
            r.wf(),
            r.spec_items() == Seq::<QueueItem>::empty(),
            r.spec_next() == 0,
    {
        let r = Self { items: Vec::new(), next_id: 0 };
        proof {
            assert(r.spec_items() =~= Seq::<QueueItem>::empty());
        }
        r
    }

    /// Issue the next identifier, register the request as `Pending`
    /// under it, and return it. The identifier differs from every
    /// identifier this queue has ever issued.
    pub fn add(&mut self, request: DownloadRequest) -> (r: String)
        requires
            old(self).wf(),
            old(self).spec_next() < u64::MAX,
        ensures
            final(self).wf(),
            r@ == id_spec(old(self).spec_next()),
            final(self).spec_next() == old(self).spec_next() + 1,
            final(self).spec_items().len() == old(self).spec_items().len() + 1,
            forall|i: int|
                0 <= i < old(self).spec_items().len() ==> final(self).spec_items()[i] == old(
                    self,
                ).spec_items()[i],
            final(self).spec_items().last().id@ == r@,
            final(self).spec_items().last().request == request,
            final(self).spec_items().last().status is Pending,
            forall|k: int| 0 <= k < old(self).spec_next() ==> #[trigger] id_spec(k) != r@,
    {
        let mut id = String::from_str("download_");
        id.append(u64_to_string(self.next_id).as_str());
        proof {
            assert(id@ == id_spec(self.next_id as int));
        }
        let item = QueueItem { id: id.clone(), request, status: DownloadStatus::Pending };
        self.items.push(item);
        let ghost n = self.next_id as int;
        self.next_id = self.next_id + 1;
        proof {
            assert forall|k: int| 0 <= k < n implies #[trigger] id_spec(k) != id@ by {
                if id_spec(k) == id@ {
                    lemma_id_spec_injective(k, n);
                }
            }
            assert forall|i: int|
                0 <= i < self.items@.len() implies exists|k: int|
                    0 <= k < self.next_id && (#[trigger] self.items@[i].id)@ == id_spec(k) by {
                if i < self.items@.len() - 1 {
                    let k = choose|k: int|
                        0 <= k < old(self).next_id && (self.items@[i].id)@ == id_spec(k);
                    assert(0 <= k < self.next_id && (self.items@[i].id)@ == id_spec(k));
                } else {
                    assert(0 <= n < self.next_id && (self.items@[i].id)@ == id_spec(n));
                }
            }
            assert forall|i: int, j: int|
                0 <= i < j < self.items@.len() implies (#[trigger] self.items@[i].id)@ != (
            #[trigger] self.items@[j].id)@ by {
                if j == self.items@.len() - 1 {
                    let k = choose|k: int|
                        0 <= k < old(self).next_id && (self.items@[i].id)@ == id_spec(k);
                    if (self.items@[i].id)@ == id@ {
                        lemma_id_spec_injective(k, n);
                    }
                }
            }
        }
        id
    }

    /// The entry stored under `id`, if any.
    pub fn get(&self, id: &str) -> (r: Option<QueueItem>)
        requires
            self.wf(),
        ensures
            match r {
                Some(it) => exists|i: int|
                    0 <= i < self.spec_items().len() && self.spec_items()[i] == it
                        && (#[trigger] self.spec_items()[i].id)@ == id@,
                None => forall|i: int|
                    0 <= i < self.spec_items().len() ==> (#[trigger] self.spec_items()[i].id)@
                        != id@,
            },
    {
        let n = self.items.len();
        let mut i: usize = 0;
        while i < n
            invariant
                n == self.items@.len(),
                i <= n,
                forall|k: int| 0 <= k < i ==> (#[trigger] self.items@[k].id)@ != id@,
            decreases n - i,
        {
            if str_eq(self.items[i].id.as_str(), id) {
                return Some(self.items[i].clone());
            }
            i += 1;
        }
        None
    }

    /// Replace the status of the entry under `id`; a no-op when the
    /// identifier is absent.
    pub fn update_status(&mut self, id: &str, status: DownloadStatus)
        requires
            old(self).wf(),
        ensures
            final(self).wf(),
            final(self).spec_next() == old(self).spec_next(),
            final(self).spec_items().len() == old(self).spec_items().len(),
            forall|i: int|
                0 <= i < final(self).spec_items().len() && (#[trigger] old(
                    self,
                ).spec_items()[i].id)@ != id@ ==> final(self).spec_items()[i] == old(
                    self,
                ).spec_items()[i],
            forall|i: int|
                0 <= i < final(self).spec_items().len() && (#[trigger] old(
                    self,
                ).spec_items()[i].id)@ == id@ ==> final(self).spec_items()[i].id == old(
                    self,
                ).spec_items()[i].id && final(self).spec_items()[i].request == old(
                    self,
                ).spec_items()[i].request && final(self).spec_items()[i].status == status,
    {
        let n = self.items.len();
        let mut i: usize = 0;
        while i < n
            invariant
                old(self).wf(),
                n == old(self).items@.len(),
                i <= n,
                *self == *old(self),
                forall|k: int| 0 <= k < i ==> (#[trigger] old(self).items@[k].id)@ != id@,
            decreases n - i,
        {
            if str_eq(self.items[i].id.as_str(), id) {
                let it = &self.items[i];
                let replacement = QueueItem {
                    id: it.id.clone(),
                    request: it.request.clone(),
                    status,
                };
                self.items.set(i, replacement);
                proof {
                    assert(self.items@ == old(self).items@.update(i as int, replacement));
                    assert(replacement.id == old(self).items@[i as int].id);
                    assert forall|a: int|
                        0 <= a < self.items@.len() implies (#[trigger] self.items@[a].id) == old(self).items@[a].id by {
                        if a != i as int {
                            assert(self.items@[a] == old(self).items@[a]);
                        }
                    }
                    assert forall|j: int|
                        0 <= j < self.items@.len() && (old(self).items@[j].id)@ == id@ implies j == i as int by {
                        if j < i as int {
                            assert((old(self).items@[j].id)@ != (old(self).items@[i as int].id)@);
                        } else if j > i as int {
                            assert((old(self).items@[i as int].id)@ != (old(self).items@[j].id)@);
                        }
                    }
                    assert forall|a: int|
                        0 <= a < self.items@.len() implies exists|k: int|
                            0 <= k < self.next_id && (#[trigger] self.items@[a].id)@ == id_spec(
                                k,
                            ) by {
                        let k = choose|k: int|
                            0 <= k < old(self).next_id && (#[trigger] old(self).items@[a].id)@ == id_spec(k);
                        assert(0 <= k < self.next_id && (self.items@[a].id)@ == id_spec(k));
                    }
                    assert forall|a: int, b: int|
                        0 <= a < b < self.items@.len() implies (#[trigger] self.items@[a].id)@
                        != (#[trigger] self.items@[b].id)@ by {
                        assert((old(self).items@[a].id)@ != (old(self).items@[b].id)@);
                    }
                }
                return ;
            }
            i += 1;
        }
    }

    /// Remove the entry under `id`; a no-op when the identifier is
    /// absent. The remaining entries keep their order.
    pub fn remove(&mut self, id: &str)
        requires
            old(self).wf(),
        ensures
            final(self).wf(),
            final(self).spec_next() == old(self).spec_next(),
            (exists|i: int|
                0 <= i < old(self).spec_items().len() && (#[trigger] old(
                    self,
                ).spec_items()[i].id)@ == id@) ==> exists|i: int|
                0 <= i < old(self).spec_items().len() && (#[trigger] old(
                    self,
                ).spec_items()[i].id)@ == id@ && final(self).spec_items() == old(
                    self,
                ).spec_items().remove(i),
            (forall|i: int|
                0 <= i < old(self).spec_items().len() ==> (#[trigger] old(
                    self,
                ).spec_items()[i].id)@ != id@) ==> final(self).spec_items() == old(
                self,
            ).spec_items(),
            forall|i: int|
                0 <= i < final(self).spec_items().len()
                    ==> (#[trigger] final(self).spec_items()[i].id)@ != id@,
    {
        let n = self.items.len();
        let mut i: usize = 0;
        while i < n
            invariant
                old(self).wf(),
                n == old(self).items@.len(),
                i <= n,
                *self == *old(self),
                forall|k: int| 0 <= k < i ==> (#[trigger] old(self).items@[k].id)@ != id@,
            decreases n - i,
        {
            if str_eq(self.items[i].id.as_str(), id) {
                self.items.remove(i);
                proof {
                    assert((old(self).items@[i as int].id)@ == id@);
                    assert forall|j: int|
                        0 <= j < self.items@.len() implies #[trigger] self.items@[j] == old(self).items@[
                        if j < i as int { j } else { j + 1 }
                    ] by {
                        if j < i as int {
                            assert(old(self).items@.remove(i as int)[j] == old(self).items@[j]);
                        } else {
                            assert(old(self).items@.remove(i as int)[j] == old(self).items@[j + 1]);
                        }
                    }
                    assert forall|j: int|
                        0 <= j < self.items@.len() implies (#[trigger] self.items@[j].id)@
                        != id@ by {
                        if j >= i as int {
                            assert(self.items@[j] == old(self).items@[j + 1]);
                            assert((old(self).items@[i as int].id)@ != (old(self).items@[j + 1].id)@);
                        } else {
                            assert(self.items@[j] == old(self).items@[j]);
                        }
                    }
                    assert forall|a: int|
                        0 <= a < self.items@.len() implies exists|k: int|
                            0 <= k < self.next_id && (#[trigger] self.items@[a].id)@ == id_spec(
                                k,
                            ) by {
                        let src = if a < i as int {
                            a
                        } else {
                            a + 1
                        };
                        assert(self.items@[a] == old(self).items@[src]);
                        let k = choose|k: int|
                            0 <= k < old(self).next_id && (#[trigger] old(self).items@[src].id)@ == id_spec(
                                k,
                            );
                        assert(0 <= k < self.next_id && (self.items@[a].id)@ == id_spec(k));
                    }
                    assert forall|a: int, b: int|
                        0 <= a < b < self.items@.len() implies (#[trigger] self.items@[a].id)@
                        != (#[trigger] self.items@[b].id)@ by {
                        let sa = if a < i as int {
                            a
                        } else {
                            a + 1
                        };
                        let sb = if b < i as int {
                            b
                        } else {
                            b + 1
                        };
                        assert(self.items@[a] == old(self).items@[sa]);
                        assert(self.items@[b] == old(self).items@[sb]);
                        assert((old(self).items@[sa].id)@ != (old(self).items@[sb].id)@);
                    }
                }
                return ;
            }
            i += 1;
        }
    }

    /// All entries, in insertion order.
    pub fn list_all(&self) -> (r: Vec<QueueItem>)
        ensures
            r@ == self.spec_items(),
    {
        let n = self.items.len();
        let mut out: Vec<QueueItem> = Vec::new();
        let mut i: usize = 0;
        while i < n
            invariant
                n == self.items@.len(),
                i <= n,
                out@.len() == i,
                forall|k: int| 0 <= k < i ==> out@[k] == self.items@[k],
            decreases n - i,
        {
            out.push(self.items[i].clone());
            i += 1;
        }
        proof {
            assert(out@ =~= self.spec_items());
        }
        out
    }

    /// Drop every entry; the identifier counter keeps its value, so
    /// identifiers are still never reused.
    pub fn clear(&mut self)
        requires
            old(self).wf(),
        ensures
            final(self).wf(),
            final(self).spec_items() == Seq::<QueueItem>::empty(),
            final(self).spec_next() == old(self).spec_next(),
    {
        self.items.clear();
        proof {
            assert(self.spec_items() =~= Seq::<QueueItem>::empty());
        }
    }
}

impl Clone for DownloadRequest {
    fn clone(&self) -> (r: Self)
        ensures
            r == *self,
    {
        DownloadRequest {
            url: self.url.clone(),
            platform: self.platform,
            output_path: match &self.output_path {
                Some(p) => Some(p.clone()),
                None => None,
            },
            overwrite: self.overwrite,
        }
    }
}

} // verus!
