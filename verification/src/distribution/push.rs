//! Pushing an image: every blob that the manifest refers to is confirmed
//! present in the registry, by a check or by an upload, before the manifest
//! is sent.

use crate::descriptor::Manifest;
use crate::digest::{digest_views, Digest, DigestView};
use crate::error::Error;
use vstd::prelude::*;

verus! {

/// What is known of a blob in the registry.
#[derive(Debug, Clone, Copy, PartialEq, Eq, Hash, Structural)]
pub enum BlobStatus {
    /// Nobody has asked yet.
    Unknown,
    /// The registry lacks it.
    Missing,
    /// The registry has confirmed it.
    Present,
}

/// What a push has come to know, and done.
pub struct PushView {
    /// The digests of the blobs that the manifest refers to, in its order.
    pub blobs: Seq<DigestView>,
    /// What is known of each of them.
    pub status: Seq<BlobStatus>,
    /// Whether the registry has accepted the manifest.
    pub manifest_sent: bool,
}

/// What the caller is to do next.
pub enum PushActionView {
    /// Ask the registry whether it has this blob (`HEAD`).
    CheckBlob(DigestView),
    /// Upload this blob.
    UploadBlob(DigestView),
    /// Send the manifest (`PUT`).
    PutManifest,
    /// Nothing is left to do.
    Done,
}

/// What the caller reports.
pub enum PushEventView {
    /// The registry said whether it has this blob.
    Checked(DigestView, bool),
    /// The registry confirmed the upload of this blob.
    Uploaded(DigestView),
    /// The registry accepted the manifest.
    ManifestPut,
}

impl PushEventView {
    /// Whether this event confirms that the registry has the blob `d`.
    pub open spec fn confirms(self, d: DigestView) -> bool {
        self == PushEventView::Checked(d, true) || self == PushEventView::Uploaded(d)
    }
}

/// Whether one of `events` confirms that the registry has the blob `d`.
pub open spec fn confirmed(events: Seq<PushEventView>, d: DigestView) -> bool {
    exists|k: int| 0 <= k < events.len() && (#[trigger] events[k]).confirms(d)
}

/// The statuses `status` with that of each blob equal to `d` set to `to`,
/// unless it is `Present` already.
pub open spec fn mark(
    blobs: Seq<DigestView>,
    status: Seq<BlobStatus>,
    d: DigestView,
    to: BlobStatus,
) -> Seq<BlobStatus> {
    Seq::new(
        status.len(),
        |i: int|
            if 0 <= i < blobs.len() && blobs[i] == d && status[i] != BlobStatus::Present {
                to
            } else {
                status[i]
            },
    )
}

impl PushView {
    /// The push of a manifest that refers to `blobs`, before anything is
    /// known.
    pub open spec fn begin(blobs: Seq<DigestView>) -> PushView {
        PushView {
            blobs,
            status: Seq::new(blobs.len(), |i: int| BlobStatus::Unknown),
            manifest_sent: false,
        }
    }

    /// Whether the registry has confirmed every blob.
    pub open spec fn all_present(self) -> bool {
        forall|i: int| 0 <= i < self.status.len() ==> self.status[i] == BlobStatus::Present
    }

    /// There is a status for each blob, and the manifest counts as sent
    /// only where every blob is confirmed.
    pub open spec fn wf(self) -> bool {
        &&& self.blobs.len() == self.status.len()
        &&& self.manifest_sent ==> self.all_present()
    }

    /// Those of the first `n` blobs that are not confirmed, in their order.
    pub open spec fn open_list(self, n: int) -> Seq<DigestView>
        decreases n,
    {
        if n <= 0 {
            Seq::empty()
        } else if self.status[n - 1] != BlobStatus::Present {
            self.open_list(n - 1).push(self.blobs[n - 1])
        } else {
            self.open_list(n - 1)
        }
    }

    /// The first blob that is not confirmed; the number of blobs if there is
    /// none.
    pub open spec fn first_open(self, from: int) -> int
        decreases self.status.len() - from,
    {
        if from < 0 || from >= self.status.len() {
            self.status.len() as int
        } else if self.status[from] != BlobStatus::Present {
            from
        } else {
            self.first_open(from + 1)
        }
    }

    /// What to do next: deal with the first blob that is not confirmed, by a
    /// check if nothing is known of it and by an upload if it is missing;
    /// when every blob is confirmed, send the manifest; then nothing.
    pub open spec fn next_action(self) -> PushActionView {
        let k = self.first_open(0);
        if k < self.status.len() {
            if self.status[k] == BlobStatus::Unknown {
                PushActionView::CheckBlob(self.blobs[k])
            } else {
                PushActionView::UploadBlob(self.blobs[k])
            }
        } else if !self.manifest_sent {
            PushActionView::PutManifest
        } else {
            PushActionView::Done
        }
    }

    /// The state after the event `e`. That the manifest was accepted counts
    /// only where every blob is confirmed.
    pub open spec fn apply(self, e: PushEventView) -> PushView {
        match e {
            PushEventView::Checked(d, exists) => PushView {
                status: mark(
                    self.blobs,
                    self.status,
                    d,
                    if exists {
                        BlobStatus::Present
                    } else {
                        BlobStatus::Missing
                    },
                ),
                ..self
            },
            PushEventView::Uploaded(d) => PushView {
                status: mark(self.blobs, self.status, d, BlobStatus::Present),
                ..self
            },
            PushEventView::ManifestPut => if self.all_present() {
                PushView { manifest_sent: true, ..self }
            } else {
                self
            },
        }
    }

    /// The state after the events `events`, one after another.
    pub open spec fn run(self, events: Seq<PushEventView>) -> PushView
        decreases events.len(),
    {
        if events.len() == 0 {
            self
        } else {
            self.run(events.drop_last()).apply(events.last())
        }
    }
}

/// What `first_open` returns: every blob before it is confirmed, and it is
/// not, unless it is the number of blobs.
pub proof fn lemma_first_open(s: PushView, from: int)
    requires
        0 <= from <= s.status.len(),
    ensures
        from <= s.first_open(from) <= s.status.len(),
        forall|i: int| from <= i < s.first_open(from) ==> s.status[i] == BlobStatus::Present,
        s.first_open(from) < s.status.len() ==> s.status[s.first_open(from)]
            != BlobStatus::Present,
    decreases s.status.len() - from,
{
    if from < s.status.len() && s.status[from] == BlobStatus::Present {
        lemma_first_open(s, from + 1);
    }
}

/// The manifest comes last: whatever the caller reports and in whatever
/// order, when the push asks for the manifest to be sent, or counts it as
/// sent, every blob that the manifest refers to was confirmed by an earlier
/// event.
pub proof fn lemma_manifest_last(blobs: Seq<DigestView>, events: Seq<PushEventView>)
    ensures
        ({
            let s = PushView::begin(blobs).run(events);
            &&& s.wf()
            &&& s.blobs == blobs
            &&& forall|i: int|
                0 <= i < blobs.len() && s.status[i] == BlobStatus::Present ==> confirmed(
                    events,
                    #[trigger] blobs[i],
                )
            &&& s.next_action() is PutManifest || s.manifest_sent ==> forall|i: int|
                0 <= i < blobs.len() ==> confirmed(events, #[trigger] blobs[i])
        }),
    decreases events.len(),
{
    let s = PushView::begin(blobs).run(events);
    if events.len() > 0 {
        let before = events.drop_last();
        let prev = PushView::begin(blobs).run(before);
        let e = events.last();
        lemma_manifest_last(blobs, before);
        assert forall|i: int|
            0 <= i < blobs.len() && s.status[i] == BlobStatus::Present implies confirmed(
            events,
            #[trigger] blobs[i],
        ) by {
            if prev.status[i] == BlobStatus::Present {
                assert(confirmed(before, blobs[i]));
                let k = choose|k: int|
                    0 <= k < before.len() && (#[trigger] before[k]).confirms(blobs[i]);
                assert(events[k] == before[k]);
            } else {
                assert(events[events.len() - 1].confirms(blobs[i]));
            }
        }
    }
    lemma_first_open(s, 0);
    assert(s.next_action() is PutManifest || s.manifest_sent ==> s.all_present());
}

/// A push in progress.
#[derive(Debug, PartialEq, Eq)]
pub struct Push {
    blobs: Vec<Digest>,
    status: Vec<BlobStatus>,
    manifest_sent: bool,
}

/// What the caller is to do next.
#[derive(Debug, PartialEq, Eq)]
pub enum PushAction {
    /// Ask the registry whether it has this blob (`HEAD`).
    CheckBlob(Digest),
    /// Upload this blob.
    UploadBlob(Digest),
    /// Send the manifest (`PUT`).
    PutManifest,
    /// Nothing is left to do.
    Done,
}

impl View for PushAction {
    type V = PushActionView;

    open spec fn view(&self) -> PushActionView {
        match self {
            PushAction::CheckBlob(d) => PushActionView::CheckBlob(d@),
            PushAction::UploadBlob(d) => PushActionView::UploadBlob(d@),
            PushAction::PutManifest => PushActionView::PutManifest,
            PushAction::Done => PushActionView::Done,
        }
    }
}

impl View for Push {
    type V = PushView;

    closed spec fn view(&self) -> PushView {
        PushView {
            blobs: digest_views(self.blobs@),
            status: self.status@,
            manifest_sent: self.manifest_sent,
        }
    }
}

impl Push {
    /// What holds of every value of this type.
    #[verifier::type_invariant]
    pub open spec fn inv(self) -> bool {
        self@.wf()
    }

    /// The push of the image with the manifest `manifest`.
    pub fn new(manifest: &Manifest) -> (p: Push)
        ensures
            p@ == PushView::begin(manifest@.references()),
            p@.wf(),
    {
        let blobs = manifest.references();
        let mut status: Vec<BlobStatus> = Vec::new();
        let mut i: usize = 0;
        while i < blobs.len()
            invariant
                0 <= i <= blobs@.len(),
                status@.len() == i,
                forall|j: int| 0 <= j < i ==> status@[j] == BlobStatus::Unknown,
            decreases blobs@.len() - i,
        {
            status.push(BlobStatus::Unknown);
            i += 1;
        }
        let p = Push { blobs, status, manifest_sent: false };
        assert(p@.status =~= PushView::begin(manifest@.references()).status);
        p
    }

    /// What to do next.
    pub fn next_action(&self) -> (a: PushAction)
        ensures
            a@ == self@.next_action(),
            a is PutManifest ==> self@.all_present(),
    {
        proof {
            use_type_invariant(self);
            lemma_first_open(self@, 0);
        }
        let mut k: usize = 0;
        while k < self.status.len() && self.status[k] == BlobStatus::Present
            invariant
                0 <= k <= self.status@.len(),
                self@.first_open(0) == self@.first_open(k as int),
                self@.status == self.status@,
            decreases self.status@.len() - k,
        {
            k += 1;
        }
        if k < self.status.len() {
            if self.status[k] == BlobStatus::Unknown {
                PushAction::CheckBlob(self.blobs[k].clone())
            } else {
                PushAction::UploadBlob(self.blobs[k].clone())
            }
        } else if !self.manifest_sent {
            PushAction::PutManifest
        } else {
            PushAction::Done
        }
    }

    /// The blobs that are not confirmed, in the order of the manifest: they
    /// may be dealt with in any order, or at the same time.
    pub fn open_blobs(&self) -> (r: Vec<Digest>)
        ensures
            digest_views(r@) == self@.open_list(self@.blobs.len() as int),
    {
        proof {
            use_type_invariant(self);
        }
        let mut r: Vec<Digest> = Vec::new();
        let mut i: usize = 0;
        assert(digest_views(r@) =~= self@.open_list(0));
        while i < self.blobs.len()
            invariant
                0 <= i <= self.blobs@.len() == self.status@.len(),
                self@.blobs == digest_views(self.blobs@),
                self@.status == self.status@,
                digest_views(r@) == self@.open_list(i as int),
            decreases self.blobs@.len() - i,
        {
            if self.status[i] != BlobStatus::Present {
                let ghost before = digest_views(r@);
                r.push(self.blobs[i].clone());
                assert(digest_views(r@) =~= before.push(self@.blobs[i as int]));
            }
            i += 1;
        }
        r
    }

    fn mark(&mut self, d: &Digest, to: BlobStatus)
        ensures
            final(self)@ == (PushView {
                status: mark(old(self)@.blobs, old(self)@.status, d@, to),
                ..old(self)@
            }),
    {
        proof {
            use_type_invariant(&*self);
        }
        let ghost blobs = self@.blobs;
        let ghost before = self@.status;
        let mut status: Vec<BlobStatus> = Vec::new();
        let mut i: usize = 0;
        while i < self.blobs.len()
            invariant
                0 <= i <= self.blobs@.len() == self.status@.len(),
                self@.blobs == blobs,
                blobs == digest_views(self.blobs@),
                self.status@ == before,
                status@.len() == i,
                forall|j: int| 0 <= j < i ==> status@[j] == mark(blobs, before, d@, to)[j],
            decreases self.blobs@.len() - i,
        {
            if self.status[i] != BlobStatus::Present && self.blobs[i].equals(d) {
                status.push(to);
            } else {
                status.push(self.status[i]);
            }
            i += 1;
        }
        assert(status@ =~= mark(blobs, before, d@, to));
        proof {
            if self.manifest_sent {
                assert forall|j: int| 0 <= j < status@.len() implies status@[j]
                    == BlobStatus::Present by {
                    assert(before[j] == BlobStatus::Present);
                }
            }
        }
        core::mem::swap(&mut status, &mut self.status);
    }

    /// Takes note of what the registry said of the blob `d`: that it has it,
    /// or that it lacks it.
    pub fn on_check(&mut self, d: &Digest, exists: bool)
        ensures
            final(self)@ == old(self)@.apply(PushEventView::Checked(d@, exists)),
    {
        if exists {
            self.mark(d, BlobStatus::Present);
        } else {
            self.mark(d, BlobStatus::Missing);
        }
    }

    /// Takes note that the registry confirmed the upload of the blob `d`.
    pub fn on_uploaded(&mut self, d: &Digest)
        ensures
            final(self)@ == old(self)@.apply(PushEventView::Uploaded(d@)),
    {
        self.mark(d, BlobStatus::Present);
    }

    /// Takes note that the registry accepted the manifest. Where a blob is
    /// not confirmed the manifest cannot have been sent, and the push stays
    /// as it is.
    pub fn on_manifest_put(&mut self) -> (r: Result<(), Error>)
        ensures
            final(self)@ == old(self)@.apply(PushEventView::ManifestPut),
            r is Ok <==> old(self)@.all_present(),
            r matches Err(e) ==> e == Error::ProtocolError,
    {
        proof {
            use_type_invariant(&*self);
            lemma_first_open(self@, 0);
        }
        match self.next_action() {
            PushAction::PutManifest => {
                self.manifest_sent = true;
                Ok(())
            },
            PushAction::Done => Ok(()),
            _ => Err(Error::ProtocolError),
        }
    }

    /// Whether the registry has accepted the manifest.
    pub fn is_done(&self) -> (b: bool)
        ensures
            b == self@.manifest_sent,
            b ==> self@.all_present(),
    {
        proof {
            use_type_invariant(self);
        }
        self.manifest_sent
    }
}

} // verus!
