//! Blobs and the pool that holds them: an arena of immutable byte sequences
//! addressed by digest, in which no digest occurs twice.

use crate::digest::{digest_of, Digest, DigestView};
use crate::error::Error;
use crate::search::{any, first, lemma_any, lemma_first_from_is, lemma_first_push};
use vstd::prelude::*;

verus! {

/// The predicate "hashes to `d`".
pub open spec fn has_digest(d: DigestView) -> spec_fn(Seq<u8>) -> bool {
    |b: Seq<u8>| digest_of(b) == d
}

/// No two blobs of `s` have the same digest.
pub open spec fn distinct(s: Seq<Seq<u8>>) -> bool {
    forall|i: int, j: int|
        #![trigger s[i], s[j]]
        0 <= i < j < s.len() ==> digest_of(s[i]) != digest_of(s[j])
}

/// The digest of every blob of `s` is well formed.
pub open spec fn hashed(s: Seq<Seq<u8>>) -> bool {
    forall|i: int| 0 <= i < s.len() ==> (#[trigger] digest_of(s[i])).wf()
}

/// Whether `s` holds a blob with digest `d`.
pub open spec fn pool_has(s: Seq<Seq<u8>>, d: DigestView) -> bool {
    any(s, has_digest(d))
}

/// The blob of `s` with digest `d`.
pub open spec fn pool_get(s: Seq<Seq<u8>>, d: DigestView) -> Option<Seq<u8>> {
    if pool_has(s, d) {
        Some(s[first(s, has_digest(d))])
    } else {
        None
    }
}

/// `s` with `data` added at the end, unless a blob with its digest is there
/// already: then `s`, untouched.
pub open spec fn pool_insert(s: Seq<Seq<u8>>, data: Seq<u8>) -> Seq<Seq<u8>> {
    if pool_has(s, digest_of(data)) {
        s
    } else {
        s.push(data)
    }
}

/// `s` with each blob of `blobs` inserted in turn.
pub open spec fn pool_insert_all(s: Seq<Seq<u8>>, blobs: Seq<Seq<u8>>) -> Seq<Seq<u8>>
    decreases blobs.len(),
{
    if blobs.len() == 0 {
        s
    } else {
        pool_insert(pool_insert_all(s, blobs.drop_last()), blobs.last())
    }
}

/// Membership, spelled out: some blob of `s` hashes to `d`.
pub proof fn lemma_pool_has(s: Seq<Seq<u8>>, d: DigestView)
    ensures
        pool_has(s, d) <==> exists|i: int| 0 <= i < s.len() && digest_of(#[trigger] s[i]) == d,
        pool_get(s, d) matches Some(b) ==> digest_of(b) == d && s.contains(b),
{
    lemma_any(s, has_digest(d));
    if pool_has(s, d) {
        let k = first(s, has_digest(d));
        assert(has_digest(d)(s[k]));
    }
    if exists|i: int| 0 <= i < s.len() && digest_of(#[trigger] s[i]) == d {
        let i = choose|i: int| 0 <= i < s.len() && digest_of(#[trigger] s[i]) == d;
        assert(has_digest(d)(s[i]));
    }
}

/// Insertion is idempotent and disturbs nothing: the pool stays free of
/// duplicates, the new content is present, every blob that was present is
/// present unchanged, and nothing else appears.
pub proof fn lemma_pool_insert(s: Seq<Seq<u8>>, data: Seq<u8>)
    requires
        distinct(s),
    ensures
        distinct(pool_insert(s, data)),
        pool_has(pool_insert(s, data), digest_of(data)),
        pool_insert(pool_insert(s, data), data) == pool_insert(s, data),
        forall|d: DigestView|
            pool_has(s, d) ==> pool_get(pool_insert(s, data), d) == pool_get(s, d),
        forall|d: DigestView| #[trigger]
            pool_has(pool_insert(s, data), d) <==> pool_has(s, d) || d == digest_of(data),
        !pool_has(s, digest_of(data)) ==> pool_get(pool_insert(s, data), digest_of(data)) == Some(
            data,
        ),
{
    let t = pool_insert(s, data);
    let n = digest_of(data);
    lemma_pool_has(s, n);
    lemma_first_push(s, has_digest(n), data);
    assert(has_digest(n)(data));
    assert forall|d: DigestView| pool_has(s, d) implies pool_get(t, d) == pool_get(s, d) by {
        lemma_first_push(s, has_digest(d), data);
        lemma_any(s, has_digest(d));
    }
    assert forall|d: DigestView| pool_has(t, d) <==> pool_has(s, d) || d == n by {
        lemma_first_push(s, has_digest(d), data);
        lemma_any(s, has_digest(d));
        if d == n {
        } else {
            assert(!has_digest(d)(data));
        }
    }
    if !pool_has(s, n) {
        assert forall|i: int, j: int| 0 <= i < j < t.len() implies digest_of(t[i]) != digest_of(
            t[j],
        ) by {
            if j == s.len() {
                assert(t[i] == s[i]);
            } else {
                assert(t[i] == s[i] && t[j] == s[j]);
            }
        }
        lemma_pool_has(t, n);
    }
}

/// Inserting many blobs: the pool stays free of duplicates, holds every one
/// of them, keeps what it had, and gains nothing else.
pub proof fn lemma_pool_insert_all(s: Seq<Seq<u8>>, blobs: Seq<Seq<u8>>)
    requires
        distinct(s),
    ensures
        distinct(pool_insert_all(s, blobs)),
        forall|i: int|
            0 <= i < blobs.len() ==> pool_has(
                pool_insert_all(s, blobs),
                digest_of(#[trigger] blobs[i]),
            ),
        forall|d: DigestView|
            pool_has(s, d) ==> pool_get(pool_insert_all(s, blobs), d) == pool_get(s, d),
        forall|d: DigestView| #[trigger]
            pool_has(pool_insert_all(s, blobs), d) <==> pool_has(s, d) || exists|i: int|
                0 <= i < blobs.len() && digest_of(#[trigger] blobs[i]) == d,
    decreases blobs.len(),
{
    if blobs.len() > 0 {
        let front = blobs.drop_last();
        let mid = pool_insert_all(s, front);
        let t = pool_insert_all(s, blobs);
        lemma_pool_insert_all(s, front);
        lemma_pool_insert(mid, blobs.last());
        assert forall|i: int| 0 <= i < blobs.len() implies pool_has(
            t,
            digest_of(#[trigger] blobs[i]),
        ) by {
            if i < front.len() {
                assert(front[i] == blobs[i]);
            }
        }
        assert forall|d: DigestView|
            pool_has(t, d) <==> pool_has(s, d) || exists|i: int|
                0 <= i < blobs.len() && digest_of(#[trigger] blobs[i]) == d by {
            if pool_has(t, d) && !pool_has(s, d) {
                if d == digest_of(blobs.last()) {
                    assert(digest_of(blobs[blobs.len() - 1]) == d);
                } else {
                    let i = choose|i: int|
                        0 <= i < front.len() && digest_of(#[trigger] front[i]) == d;
                    assert(front[i] == blobs[i]);
                }
            }
            if exists|i: int| 0 <= i < blobs.len() && digest_of(#[trigger] blobs[i]) == d {
                let i = choose|i: int| 0 <= i < blobs.len() && digest_of(#[trigger] blobs[i]) == d;
                if i < front.len() {
                    assert(front[i] == blobs[i]);
                }
            }
        }
    }
}

/// No two of the contents `s` collide: those with the same digest are the
/// same bytes.
pub open spec fn collision_free(s: Seq<Seq<u8>>) -> bool {
    forall|i: int, j: int|
        #![trigger s[i], s[j]]
        0 <= i < s.len() && 0 <= j < s.len() && digest_of(s[i]) == digest_of(s[j]) ==> s[i] == s[j]
}

/// Every blob of a pool after insertions was in the pool before, or is one
/// of those that were inserted.
pub proof fn lemma_pool_insert_all_from(s: Seq<Seq<u8>>, blobs: Seq<Seq<u8>>)
    ensures
        forall|i: int|
            0 <= i < pool_insert_all(s, blobs).len() ==> s.contains(
                #[trigger] pool_insert_all(s, blobs)[i],
            ) || blobs.contains(pool_insert_all(s, blobs)[i]),
    decreases blobs.len(),
{
    if blobs.len() > 0 {
        let front = blobs.drop_last();
        let mid = pool_insert_all(s, front);
        let t = pool_insert_all(s, blobs);
        lemma_pool_insert_all_from(s, front);
        assert forall|i: int| 0 <= i < t.len() implies s.contains(#[trigger] t[i])
            || blobs.contains(t[i]) by {
            if i < mid.len() {
                assert(t[i] == mid[i]);
                if front.contains(mid[i]) {
                    let k = choose|k: int| 0 <= k < front.len() && front[k] == mid[i];
                    assert(blobs[k] == mid[i]);
                }
            } else {
                assert(t[i] == blobs[blobs.len() - 1]);
            }
        }
    }
}

/// Where every blob of a pool with the digest of `x` is `x` itself, and
/// there is one, the pool returns `x` for that digest.
pub proof fn lemma_pool_get_is(p: Seq<Seq<u8>>, x: Seq<u8>)
    requires
        pool_has(p, digest_of(x)),
        forall|i: int| 0 <= i < p.len() && digest_of(#[trigger] p[i]) == digest_of(x) ==> p[i] == x,
    ensures
        pool_get(p, digest_of(x)) == Some(x),
{
    lemma_any(p, has_digest(digest_of(x)));
    let k = first(p, has_digest(digest_of(x)));
    assert(has_digest(digest_of(x))(p[k]));
}

/// An immutable byte sequence together with its digest.
#[derive(Debug, PartialEq, Eq)]
pub struct Blob {
    digest: Digest,
    data: Vec<u8>,
}

impl View for Blob {
    type V = Seq<u8>;

    closed spec fn view(&self) -> Seq<u8> {
        self.data@
    }
}

impl Blob {
    /// The digest kept beside the bytes.
    pub closed spec fn address(self) -> DigestView {
        self.digest@
    }

    /// What holds of every value of this type.
    #[verifier::type_invariant]
    pub open spec fn inv(self) -> bool {
        self.address() == digest_of(self@)
    }

    /// Hashes `data` and keeps both.
    pub fn new(data: Vec<u8>) -> (b: Blob)
        ensures
            b@ == data@,
    {
        let digest = Digest::of_bytes(data.as_slice());
        Blob { digest, data }
    }

    /// The digest that addresses this blob.
    pub fn digest(&self) -> (d: &Digest)
        ensures
            d@ == digest_of(self@),
    {
        proof {
            use_type_invariant(self);
        }
        &self.digest
    }

    /// The bytes.
    pub fn data(&self) -> (d: &Vec<u8>)
        ensures
            d@ == self@,
    {
        &self.data
    }

    /// The number of bytes.
    pub fn size(&self) -> (n: usize)
        ensures
            n == self@.len(),
    {
        self.data.len()
    }
}

impl Clone for Blob {
    fn clone(&self) -> (b: Self)
        ensures
            b@ == self@,
    {
        proof {
            use_type_invariant(self);
        }
        Blob { digest: self.digest.clone(), data: self.data.clone() }
    }
}

/// The contents of a sequence of blobs.
pub open spec fn blob_views(s: Seq<Blob>) -> Seq<Seq<u8>> {
    s.map_values(|b: Blob| b@)
}

/// Blobs indexed by digest, in the order in which they came. The view is the
/// sequence of their contents; no two have the same digest.
#[derive(Debug, PartialEq, Eq)]
pub struct BlobPool {
    blobs: Vec<Blob>,
}

impl View for BlobPool {
    type V = Seq<Seq<u8>>;

    closed spec fn view(&self) -> Seq<Seq<u8>> {
        self.blobs@.map_values(|b: Blob| b@)
    }
}

impl BlobPool {
    /// What holds of every value of this type.
    #[verifier::type_invariant]
    pub open spec fn inv(self) -> bool {
        distinct(self@) && hashed(self@)
    }

    /// The empty pool.
    pub fn new() -> (p: BlobPool)
        ensures
            p@ == Seq::<Seq<u8>>::empty(),
    {
        let p = BlobPool { blobs: Vec::new() };
        assert(p@ =~= Seq::<Seq<u8>>::empty());
        p
    }

    /// The number of blobs.
    pub fn len(&self) -> (n: usize)
        ensures
            n == self@.len(),
            distinct(self@),
            hashed(self@),
    {
        proof {
            use_type_invariant(self);
        }
        self.blobs.len()
    }

    /// The blob that came `i`-th.
    pub fn at(&self, i: usize) -> (b: &Blob)
        requires
            i < self@.len(),
        ensures
            b@ == self@[i as int],
    {
        &self.blobs[i]
    }

    /// The place of the blob with digest `d`; the length if there is none.
    pub fn find(&self, d: &Digest) -> (k: usize)
        ensures
            k == first(self@, has_digest(d@)),
            k <= self@.len(),
            k < self@.len() <==> pool_has(self@, d@),
    {
        let mut k: usize = 0;
        let mut found = false;
        while !found && k < self.blobs.len()
            invariant
                0 <= k <= self@.len(),
                self@.len() == self.blobs@.len(),
                forall|i: int| 0 <= i < k ==> !has_digest(d@)(#[trigger] self@[i]),
                found ==> k < self@.len() && has_digest(d@)(self@[k as int]),
            decreases self@.len() - k + (if found { 0int } else { 1int }),
        {
            let b = &self.blobs[k];
            if b.digest().equals(d) {
                found = true;
            } else {
                k += 1;
            }
        }
        proof {
            lemma_first_from_is(self@, has_digest(d@), 0, k as int);
        }
        k
    }

    /// Whether a blob with digest `d` is present.
    pub fn contains(&self, d: &Digest) -> (b: bool)
        ensures
            b == pool_has(self@, d@),
    {
        self.find(d) < self.blobs.len()
    }

    /// The blob with digest `d`, if it is present.
    pub fn get(&self, d: &Digest) -> (r: Option<&Blob>)
        ensures
            r is Some <==> pool_has(self@, d@),
            r matches Some(b) ==> pool_get(self@, d@) == Some(b@) && digest_of(b@) == d@,
    {
        let k = self.find(d);
        if k < self.blobs.len() {
            proof {
                lemma_pool_has(self@, d@);
            }
            Some(&self.blobs[k])
        } else {
            None
        }
    }

    /// Adds `data` unless a blob with its digest is present, which is then
    /// left untouched. Returns the digest either way.
    pub fn insert(&mut self, data: Vec<u8>) -> (d: Digest)
        ensures
            final(self)@ == pool_insert(old(self)@, data@),
            d@ == digest_of(data@),
            pool_has(final(self)@, d@),
    {
        let blob = Blob::new(data);
        let d = blob.digest().clone();
        self.insert_blob(blob);
        d
    }

    /// Adds `blob` unless a blob with its digest is present, which is then
    /// left untouched.
    pub fn insert_blob(&mut self, blob: Blob)
        ensures
            final(self)@ == pool_insert(old(self)@, blob@),
            pool_has(final(self)@, digest_of(blob@)),
    {
        proof {
            use_type_invariant(&*self);
            lemma_pool_insert(self@, blob@);
        }
        let k = self.find(blob.digest());
        if k == self.blobs.len() {
            let ghost before = self@;
            let mut blobs: Vec<Blob> = Vec::new();
            assert(blobs@.map_values(|b: Blob| b@) =~= Seq::<Seq<u8>>::empty());
            core::mem::swap(&mut self.blobs, &mut blobs);
            let h = blob.digest().hex();
            blobs.push(blob);
            assert(blobs@.map_values(|b: Blob| b@) =~= before.push(blob@));
            core::mem::swap(&mut self.blobs, &mut blobs);
        }
    }

    /// Adds each blob of `blobs` in turn, as `insert_blob` does.
    pub fn insert_all(&mut self, blobs: Vec<Blob>)
        ensures
            final(self)@ == pool_insert_all(old(self)@, blob_views(blobs@)),
    {
        let ghost given = blob_views(blobs@);
        let ghost before = self@;
        for blob in it: blobs
            invariant
                blob_views(it.seq()) == given,
                self@ == pool_insert_all(before, given.take(it.index() as int)),
        {
            proof {
                let t = given.take(it.index() + 1);
                assert(t.drop_last() =~= given.take(it.index() as int));
                assert(t.last() == given[it.index() as int]);
                assert(it.seq()[it.index() as int]@ == given[it.index() as int]);
            }
            self.insert_blob(blob);
        }
        assert(given.take(given.len() as int) =~= given);
    }

    /// The blobs, in the order in which they came.
    pub fn into_blobs(self) -> (v: Vec<Blob>)
        ensures
            blob_views(v@) == self@,
            distinct(self@),
            hashed(self@),
    {
        proof {
            use_type_invariant(&self);
        }
        self.blobs
    }

    /// Adds `data` if it hashes to `expected`; otherwise the pool stays as it
    /// is and the mismatch is reported.
    pub fn insert_verified(&mut self, expected: &Digest, data: Vec<u8>) -> (r: Result<(), Error>)
        ensures
            r is Ok <==> digest_of(data@) == expected@,
            r is Ok ==> final(self)@ == pool_insert(old(self)@, data@) && pool_has(
                final(self)@,
                expected@,
            ),
            r matches Err(e) ==> e == Error::DigestMismatch && final(self)@ == old(self)@,
    {
        let blob = Blob::new(data);
        if !blob.digest().equals(expected) {
            return Err(Error::DigestMismatch);
        }
        self.insert_blob(blob);
        Ok(())
    }
}

} // verus!
