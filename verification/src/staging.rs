//! The pending-upload stage: fully prepared (encrypted, quoted) upload
//! payloads, held by upload id until payment completes.
//!
//! Re-insertion at an existing id overwrites silently; `take` removes and
//! returns an entry, so a staged payload is committed at most once.

use vstd::prelude::*;

use crate::quote::StoreQuote;
use crate::types::{Chunk, DataMap, VaultKey};
use crate::upload::File;

verus! {

/// A fully prepared upload payload, keyed by upload kind.
pub enum PendingUploadData {
    SingleFile {
        file: File,
        datamap: DataMap,
        chunks: Vec<Chunk>,
        store_quote: StoreQuote,
        secret_key: VaultKey,
        add_to_vault: bool,
    },
    SingleFilePublic {
        file: File,
        datamap: DataMap,
        chunks: Vec<Chunk>,
        store_quote: StoreQuote,
        add_to_vault: bool,
        vault_secret_key: Option<VaultKey>,
    },
    PrivateArchive {
        files: Vec<File>,
        archive_name: String,
        archive_datamap: DataMap,
        chunks: Vec<Chunk>,
        store_quote: StoreQuote,
        add_to_vault: bool,
        vault_secret_key: Option<VaultKey>,
    },
    PublicArchive {
        files: Vec<File>,
        archive_name: String,
        archive_datamap: DataMap,
        file_datamaps: Vec<DataMap>,
        chunks: Vec<Chunk>,
        store_quote: StoreQuote,
        add_to_vault: bool,
        vault_secret_key: Option<VaultKey>,
    },
}

impl PendingUploadData {
    /// The store quote this payload was staged with.
    pub open spec fn spec_quote(&self) -> StoreQuote {
        match self {
            PendingUploadData::SingleFile { store_quote, .. } => *store_quote,
            PendingUploadData::SingleFilePublic { store_quote, .. } => *store_quote,
            PendingUploadData::PrivateArchive { store_quote, .. } => *store_quote,
            PendingUploadData::PublicArchive { store_quote, .. } => *store_quote,
        }
    }

    /// The encrypted chunks this payload will write.
    pub open spec fn spec_chunks(&self) -> Seq<Chunk> {
        match self {
            PendingUploadData::SingleFile { chunks, .. } => chunks@,
            PendingUploadData::SingleFilePublic { chunks, .. } => chunks@,
            PendingUploadData::PrivateArchive { chunks, .. } => chunks@,
            PendingUploadData::PublicArchive { chunks, .. } => chunks@,
        }
    }

    /// The store quote this payload was staged with.
    pub fn quote(&self) -> (r: &StoreQuote)
        ensures
            *r == self.spec_quote(),
    {
        match self {
            PendingUploadData::SingleFile { store_quote, .. } => store_quote,
            PendingUploadData::SingleFilePublic { store_quote, .. } => store_quote,
            PendingUploadData::PrivateArchive { store_quote, .. } => store_quote,
            PendingUploadData::PublicArchive { store_quote, .. } => store_quote,
        }
    }

    /// Whether this payload also updates the vault's metadata.
    pub open spec fn spec_add_to_vault(&self) -> bool {
        match self {
            PendingUploadData::SingleFile { add_to_vault, .. } => *add_to_vault,
            PendingUploadData::SingleFilePublic { add_to_vault, .. } => *add_to_vault,
            PendingUploadData::PrivateArchive { add_to_vault, .. } => *add_to_vault,
            PendingUploadData::PublicArchive { add_to_vault, .. } => *add_to_vault,
        }
    }

    /// Whether this payload also updates the vault's metadata.
    pub fn add_to_vault(&self) -> (r: bool)
        ensures
            r == self.spec_add_to_vault(),
    {
        match self {
            PendingUploadData::SingleFile { add_to_vault, .. } => *add_to_vault,
            PendingUploadData::SingleFilePublic { add_to_vault, .. } => *add_to_vault,
            PendingUploadData::PrivateArchive { add_to_vault, .. } => *add_to_vault,
            PendingUploadData::PublicArchive { add_to_vault, .. } => *add_to_vault,
        }
    }

    /// The encrypted chunks this payload will write.
    pub fn chunks(&self) -> (r: Vec<Chunk>)
        ensures
            r@ == self.spec_chunks(),
    {
        let source = match self {
            PendingUploadData::SingleFile { chunks, .. } => chunks,
            PendingUploadData::SingleFilePublic { chunks, .. } => chunks,
            PendingUploadData::PrivateArchive { chunks, .. } => chunks,
            PendingUploadData::PublicArchive { chunks, .. } => chunks,
        };
        let n = source.len();
        let mut out: Vec<Chunk> = Vec::new();
        let mut i: usize = 0;
        while i < n
            invariant
                n == source@.len(),
                source@ == self.spec_chunks(),
                0 <= i <= n,
                out@ == source@.take(i as int),
            decreases n - i,
        {
            out.push(source[i]);
            proof {
                assert(source@.take(i + 1) =~= source@.take(i as int).push(source@[i as int]));
            }
            i += 1;
        }
        proof {
            assert(source@.take(n as int) =~= source@);
        }
        out
    }

    /// The datamaps a public upload publishes after its file chunks: the
    /// per-file datamaps, then the archive datamap, so the archive
    /// reference goes up last. Private uploads publish none; their
    /// datamaps are the secret access and stay local.
    pub open spec fn spec_upload_datamaps(&self) -> Seq<DataMap> {
        match self {
            PendingUploadData::SingleFile { .. } => Seq::empty(),
            PendingUploadData::SingleFilePublic { datamap, .. } => seq![*datamap],
            PendingUploadData::PrivateArchive { .. } => Seq::empty(),
            PendingUploadData::PublicArchive { archive_datamap, file_datamaps, .. } => (
            file_datamaps@.push(*archive_datamap)),
        }
    }

    /// The datamaps a public upload publishes after its file chunks.
    pub fn upload_datamaps(&self) -> (r: Vec<DataMap>)
        ensures
            r@ == self.spec_upload_datamaps(),
    {
        match self {
            PendingUploadData::SingleFile { .. } => {
                let out: Vec<DataMap> = Vec::new();
                proof {
                    assert(out@ =~= self.spec_upload_datamaps());
                }
                out
            },
            PendingUploadData::SingleFilePublic { datamap, .. } => {
                let mut out: Vec<DataMap> = Vec::new();
                out.push(*datamap);
                proof {
                    assert(out@ =~= self.spec_upload_datamaps());
                }
                out
            },
            PendingUploadData::PrivateArchive { .. } => {
                let out: Vec<DataMap> = Vec::new();
                proof {
                    assert(out@ =~= self.spec_upload_datamaps());
                }
                out
            },
            PendingUploadData::PublicArchive { archive_datamap, file_datamaps, .. } => {
                let n = file_datamaps.len();
                let mut out: Vec<DataMap> = Vec::new();
                let mut i: usize = 0;
                while i < n
                    invariant
                        n == file_datamaps@.len(),
                        0 <= i <= n,
                        out@ == file_datamaps@.take(i as int),
                    decreases n - i,
                {
                    out.push(file_datamaps[i]);
                    proof {
                        assert(file_datamaps@.take(i + 1) =~= file_datamaps@.take(
                            i as int,
                        ).push(file_datamaps@[i as int]));
                    }
                    i += 1;
                }
                proof {
                    assert(file_datamaps@.take(n as int) =~= file_datamaps@);
                }
                out.push(*archive_datamap);
                out
            },
        }
    }

    /// How many encrypted chunks this payload will write.
    pub fn chunk_count(&self) -> (r: usize)
        ensures
            r == self.spec_chunks().len(),
    {
        match self {
            PendingUploadData::SingleFile { chunks, .. } => chunks.len(),
            PendingUploadData::SingleFilePublic { chunks, .. } => chunks.len(),
            PendingUploadData::PrivateArchive { chunks, .. } => chunks.len(),
            PendingUploadData::PublicArchive { chunks, .. } => chunks.len(),
        }
    }
}

/// One staged entry: the caller-supplied upload id and its payload.
pub struct StagedUpload {
    pub id: String,
    pub data: PendingUploadData,
}

/// Staged ids are pairwise distinct.
pub open spec fn wf_staged(s: Seq<StagedUpload>) -> bool {
    forall|i: int, j: int| 0 <= i < j < s.len() ==> s[i].id@ != s[j].id@
}

/// The mapping a sequence of staged entries denotes, later entries winning
/// on collision.
pub open spec fn staged_map(s: Seq<StagedUpload>) -> Map<Seq<char>, PendingUploadData>
    decreases s.len(),
{
    if s.len() == 0 {
        Map::empty()
    } else {
        staged_map(s.drop_last()).insert(s.last().id@, s.last().data)
    }
}

pub proof fn lemma_staged_map_dom(s: Seq<StagedUpload>, id: Seq<char>)
    ensures
        staged_map(s).dom().contains(id) <==> exists|i: int| 0 <= i < s.len() && s[i].id@ == id,
    decreases s.len(),
{
    if s.len() > 0 {
        lemma_staged_map_dom(s.drop_last(), id);
        if s.last().id@ == id {
            assert(s[s.len() - 1].id@ == id);
        } else if staged_map(s.drop_last()).dom().contains(id) {
            let i = choose|i: int| 0 <= i < s.drop_last().len() && s.drop_last()[i].id@ == id;
            assert(s[i].id@ == id);
        } else if exists|i: int| 0 <= i < s.len() && s[i].id@ == id {
            let i = choose|i: int| 0 <= i < s.len() && s[i].id@ == id;
            assert(s.drop_last()[i].id@ == id);
        }
    }
}

proof fn lemma_staged_map_at(s: Seq<StagedUpload>, i: int)
    requires
        wf_staged(s),
        0 <= i < s.len(),
    ensures
        staged_map(s).dom().contains(s[i].id@),
        staged_map(s)[s[i].id@] == s[i].data,
    decreases s.len(),
{
    if i == s.len() - 1 {
    } else {
        assert(s.drop_last()[i] == s[i]);
        lemma_staged_map_at(s.drop_last(), i);
        assert(s[i].id@ != s.last().id@);
    }
}

proof fn lemma_staged_map_update(s: Seq<StagedUpload>, i: int, e: StagedUpload)
    requires
        wf_staged(s),
        0 <= i < s.len(),
        e.id@ == s[i].id@,
    ensures
        wf_staged(s.update(i, e)),
        staged_map(s.update(i, e)) == staged_map(s).insert(e.id@, e.data),
    decreases s.len(),
{
    let t = s.update(i, e);
    if i == s.len() - 1 {
        assert(t.drop_last() =~= s.drop_last());
        assert(staged_map(t) =~= staged_map(s).insert(e.id@, e.data));
    } else {
        assert(t.drop_last() =~= s.drop_last().update(i, e));
        lemma_staged_map_update(s.drop_last(), i, e);
        assert(t.last() == s.last());
        assert(staged_map(t) =~= staged_map(s).insert(e.id@, e.data));
    }
}

proof fn lemma_staged_map_remove(s: Seq<StagedUpload>, i: int)
    requires
        wf_staged(s),
        0 <= i < s.len(),
    ensures
        wf_staged(s.remove(i)),
        staged_map(s.remove(i)) == staged_map(s).remove(s[i].id@),
    decreases s.len(),
{
    let t = s.remove(i);
    if i == s.len() - 1 {
        assert(t =~= s.drop_last());
        lemma_staged_map_dom(s.drop_last(), s[i].id@);
        assert(!staged_map(s.drop_last()).dom().contains(s[i].id@));
        assert(staged_map(t) =~= staged_map(s).remove(s[i].id@));
    } else {
        assert(t.drop_last() =~= s.drop_last().remove(i));
        lemma_staged_map_remove(s.drop_last(), i);
        assert(t.last() == s.last());
        assert(s[i].id@ != s.last().id@);
        assert(staged_map(t) =~= staged_map(s).remove(s[i].id@));
    }
}

/// Holds prepared uploads so that the expensive preparation is never
/// redone while waiting for payment approval.
pub struct PendingUploads {
    pub uploads: Vec<StagedUpload>,
}

impl View for PendingUploads {
    type V = Map<Seq<char>, PendingUploadData>;

    open spec fn view(&self) -> Map<Seq<char>, PendingUploadData> {
        staged_map(self.uploads@)
    }
}

impl PendingUploads {
    pub open spec fn wf(&self) -> bool {
        wf_staged(self.uploads@)
    }

    pub fn new() -> (r: PendingUploads)
        ensures
            r.wf(),
            r@ == Map::<Seq<char>, PendingUploadData>::empty(),
    {
        PendingUploads { uploads: Vec::new() }
    }

    /// Stages a payload at the given id; re-insertion at an existing id
    /// overwrites silently.
    pub fn stage(&mut self, upload_id: String, data: PendingUploadData)
        requires
            old(self).wf(),
        ensures
            final(self).wf(),
            final(self)@ == old(self)@.insert(upload_id@, data),
    {
        let n = self.uploads.len();
        let mut i: usize = 0;
        while i < n
            invariant
                self.wf(),
                self == old(self),
                n == self.uploads@.len(),
                0 <= i <= n,
                forall|k: int| 0 <= k < i ==> self.uploads@[k].id@ != upload_id@,
            decreases n - i,
        {
            if string_eq(&self.uploads[i].id, &upload_id) {
                let ghost old_uploads = self.uploads@;
                let entry = StagedUpload { id: upload_id, data };
                self.uploads.set(i, entry);
                proof {
                    lemma_staged_map_update(old_uploads, i as int, self.uploads@[i as int]);
                }
                return ;
            }
            i += 1;
        }
        let ghost old_uploads = self.uploads@;
        let entry = StagedUpload { id: upload_id, data };
        self.uploads.push(entry);
        proof {
            assert(self.uploads@.drop_last() =~= old_uploads);
            lemma_staged_map_dom(old_uploads, self.uploads@.last().id@);
        }
    }

    /// Stages a prepared private single-file upload.
    pub fn store_single_file(
        &mut self,
        upload_id: String,
        file: File,
        datamap: DataMap,
        chunks: Vec<Chunk>,
        store_quote: StoreQuote,
        secret_key: VaultKey,
        add_to_vault: bool,
    )
        requires
            old(self).wf(),
        ensures
            final(self).wf(),
            final(self)@ == old(self)@.insert(
                upload_id@,
                PendingUploadData::SingleFile {
                    file,
                    datamap,
                    chunks,
                    store_quote,
                    secret_key,
                    add_to_vault,
                },
            ),
    {
        self.stage(
            upload_id,
            PendingUploadData::SingleFile {
                file,
                datamap,
                chunks,
                store_quote,
                secret_key,
                add_to_vault,
            },
        );
    }

    /// Stages a prepared public single-file upload.
    pub fn store_single_file_public(
        &mut self,
        upload_id: String,
        file: File,
        datamap: DataMap,
        chunks: Vec<Chunk>,
        store_quote: StoreQuote,
        add_to_vault: bool,
        vault_secret_key: Option<VaultKey>,
    )
        requires
            old(self).wf(),
        ensures
            final(self).wf(),
            final(self)@ == old(self)@.insert(
                upload_id@,
                PendingUploadData::SingleFilePublic {
                    file,
                    datamap,
                    chunks,
                    store_quote,
                    add_to_vault,
                    vault_secret_key,
                },
            ),
    {
        self.stage(
            upload_id,
            PendingUploadData::SingleFilePublic {
                file,
                datamap,
                chunks,
                store_quote,
                add_to_vault,
                vault_secret_key,
            },
        );
    }

    /// Stages a prepared private archive upload.
    pub fn store_private_archive(
        &mut self,
        upload_id: String,
        files: Vec<File>,
        archive_name: String,
        archive_datamap: DataMap,
        chunks: Vec<Chunk>,
        store_quote: StoreQuote,
        add_to_vault: bool,
        vault_secret_key: Option<VaultKey>,
    )
        requires
            old(self).wf(),
        ensures
            final(self).wf(),
            final(self)@ == old(self)@.insert(
                upload_id@,
                PendingUploadData::PrivateArchive {
                    files,
                    archive_name,
                    archive_datamap,
                    chunks,
                    store_quote,
                    add_to_vault,
                    vault_secret_key,
                },
            ),
    {
        self.stage(
            upload_id,
            PendingUploadData::PrivateArchive {
                files,
                archive_name,
                archive_datamap,
                chunks,
                store_quote,
                add_to_vault,
                vault_secret_key,
            },
        );
    }

    /// Stages a prepared public archive upload.
    pub fn store_public_archive(
        &mut self,
        upload_id: String,
        files: Vec<File>,
        archive_name: String,
        archive_datamap: DataMap,
        file_datamaps: Vec<DataMap>,
        chunks: Vec<Chunk>,
        store_quote: StoreQuote,
        add_to_vault: bool,
        vault_secret_key: Option<VaultKey>,
    )
        requires
            old(self).wf(),
        ensures
            final(self).wf(),
            final(self)@ == old(self)@.insert(
                upload_id@,
                PendingUploadData::PublicArchive {
                    files,
                    archive_name,
                    archive_datamap,
                    file_datamaps,
                    chunks,
                    store_quote,
                    add_to_vault,
                    vault_secret_key,
                },
            ),
    {
        self.stage(
            upload_id,
            PendingUploadData::PublicArchive {
                files,
                archive_name,
                archive_datamap,
                file_datamaps,
                chunks,
                store_quote,
                add_to_vault,
                vault_secret_key,
            },
        );
    }

    /// Atomically removes and returns the payload staged at the given id,
    /// or `None` when none is staged there: already taken, or never staged.
    pub fn take(&mut self, upload_id: &String) -> (r: Option<PendingUploadData>)
        requires
            old(self).wf(),
        ensures
            final(self).wf(),
            match r {
                Some(data) => old(self)@.dom().contains(upload_id@) && data == old(
                    self,
                )@[upload_id@] && final(self)@ == old(self)@.remove(upload_id@),
                None => !old(self)@.dom().contains(upload_id@) && *final(self) == *old(self),
            },
    {
        let n = self.uploads.len();
        let mut i: usize = 0;
        while i < n
            invariant
                self.wf(),
                self == old(self),
                n == self.uploads@.len(),
                0 <= i <= n,
                forall|k: int| 0 <= k < i ==> self.uploads@[k].id@ != upload_id@,
            decreases n - i,
        {
            if string_eq(&self.uploads[i].id, upload_id) {
                proof {
                    lemma_staged_map_at(self.uploads@, i as int);
                    lemma_staged_map_remove(self.uploads@, i as int);
                }
                let entry = self.uploads.remove(i);
                return Some(entry.data);
            }
            i += 1;
        }
        proof {
            lemma_staged_map_dom(self.uploads@, upload_id@);
        }
        None
    }
}

/// Law: `take` hands a staged payload out exactly once. After a `take`
/// that returned the payload, the id is no longer staged, so a second
/// `take` at the same id returns `None`.
pub proof fn lemma_take_is_destructive(
    before: PendingUploads,
    after: PendingUploads,
    id: Seq<char>,
    taken: PendingUploadData,
)
    requires
        before@.dom().contains(id),
        taken == before@[id],
        after@ == before@.remove(id),
    ensures
        !after@.dom().contains(id),
{
}

fn string_eq(a: &String, b: &String) -> (r: bool)
    ensures
        r == (a@ == b@),
{
    a.eq(b)
}

} // verus!
