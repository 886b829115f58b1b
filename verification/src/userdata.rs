//! The vault's user data: the named archives and files the vault lists,
//! and the edits the caller can make to them.
//!
//! Each listing maps a key (a content address or a datamap reference) to a
//! display name. Edits are pure: they take the current user data and
//! return the new value; fetching and persisting it is the caller's.

use vstd::prelude::*;

use crate::upload::VaultError;

verus! {

/// Keys of a listing are pairwise distinct.
pub open spec fn wf_kv(s: Seq<(u64, String)>) -> bool {
    forall|i: int, j: int| 0 <= i < j < s.len() ==> s[i].0 != s[j].0
}

/// The mapping a listing denotes, later entries winning on collision.
pub open spec fn kv_map(s: Seq<(u64, String)>) -> Map<u64, Seq<char>>
    decreases s.len(),
{
    if s.len() == 0 {
        Map::empty()
    } else {
        kv_map(s.drop_last()).insert(s.last().0, s.last().1@)
    }
}

pub proof fn lemma_kv_map_dom(s: Seq<(u64, String)>, key: u64)
    ensures
        kv_map(s).dom().contains(key) <==> exists|i: int| 0 <= i < s.len() && s[i].0 == key,
    decreases s.len(),
{
    if s.len() > 0 {
        lemma_kv_map_dom(s.drop_last(), key);
        if s.last().0 == key {
            assert(s[s.len() - 1].0 == key);
        } else if kv_map(s.drop_last()).dom().contains(key) {
            let i = choose|i: int| 0 <= i < s.drop_last().len() && s.drop_last()[i].0 == key;
            assert(s[i].0 == key);
        } else if exists|i: int| 0 <= i < s.len() && s[i].0 == key {
            let i = choose|i: int| 0 <= i < s.len() && s[i].0 == key;
            assert(s.drop_last()[i].0 == key);
        }
    }
}

proof fn lemma_kv_map_update(s: Seq<(u64, String)>, i: int, e: (u64, String))
    requires
        wf_kv(s),
        0 <= i < s.len(),
        e.0 == s[i].0,
    ensures
        wf_kv(s.update(i, e)),
        kv_map(s.update(i, e)) == kv_map(s).insert(e.0, e.1@),
    decreases s.len(),
{
    let t = s.update(i, e);
    if i == s.len() - 1 {
        assert(t.drop_last() =~= s.drop_last());
        assert(kv_map(t) =~= kv_map(s).insert(e.0, e.1@));
    } else {
        assert(t.drop_last() =~= s.drop_last().update(i, e));
        lemma_kv_map_update(s.drop_last(), i, e);
        assert(t.last() == s.last());
        assert(kv_map(t) =~= kv_map(s).insert(e.0, e.1@));
    }
}

/// Whether a listing holds the given key.
pub fn kv_contains_key(v: &Vec<(u64, String)>, key: u64) -> (r: bool)
    ensures
        r == kv_map(v@).dom().contains(key),
{
    let n = v.len();
    let mut i: usize = 0;
    while i < n
        invariant
            n == v@.len(),
            0 <= i <= n,
            forall|k: int| 0 <= k < i ==> v@[k].0 != key,
        decreases n - i,
    {
        if v[i].0 == key {
            proof {
                lemma_kv_map_dom(v@, key);
            }
            return true;
        }
        i += 1;
    }
    proof {
        lemma_kv_map_dom(v@, key);
    }
    false
}

/// Sets the name stored under a key, inserting the entry if absent.
pub fn kv_insert(v: &mut Vec<(u64, String)>, key: u64, name: String)
    requires
        wf_kv(old(v)@),
    ensures
        wf_kv(final(v)@),
        kv_map(final(v)@) == kv_map(old(v)@).insert(key, name@),
{
    let n = v.len();
    let mut i: usize = 0;
    while i < n
        invariant
            wf_kv(v@),
            v == old(v),
            n == v@.len(),
            0 <= i <= n,
            forall|k: int| 0 <= k < i ==> v@[k].0 != key,
        decreases n - i,
    {
        if v[i].0 == key {
            let ghost before = v@;
            v.set(i, (key, name));
            proof {
                lemma_kv_map_update(before, i as int, v@[i as int]);
            }
            return ;
        }
        i += 1;
    }
    let ghost before = v@;
    v.push((key, name));
    proof {
        assert(v@.drop_last() =~= before);
        lemma_kv_map_dom(before, key);
    }
}

/// Drops every entry stored under a key, reporting whether any was there.
pub fn kv_remove_key(v: Vec<(u64, String)>, key: u64) -> (r: (Vec<(u64, String)>, bool))
    ensures
        r.0@ == v@.filter(|p: (u64, String)| p.0 != key),
        r.1 == (exists|i: int| 0 <= i < v@.len() && (#[trigger] v@[i]).0 == key),
{
    let ghost pred = |p: (u64, String)| p.0 != key;
    let n = v.len();
    let mut v = v;
    let mut out: Vec<(u64, String)> = Vec::new();
    let mut found = false;
    let mut i: usize = 0;
    let ghost source = v@;
    proof {
        assert(source.take(0).filter(pred) =~= Seq::<(u64, String)>::empty());
    }
    while i < n
        invariant
            n == source.len(),
            0 <= i <= n,
            v@ == source.skip(i as int),
            out@ == source.take(i as int).filter(pred),
            pred == (|p: (u64, String)| p.0 != key),
            found == (exists|k: int| 0 <= k < i && (#[trigger] source[k]).0 == key),
        decreases n - i,
    {
        proof {
            assert(source.skip(i as int).first() == source[i as int]);
            assert(source.skip(i as int).subrange(1, source.skip(i as int).len() as int)
                =~= source.skip(i + 1));
        }
        let entry = v.remove(0);
        let matched = entry.0 == key;
        if matched {
            found = true;
        } else {
            out.push(entry);
        }
        proof {
            assert(source.take(i + 1).drop_last() =~= source.take(i as int));
            assert(source.take(i + 1).last() == source[i as int]);
            reveal(Seq::filter);
            assert(out@ =~= source.take(i + 1).filter(pred));
            if matched {
                assert(source[i as int].0 == key);
            }
        }
        i += 1;
    }
    proof {
        assert(source.take(n as int) =~= source);
    }
    (out, found)
}

/// Drops every entry whose name equals the given one, reporting whether
/// any was there.
pub fn kv_remove_name(v: Vec<(u64, String)>, name: &String) -> (r: (Vec<(u64, String)>, bool))
    ensures
        r.0@ == v@.filter(|p: (u64, String)| p.1@ != name@),
        r.1 == (exists|i: int| 0 <= i < v@.len() && (#[trigger] v@[i]).1@ == name@),
{
    let ghost pred = |p: (u64, String)| p.1@ != name@;
    let n = v.len();
    let mut v = v;
    let mut out: Vec<(u64, String)> = Vec::new();
    let mut found = false;
    let mut i: usize = 0;
    let ghost source = v@;
    proof {
        assert(source.take(0).filter(pred) =~= Seq::<(u64, String)>::empty());
    }
    while i < n
        invariant
            n == source.len(),
            0 <= i <= n,
            v@ == source.skip(i as int),
            out@ == source.take(i as int).filter(pred),
            pred == (|p: (u64, String)| p.1@ != name@),
            found == (exists|k: int| 0 <= k < i && (#[trigger] source[k]).1@ == name@),
        decreases n - i,
    {
        proof {
            assert(source.skip(i as int).first() == source[i as int]);
            assert(source.skip(i as int).subrange(1, source.skip(i as int).len() as int)
                =~= source.skip(i + 1));
        }
        let entry = v.remove(0);
        let matched = entry.1.eq(name);
        if matched {
            found = true;
        } else {
            out.push(entry);
        }
        proof {
            assert(source.take(i + 1).drop_last() =~= source.take(i as int));
            assert(source.take(i + 1).last() == source[i as int]);
            reveal(Seq::filter);
            assert(out@ =~= source.take(i + 1).filter(pred));
            if matched {
                assert(source[i as int].1@ == name@);
            }
        }
        i += 1;
    }
    proof {
        assert(source.take(n as int) =~= source);
    }
    (out, found)
}

/// The user's vault listings: public archives by address, private
/// archives by datamap reference, and individual public and private files.
pub struct UserData {
    pub file_archives: Vec<(u64, String)>,
    pub private_file_archives: Vec<(u64, String)>,
    pub public_files: Vec<(u64, String)>,
    pub private_files: Vec<(u64, String)>,
}

impl UserData {
    pub open spec fn wf(&self) -> bool {
        &&& wf_kv(self.file_archives@)
        &&& wf_kv(self.private_file_archives@)
        &&& wf_kv(self.public_files@)
        &&& wf_kv(self.private_files@)
    }

    pub fn new() -> (r: UserData)
        ensures
            r.wf(),
            r.file_archives@.len() == 0,
            r.private_file_archives@.len() == 0,
            r.public_files@.len() == 0,
            r.private_files@.len() == 0,
    {
        UserData {
            file_archives: Vec::new(),
            private_file_archives: Vec::new(),
            public_files: Vec::new(),
            private_files: Vec::new(),
        }
    }
}

/// A filter that rejects nothing returns the listing unchanged.
proof fn lemma_filter_keeps_all(s: Seq<(u64, String)>, pred: spec_fn((u64, String)) -> bool)
    requires
        forall|i: int| 0 <= i < s.len() ==> pred(#[trigger] s[i]),
    ensures
        s.filter(pred) == s,
    decreases s.len(),
{
    reveal(Seq::filter);
    if s.len() > 0 {
        assert(forall|i: int| 0 <= i < s.drop_last().len() ==> s.drop_last()[i] == s[i]);
        lemma_filter_keeps_all(s.drop_last(), pred);
        assert(s.filter(pred) =~= s);
    } else {
        assert(s.filter(pred) =~= s);
    }
}

/// Removes an entry from the vault's user data. With an archive address,
/// the archive under that key is removed, private archives searched
/// first; without one, the individual file with the given name is
/// removed, private files searched first. Removing something that is not
/// there is an error: the vault does not hold it.
pub fn remove_from_vault(user_data: UserData, file_name: &String, archive_address: Option<u64>) -> (r:
    Result<UserData, VaultError>)
    ensures
        match r {
            Ok(updated) => match archive_address {
                Some(addr) => {
                    let in_private = exists|i: int|
                        0 <= i < user_data.private_file_archives@.len() && (
                        #[trigger] user_data.private_file_archives@[i]).0 == addr;
                    let in_public = exists|i: int|
                        0 <= i < user_data.file_archives@.len() && (
                        #[trigger] user_data.file_archives@[i]).0 == addr;
                    &&& (in_private || in_public)
                    &&& (in_private ==> updated.private_file_archives@
                        == user_data.private_file_archives@.filter(
                        |p: (u64, String)| p.0 != addr,
                    ) && updated.file_archives@ == user_data.file_archives@)
                    &&& (!in_private ==> updated.file_archives@
                        == user_data.file_archives@.filter(|p: (u64, String)| p.0 != addr)
                        && updated.private_file_archives@ == user_data.private_file_archives@)
                    &&& updated.public_files@ == user_data.public_files@
                    &&& updated.private_files@ == user_data.private_files@
                },
                None => {
                    let in_private = exists|i: int|
                        0 <= i < user_data.private_files@.len() && (
                        #[trigger] user_data.private_files@[i]).1@ == file_name@;
                    let in_public = exists|i: int|
                        0 <= i < user_data.public_files@.len() && (
                        #[trigger] user_data.public_files@[i]).1@ == file_name@;
                    &&& (in_private || in_public)
                    &&& (in_private ==> updated.private_files@ == user_data.private_files@.filter(
                        |p: (u64, String)| p.1@ != file_name@,
                    ) && updated.public_files@ == user_data.public_files@)
                    &&& (!in_private ==> updated.public_files@ == user_data.public_files@.filter(
                        |p: (u64, String)| p.1@ != file_name@,
                    ) && updated.private_files@ == user_data.private_files@)
                    &&& updated.file_archives@ == user_data.file_archives@
                    &&& updated.private_file_archives@ == user_data.private_file_archives@
                },
            },
            Err(e) => {
                &&& e == VaultError::FileNotFound
                &&& match archive_address {
                    Some(addr) => !(exists|i: int|
                        0 <= i < user_data.private_file_archives@.len() && (
                        #[trigger] user_data.private_file_archives@[i]).0 == addr) && !(exists|
                        i: int,
                    |
                        0 <= i < user_data.file_archives@.len() && (
                        #[trigger] user_data.file_archives@[i]).0 == addr),
                    None => !(exists|i: int|
                        0 <= i < user_data.private_files@.len() && (
                        #[trigger] user_data.private_files@[i]).1@ == file_name@) && !(exists|
                        i: int,
                    |
                        0 <= i < user_data.public_files@.len() && (
                        #[trigger] user_data.public_files@[i]).1@ == file_name@),
                }
            },
        },
{
    let UserData { file_archives, private_file_archives, public_files, private_files } = user_data;
    match archive_address {
        Some(addr) => {
            let (new_private, found_private) = kv_remove_key(private_file_archives, addr);
            if found_private {
                return Ok(
                    UserData {
                        file_archives,
                        private_file_archives: new_private,
                        public_files,
                        private_files,
                    },
                );
            }
            let (new_public, found_public) = kv_remove_key(file_archives, addr);
            if found_public {
                proof {
                    lemma_filter_keeps_all(
                        private_file_archives@,
                        |p: (u64, String)| p.0 != addr,
                    );
                }
                return Ok(
                    UserData {
                        file_archives: new_public,
                        private_file_archives: new_private,
                        public_files,
                        private_files,
                    },
                );
            }
            Err(VaultError::FileNotFound)
        },
        None => {
            let (new_private, found_private) = kv_remove_name(private_files, file_name);
            if found_private {
                return Ok(
                    UserData {
                        file_archives,
                        private_file_archives,
                        public_files,
                        private_files: new_private,
                    },
                );
            }
            let (new_public, found_public) = kv_remove_name(public_files, file_name);
            if found_public {
                proof {
                    lemma_filter_keeps_all(
                        private_files@,
                        |p: (u64, String)| p.1@ != file_name@,
                    );
                }
                return Ok(
                    UserData {
                        file_archives,
                        private_file_archives,
                        public_files: new_public,
                        private_files: new_private,
                    },
                );
            }
            Err(VaultError::FileNotFound)
        },
    }
}

/// Adds a locally known archive to the vault's user data under its
/// address, replacing the name if the address is already listed.
pub fn add_local_archive_to_vault(
    user_data: UserData,
    archive_address: u64,
    archive_name: String,
    is_private: bool,
) -> (r: UserData)
    requires
        user_data.wf(),
    ensures
        r.wf(),
        is_private ==> kv_map(r.private_file_archives@) == kv_map(
            user_data.private_file_archives@,
        ).insert(archive_address, archive_name@) && r.file_archives@ == user_data.file_archives@,
        !is_private ==> kv_map(r.file_archives@) == kv_map(user_data.file_archives@).insert(
            archive_address,
            archive_name@,
        ) && r.private_file_archives@ == user_data.private_file_archives@,
        r.public_files@ == user_data.public_files@,
        r.private_files@ == user_data.private_files@,
{
    let mut user_data = user_data;
    if is_private {
        kv_insert(&mut user_data.private_file_archives, archive_address, archive_name);
    } else {
        kv_insert(&mut user_data.file_archives, archive_address, archive_name);
    }
    user_data
}

/// Adds a locally known individual file to the vault's user data under
/// its address, replacing the name if the address is already listed.
pub fn add_local_file_to_vault(
    user_data: UserData,
    file_address: u64,
    file_name: String,
    is_private: bool,
) -> (r: UserData)
    requires
        user_data.wf(),
    ensures
        r.wf(),
        is_private ==> kv_map(r.private_files@) == kv_map(user_data.private_files@).insert(
            file_address,
            file_name@,
        ) && r.public_files@ == user_data.public_files@,
        !is_private ==> kv_map(r.public_files@) == kv_map(user_data.public_files@).insert(
            file_address,
            file_name@,
        ) && r.private_files@ == user_data.private_files@,
        r.file_archives@ == user_data.file_archives@,
        r.private_file_archives@ == user_data.private_file_archives@,
{
    let mut user_data = user_data;
    if is_private {
        kv_insert(&mut user_data.private_files, file_address, file_name);
    } else {
        kv_insert(&mut user_data.public_files, file_address, file_name);
    }
    user_data
}

} // verus!
