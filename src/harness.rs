//! A driver that applies a sequence of actions to a filesystem while keeping
//! an independent record of the files it has made, and checks at each step
//! that the filesystem agrees with that record.

use vstd::prelude::*;
use vstd::slice::slice_to_vec;
use vstd::utf8::encode_utf8;
use crate::memory::{
    MemoryFs, FileSystem, FsError, NodeView, Tree, tree_wf, is_file, root_tree, create_error, file_error,
    copy_error, copied, moved, same_bytes,
};

verus! {

/// One step of a run.
pub enum Action {
    CreateFile(String),
    OpenFile(String),
    Exists(String),
    RemoveFile(String),
    CopyFile(String, String),
    MoveFile(String, String),
}

/// The path that a string names: its UTF-8 bytes.
pub open spec fn key(s: String) -> Seq<u8> {
    encode_utf8(s@)
}

/// `k` is among the recorded paths.
pub open spec fn recorded(files: Seq<Vec<u8>>, k: Seq<u8>) -> bool {
    exists|j: int| 0 <= j < files.len() && #[trigger] files[j]@ == k
}

/// The set of recorded paths.
pub open spec fn record_set(files: Seq<Vec<u8>>) -> Set<Seq<u8>> {
    Set::new(|k: Seq<u8>| recorded(files, k))
}

/// The record and the tree agree: a path other than the root is present
/// exactly when it is recorded, and every such path is a file.
pub open spec fn agrees(m: Tree, rec: Set<Seq<u8>>) -> bool {
    &&& forall|k: Seq<u8>| k.len() > 0 ==> (#[trigger] m.contains_key(k) <==> rec.contains(k))
    &&& forall|k: Seq<u8>| #[trigger] m.contains_key(k) && k.len() > 0 ==> is_file(m, k)
    &&& !rec.contains(Seq::empty())
}

/// One action on the tree and the record: the new tree and record, or the
/// error of a create, copy or move that fails. A failed removal and the
/// observing actions leave the tree as it was; a removal forgets its path
/// from the record whether or not it succeeds.
pub open spec fn step(m: Tree, rec: Set<Seq<u8>>, a: Action) -> Result<(Tree, Set<Seq<u8>>), FsError> {
    match a {
        Action::CreateFile(p) => match create_error(m, key(p)) {
            Some(e) => Err(e),
            None => Ok((m.insert(key(p), NodeView::File(Seq::empty())), rec.insert(key(p)))),
        },
        Action::OpenFile(_) => Ok((m, rec)),
        Action::Exists(_) => Ok((m, rec)),
        Action::RemoveFile(p) => if file_error(m, key(p)) is None {
            Ok((m.remove(key(p)), rec.remove(key(p))))
        } else {
            Ok((m, rec.remove(key(p))))
        },
        Action::CopyFile(a, b) => match copy_error(m, key(a), key(b)) {
            Some(e) => Err(e),
            None => Ok((copied(m, key(a), key(b)), rec.insert(key(b)))),
        },
        Action::MoveFile(a, b) => match copy_error(m, key(a), key(b)) {
            Some(e) => Err(e),
            None => Ok((moved(m, key(a), key(b)), rec.remove(key(a)).insert(key(b)))),
        },
    }
}

/// A run of `acts` from tree `m` and record `rec`: the tree and the record
/// where it ended, and the error that ended it early, if one did.
pub open spec fn run(m: Tree, rec: Set<Seq<u8>>, acts: Seq<Action>) -> (Tree, Set<Seq<u8>>, Option<FsError>)
    decreases acts.len(),
{
    if acts.len() == 0 {
        (m, rec, None)
    } else {
        match step(m, rec, acts[0]) {
            Err(e) => (m, rec, Some(e)),
            Ok((m2, rec2)) => run(m2, rec2, acts.drop_first()),
        }
    }
}

/// What a run reports: `Ok` when every action ran.
pub open spec fn outcome(e: Option<FsError>) -> Result<(), FsError> {
    match e {
        Some(e) => Err(e),
        None => Ok(()),
    }
}

fn is_recorded(files: &Vec<Vec<u8>>, p: &[u8]) -> (r: bool)
    ensures
        r == recorded(files@, p@),
{
    let mut i: usize = 0;
    while i < files.len()
        invariant
            i <= files@.len(),
            forall|j: int| 0 <= j < i ==> files@[j]@ != p@,
        decreases files@.len() - i,
    {
        if same_bytes(files[i].as_slice(), p) {
            return true;
        }
        i = i + 1;
    }
    false
}

fn forget(files: &mut Vec<Vec<u8>>, p: &[u8])
    ensures
        forall|k: Seq<u8>| #[trigger] recorded(final(files)@, k) <==> recorded(old(files)@, k) && k != p@,
{
    let mut kept: Vec<Vec<u8>> = Vec::new();
    let mut i: usize = 0;
    while i < files.len()
        invariant
            i <= files@.len(),
            forall|k: Seq<u8>| #[trigger] recorded(kept@, k) <==> (k != p@ && exists|j: int| 0 <= j < i && #[trigger] files@[j]@ == k),
        decreases files@.len() - i,
    {
        if !same_bytes(files[i].as_slice(), p) {
            let ghost before = kept@;
            kept.push(slice_to_vec(files[i].as_slice()));
            proof {
                assert forall|k: Seq<u8>| #[trigger] recorded(kept@, k) <==> (k != p@ && exists|j: int| 0 <= j < i + 1 && #[trigger] files@[j]@ == k) by {
                    if recorded(kept@, k) {
                        let j = choose|j: int| 0 <= j < kept@.len() && #[trigger] kept@[j]@ == k;
                        if j < before.len() {
                            assert(before[j] == kept@[j]);
                            assert(recorded(before, k));
                        }
                    }
                    if k != p@ && exists|j: int| 0 <= j < i + 1 && #[trigger] files@[j]@ == k {
                        let j = choose|j: int| 0 <= j < i + 1 && #[trigger] files@[j]@ == k;
                        if j < i {
                            assert(recorded(before, k));
                            let j2 = choose|j2: int| 0 <= j2 < before.len() && #[trigger] before[j2]@ == k;
                            assert(kept@[j2] == before[j2]);
                        } else {
                            assert(kept@[before.len() as int]@ == k);
                        }
                    }
                }
            }
        } else {
            proof {
                assert forall|k: Seq<u8>| #[trigger] recorded(kept@, k) <==> (k != p@ && exists|j: int| 0 <= j < i + 1 && #[trigger] files@[j]@ == k) by {
                    if k != p@ && exists|j: int| 0 <= j < i + 1 && #[trigger] files@[j]@ == k {
                        let j = choose|j: int| 0 <= j < i + 1 && #[trigger] files@[j]@ == k;
                        assert(j < i);
                    }
                }
            }
        }
        i = i + 1;
    }
    *files = kept;
}

fn record(files: &mut Vec<Vec<u8>>, p: &[u8])
    ensures
        forall|k: Seq<u8>| #[trigger] recorded(final(files)@, k) <==> recorded(old(files)@, k) || k == p@,
{
    let ghost before = files@;
    files.push(slice_to_vec(p));
    proof {
        assert(files@[before.len() as int]@ == p@);
        assert forall|k: Seq<u8>| #[trigger] recorded(files@, k) <==> recorded(before, k) || k == p@ by {
            if recorded(before, k) {
                let j = choose|j: int| 0 <= j < before.len() && #[trigger] before[j]@ == k;
                assert(files@[j] == before[j]);
            }
            if recorded(files@, k) {
                let j = choose|j: int| 0 <= j < files@.len() && #[trigger] files@[j]@ == k;
                if j < before.len() {
                    assert(files@[j] == before[j]);
                }
            }
        }
    }
}

/// Applies `actions` in order, stopping at the first create, copy or move that
/// fails, and keeps `files` as the record of the files made. The tree, the
/// record and the result are those of `run`. Along the way, every path on
/// record opens as a file, and every non-empty path exists exactly when it is
/// on record; these checks are proved, not run.
pub fn run_actions(fs: &mut MemoryFs, files: &mut Vec<Vec<u8>>, actions: &Vec<Action>) -> (r: Result<(), FsError>)
    requires
        old(fs).wf(),
        agrees(old(fs)@, record_set(old(files)@)),
    ensures
        final(fs).wf(),
        agrees(final(fs)@, record_set(final(files)@)),
        final(fs)@ == run(old(fs)@, record_set(old(files)@), actions@).0,
        record_set(final(files)@) == run(old(fs)@, record_set(old(files)@), actions@).1,
        r == outcome(run(old(fs)@, record_set(old(files)@), actions@).2),
{
    let ghost m0 = fs@;
    let ghost rec0 = record_set(files@);
    assert(actions@.subrange(0, actions@.len() as int) =~= actions@);
    let mut i: usize = 0;
    while i < actions.len()
        invariant
            fs.wf(),
            agrees(fs@, record_set(files@)),
            i <= actions@.len(),
            m0 == old(fs)@,
            rec0 == record_set(old(files)@),
            run(m0, rec0, actions@) == run(fs@, record_set(files@), actions@.subrange(i as int, actions@.len() as int)),
        decreases actions@.len() - i,
    {
        proof {
            fs.lemma_tree_wf();
            let rest = actions@.subrange(i as int, actions@.len() as int);
            assert(rest.drop_first() =~= actions@.subrange(i + 1, actions@.len() as int));
            assert(rest[0] == actions@[i as int]);
        }
        let ghost m = fs@;
        let ghost rec = record_set(files@);
        match &actions[i] {
            Action::CreateFile(path) => {
                let p = path.as_str().as_bytes();
                match fs.create_file(path.as_str()) {
                    Ok(_) => {
                        record(files, p);
                        proof {
                            if p@.len() == 0 {
                                assert(p@ =~= Seq::<u8>::empty());
                            }
                        }
                    },
                    Err(e) => return Err(e),
                }
            },
            Action::OpenFile(path) => {
                let p = path.as_str().as_bytes();
                let r = fs.open_file(path.as_str());
                let known = is_recorded(files, p);
                proof {
                    if known {
                        if p@.len() == 0 {
                            assert(p@ =~= Seq::<u8>::empty());
                        }
                        assert(m.contains_key(p@));
                        assert(is_file(m, p@));
                    }
                }
                assert(known ==> r is Ok);
            },
            Action::Exists(path) => {
                let p = path.as_str().as_bytes();
                let present = match fs.path_exists(path.as_str()) {
                    Ok(x) => x,
                    Err(_) => false,
                };
                let known = is_recorded(files, p);
                if !path.as_str().is_empty() {
                    assert(known == present);
                }
            },
            Action::RemoveFile(path) => {
                let p = path.as_str().as_bytes();
                let _ = fs.remove_file(path.as_str());
                forget(files, p);
                proof {
                    if p@.len() == 0 {
                        assert(p@ =~= Seq::<u8>::empty());
                    }
                }
            },
            Action::CopyFile(from, to) => {
                let q = to.as_str().as_bytes();
                match fs.copy_file(from.as_str(), to.as_str()) {
                    Ok(()) => {
                        record(files, q);
                        proof {
                            if q@.len() == 0 {
                                assert(q@ =~= Seq::<u8>::empty());
                            }
                        }
                    },
                    Err(e) => return Err(e),
                }
            },
            Action::MoveFile(from, to) => {
                let p = from.as_str().as_bytes();
                let q = to.as_str().as_bytes();
                match fs.move_file(from.as_str(), to.as_str()) {
                    Ok(()) => {
                        forget(files, p);
                        record(files, q);
                        proof {
                            if q@.len() == 0 {
                                assert(q@ =~= Seq::<u8>::empty());
                            }
                        }
                    },
                    Err(e) => return Err(e),
                }
            },
        }
        proof {
            assert(record_set(files@) =~= step(m, rec, actions@[i as int])->Ok_0.1);
        }
        i = i + 1;
    }
    proof {
        assert(actions@.subrange(i as int, actions@.len() as int) =~= Seq::<Action>::empty());
    }
    Ok(())
}

/// Runs `actions` on a fresh filesystem with an empty record.
pub fn fuzz(actions: Vec<Action>) -> (r: Result<(), FsError>)
    ensures
        r == outcome(run(root_tree(), Set::empty(), actions@).2),
{
    let mut fs = MemoryFs::new();
    let mut files: Vec<Vec<u8>> = Vec::new();
    proof {
        assert forall|k: Seq<u8>| k.len() > 0 implies !(#[trigger] fs@.contains_key(k)) by {
            if fs@.contains_key(k) {
                assert(k =~= Seq::<u8>::empty());
            }
        }
    }
    assert(record_set(files@) =~= Set::<Seq<u8>>::empty());
    run_actions(&mut fs, &mut files, &actions)
}

} // verus!
