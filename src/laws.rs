//! Laws that relate the operations of the filesystem, stated over the model
//! that their contracts use.

use vstd::prelude::*;
use crate::harness::{Action, agrees, key, run, step};
use crate::memory::{
    FsError, NodeView, Tree, tree_wf, is_file, content_of, create_error, file_error, copy_error,
    copied, moved,
};

verus! {

/// A file just created opens, and holds no bytes.
pub proof fn lemma_create_then_open(m: Tree, p: Seq<u8>)
    requires
        create_error(m, p) is None,
    ensures
        file_error(m.insert(p, NodeView::File(Seq::empty())), p) is None,
        content_of(m.insert(p, NodeView::File(Seq::empty())), p) == Seq::<u8>::empty(),
{
}

/// Creating a file twice in a row fails the second time because the file
/// already exists; a failed create leaves the tree as it was.
pub proof fn lemma_create_twice(m: Tree, p: Seq<u8>)
    requires
        create_error(m, p) is None,
    ensures
        create_error(m.insert(p, NodeView::File(Seq::empty())), p) == Some(FsError::AlreadyExists),
{
}

/// Removing a path that is not a file fails, either because nothing stands
/// there or because a directory does; a failed removal changes nothing.
pub proof fn lemma_remove_non_file(m: Tree, p: Seq<u8>)
    requires
        !is_file(m, p),
    ensures
        file_error(m, p) == Some(FsError::NotFound) || file_error(m, p) == Some(
            FsError::IsADirectory,
        ),
{
}

/// After a copy both paths exist and hold the same bytes, and a write to
/// either one leaves the other's bytes as they were.
pub proof fn lemma_copy_independent(m: Tree, a: Seq<u8>, b: Seq<u8>, d: Seq<u8>)
    requires
        copy_error(m, a, b) is None,
    ensures
        copied(m, a, b).contains_key(a),
        copied(m, a, b).contains_key(b),
        content_of(copied(m, a, b), b) == content_of(m, a),
        file_error(copied(m, a, b), a) is None,
        file_error(copied(m, a, b), b) is None,
        content_of(copied(m, a, b).insert(b, NodeView::File(d)), a) == content_of(m, a),
        content_of(copied(m, a, b).insert(a, NodeView::File(d)), b) == content_of(m, a),
{
}

/// After a move the destination exists with the source's bytes, and the
/// source no longer exists.
pub proof fn lemma_move(m: Tree, a: Seq<u8>, b: Seq<u8>)
    requires
        copy_error(m, a, b) is None,
    ensures
        moved(m, a, b).contains_key(b),
        !moved(m, a, b).contains_key(a),
        content_of(moved(m, a, b), b) == content_of(m, a),
{
}

/// Every operation keeps the tree well formed.
pub proof fn lemma_ops_keep_wf(m: Tree, p: Seq<u8>, q: Seq<u8>, d: Seq<u8>)
    requires
        tree_wf(m),
    ensures
        create_error(m, p) is None ==> tree_wf(m.insert(p, NodeView::File(Seq::empty()))),
        create_error(m, p) is None ==> tree_wf(m.insert(p, NodeView::Dir)),
        file_error(m, p) is None ==> tree_wf(m.remove(p)),
        file_error(m, p) is None ==> tree_wf(m.insert(p, NodeView::File(d))),
        copy_error(m, p, q) is None ==> tree_wf(copied(m, p, q)),
        copy_error(m, p, q) is None ==> tree_wf(moved(m, p, q)),
{
}

/// A run that starts with `a` goes on as a run of `rest` from the state
/// after `a`, or stops at once with the error of `a`.
pub proof fn lemma_run_first(m: Tree, rec: Set<Seq<u8>>, a: Action, rest: Seq<Action>)
    ensures
        run(m, rec, seq![a] + rest) == match step(m, rec, a) {
            Err(e) => (m, rec, Some(e)),
            Ok((m2, rec2)) => run(m2, rec2, rest),
        },
{
    let acts = seq![a] + rest;
    assert(acts[0] == a);
    assert(acts.drop_first() =~= rest);
}

/// After any sequence of actions, and after each of its prefixes, a path
/// other than the root exists exactly when the record holds it: when it was
/// last created, copied to or moved to, and not removed or moved from since.
pub proof fn lemma_run_agrees(m: Tree, rec: Set<Seq<u8>>, acts: Seq<Action>)
    requires
        tree_wf(m),
        agrees(m, rec),
    ensures
        tree_wf(run(m, rec, acts).0),
        agrees(run(m, rec, acts).0, run(m, rec, acts).1),
    decreases acts.len(),
{
    if acts.len() > 0 {
        match step(m, rec, acts[0]) {
            Err(_) => {},
            Ok((m2, rec2)) => {
                lemma_step_agrees(m, rec, acts[0]);
                lemma_run_agrees(m2, rec2, acts.drop_first());
            },
        }
    }
}

proof fn lemma_step_agrees(m: Tree, rec: Set<Seq<u8>>, a: Action)
    requires
        tree_wf(m),
        agrees(m, rec),
        step(m, rec, a) is Ok,
    ensures
        tree_wf(step(m, rec, a)->Ok_0.0),
        agrees(step(m, rec, a)->Ok_0.0, step(m, rec, a)->Ok_0.1),
{
    match a {
        Action::CreateFile(p) => {
            lemma_ops_keep_wf(m, key(p), key(p), Seq::empty());
            if key(p).len() == 0 {
                assert(key(p) =~= Seq::<u8>::empty());
            }
        },
        Action::RemoveFile(p) => {
            lemma_ops_keep_wf(m, key(p), key(p), Seq::empty());
        },
        Action::CopyFile(x, y) => {
            lemma_ops_keep_wf(m, key(x), key(y), Seq::empty());
            if key(y).len() == 0 {
                assert(key(y) =~= Seq::<u8>::empty());
            }
        },
        Action::MoveFile(x, y) => {
            lemma_ops_keep_wf(m, key(x), key(y), Seq::empty());
            if key(y).len() == 0 {
                assert(key(y) =~= Seq::<u8>::empty());
            }
        },
        _ => {},
    }
}

/// Opening a file or asking whether a path exists changes nothing, so such
/// an action may be repeated or left out without changing the run.
pub proof fn lemma_observe_is_idle(m: Tree, rec: Set<Seq<u8>>, a: Action, rest: Seq<Action>)
    requires
        a is OpenFile || a is Exists,
    ensures
        run(m, rec, seq![a] + rest) == run(m, rec, rest),
{
    lemma_run_first(m, rec, a, rest);
}

/// Creating a file and then opening it runs on, and the file opens.
pub proof fn lemma_run_create_then_open(m: Tree, rec: Set<Seq<u8>>, p: String, rest: Seq<Action>)
    requires
        create_error(m, key(p)) is None,
    ensures
        file_error(m.insert(key(p), NodeView::File(Seq::empty())), key(p)) is None,
        run(m, rec, seq![Action::CreateFile(p), Action::OpenFile(p)] + rest) == run(
            m.insert(key(p), NodeView::File(Seq::empty())),
            rec.insert(key(p)),
            rest,
        ),
{
    let m2 = m.insert(key(p), NodeView::File(Seq::empty()));
    lemma_run_first(m, rec, Action::CreateFile(p), seq![Action::OpenFile(p)] + rest);
    assert(seq![Action::CreateFile(p), Action::OpenFile(p)] + rest =~= seq![Action::CreateFile(p)]
        + (seq![Action::OpenFile(p)] + rest));
    lemma_observe_is_idle(m2, rec.insert(key(p)), Action::OpenFile(p), rest);
}

/// Creating the same file twice in a row stops the run at the second
/// create, with `AlreadyExists`, and with the tree as the first left it.
pub proof fn lemma_run_create_twice(m: Tree, rec: Set<Seq<u8>>, p: String, rest: Seq<Action>)
    requires
        create_error(m, key(p)) is None,
    ensures
        run(m, rec, seq![Action::CreateFile(p), Action::CreateFile(p)] + rest) == (
            m.insert(key(p), NodeView::File(Seq::empty())),
            rec.insert(key(p)),
            Some(FsError::AlreadyExists),
        ),
{
    lemma_run_first(m, rec, Action::CreateFile(p), seq![Action::CreateFile(p)] + rest);
    assert(seq![Action::CreateFile(p), Action::CreateFile(p)] + rest =~= seq![
        Action::CreateFile(p),
    ] + (seq![Action::CreateFile(p)] + rest));
    lemma_run_first(
        m.insert(key(p), NodeView::File(Seq::empty())),
        rec.insert(key(p)),
        Action::CreateFile(p),
        rest,
    );
}

/// Removing a path that is neither a file nor on record changes nothing.
pub proof fn lemma_failed_remove_is_idle(m: Tree, rec: Set<Seq<u8>>, p: String, rest: Seq<Action>)
    requires
        !is_file(m, key(p)),
        !rec.contains(key(p)),
    ensures
        run(m, rec, seq![Action::RemoveFile(p)] + rest) == run(m, rec, rest),
{
    lemma_run_first(m, rec, Action::RemoveFile(p), rest);
    assert(rec.remove(key(p)) =~= rec);
}

/// A copy that can be made leaves both paths as files, and the run goes on;
/// a move leaves only the destination.
pub proof fn lemma_run_copy_and_move(m: Tree, rec: Set<Seq<u8>>, a: String, b: String, rest: Seq<Action>)
    requires
        copy_error(m, key(a), key(b)) is None,
    ensures
        run(m, rec, seq![Action::CopyFile(a, b)] + rest) == run(copied(m, key(a), key(b)), rec.insert(key(b)), rest),
        is_file(copied(m, key(a), key(b)), key(a)),
        is_file(copied(m, key(a), key(b)), key(b)),
        run(m, rec, seq![Action::MoveFile(a, b)] + rest) == run(
            moved(m, key(a), key(b)),
            rec.remove(key(a)).insert(key(b)),
            rest,
        ),
        is_file(moved(m, key(a), key(b)), key(b)),
        !moved(m, key(a), key(b)).contains_key(key(a)),
{
    lemma_run_first(m, rec, Action::CopyFile(a, b), rest);
    lemma_run_first(m, rec, Action::MoveFile(a, b), rest);
}

} // verus!
