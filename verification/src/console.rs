//! The console: the text written to it, behind its lock.
//!
//! Whoever writes takes the lock, writes, and gives the lock back before
//! doing anything else, so the console is held for no longer than one write
//! takes and never across another attempt to lock it.

use crate::mutex::{lemma_settled_one, lemma_settled_twice, settled, LockOp, Mutex};
use vstd::prelude::*;
use vstd::string::StringExecFns;

verus! {

/// Writes `text` to the console: takes the lock, appends, gives the lock
/// back. The console must be free: a writer that held it already would wait
/// for itself.
pub fn kprint(console: &mut Mutex<String>, text: &str)
    requires
        !old(console).held(),
    ensures
        !final(console).held(),
        final(console).value()@ == old(console).value()@ + text@,
        final(console).history() == old(console).history().push(LockOp::TryLock).push(
            LockOp::Unlock,
        ),
{
    let mut guard = console.try_lock().unwrap();
    guard.get_mut().append(text);
    console.unlock(guard);
}

/// Writes the character `c` to the console, which must be free, under the
/// lock.
pub fn kprint_char(console: &mut Mutex<String>, c: char)
    requires
        !old(console).held(),
    ensures
        !final(console).held(),
        final(console).value()@ == old(console).value()@.push(c),
        final(console).history() == old(console).history().push(LockOp::TryLock).push(
            LockOp::Unlock,
        ),
{
    let mut guard = console.try_lock().unwrap();
    guard.get_mut().push(c);
    console.unlock(guard);
}

/// `kprint` as one more write of a caller whose locks since `since` were
/// all given back.
pub(crate) fn say(console: &mut Mutex<String>, text: &str, Ghost(since): Ghost<Seq<LockOp>>)
    requires
        !old(console).held(),
        settled(since, old(console).history()),
    ensures
        !final(console).held(),
        final(console).value()@ == old(console).value()@ + text@,
        settled(since, final(console).history()),
{
    kprint(console, text);
    proof {
        lemma_settled_one(old(console).history());
        lemma_settled_twice(since, old(console).history(), console.history());
    }
}

/// `kprint_char` as one more write of a caller whose locks since `since`
/// were all given back.
pub(crate) fn say_char(console: &mut Mutex<String>, c: char, Ghost(since): Ghost<Seq<LockOp>>)
    requires
        !old(console).held(),
        settled(since, old(console).history()),
    ensures
        !final(console).held(),
        final(console).value()@ == old(console).value()@.push(c),
        settled(since, final(console).history()),
{
    kprint_char(console, c);
    proof {
        lemma_settled_one(old(console).history());
        lemma_settled_twice(since, old(console).history(), console.history());
    }
}

} // verus!
