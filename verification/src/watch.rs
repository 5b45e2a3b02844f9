//! When the dashboard reloads the log file: on each poll, when the file's
//! modification time differs from the one last seen.

use vstd::prelude::*;

verus! {

/// What one poll decides: the modification time to remember and whether to
/// reload. A poll that reads a time other than the remembered one reloads
/// and remembers it; a poll that reads the same time, or cannot read the
/// file's metadata (`None`), keeps what was remembered.
pub open spec fn watch_next(last: Option<i128>, current: Option<Option<i128>>) -> (Option<i128>, bool) {
    if current matches Some(c) && c != last {
        (current->Some_0, true)
    } else {
        (last, false)
    }
}

/// For each poll of a run that starts with `last` remembered, whether it
/// reloads the file.
pub open spec fn watch_reloads(last: Option<i128>, polls: Seq<Option<Option<i128>>>) -> Seq<bool>
    decreases polls.len(),
{
    if polls.len() == 0 {
        Seq::empty()
    } else {
        let step = watch_next(last, polls[0]);
        seq![step.1] + watch_reloads(step.0, polls.drop_first())
    }
}

/// One poll of the log file. `last` is the modification time seen last
/// (nanoseconds from the UNIX epoch, `None` before any or where the file
/// system gave none); `current` is `None` when the file's metadata cannot be
/// read, else the modification time it gives. Returns the modification time
/// to remember and whether to reload the file.
pub fn watch_step(last: Option<i128>, current: Option<Option<i128>>) -> (r: (Option<i128>, bool))
    ensures
        r == watch_next(last, current),
{
    match current {
        None => (last, false),
        Some(c) => {
            let same = match (c, last) {
                (None, None) => true,
                (Some(a), Some(b)) => a == b,
                _ => false,
            };
            if same {
                (last, false)
            } else {
                (c, true)
            }
        },
    }
}

/// While every poll reads the remembered modification time or no metadata,
/// the watcher never reloads.
pub proof fn lemma_watch_quiet(last: Option<i128>, polls: Seq<Option<Option<i128>>>)
    requires
        forall|i: int| 0 <= i < polls.len() ==> (#[trigger] polls[i] == Some(last) || polls[i] is None),
    ensures
        watch_reloads(last, polls) == Seq::new(polls.len(), |i: int| false),
    decreases polls.len(),
{
    if polls.len() > 0 {
        let rest = polls.drop_first();
        assert forall|i: int| 0 <= i < rest.len() implies (#[trigger] rest[i] == Some(last) || rest[i] is None) by {
            assert(rest[i] == polls[i + 1]);
        }
        lemma_watch_quiet(last, rest);
        assert(polls[0] == Some(last) || polls[0] is None);
        assert(seq![false] + Seq::new(rest.len(), |i: int| false) =~= Seq::new(polls.len(), |i: int| false));
    }
}

/// When the modification time changes to a new one and then stays (polls
/// that read no metadata aside), the watcher reloads once, at the first
/// poll that reads the new time.
pub proof fn lemma_watch_reloads_once(last: Option<i128>, changed: Option<i128>, polls: Seq<Option<Option<i128>>>)
    requires
        changed != last,
        polls.len() > 0,
        polls[0] == Some(changed),
        forall|i: int| 1 <= i < polls.len() ==> (#[trigger] polls[i] == Some(changed) || polls[i] is None),
    ensures
        watch_reloads(last, polls) == seq![true] + Seq::new((polls.len() - 1) as nat, |i: int| false),
{
    let rest = polls.drop_first();
    assert forall|i: int| 0 <= i < rest.len() implies (#[trigger] rest[i] == Some(changed) || rest[i] is None) by {
        assert(rest[i] == polls[i + 1]);
    }
    lemma_watch_quiet(changed, rest);
}

} // verus!
