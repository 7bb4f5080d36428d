//! The termination-signal hooks the daemon installs, and what they do.
//!
//! For every termination signal two hooks are registered, in this order: one
//! that ends the process at once if the shared "interrupted" flag is already
//! set, and one that sets that flag. Hooks for a signal run in the order of
//! registration, so the first signal only arms the flag (and the listener
//! sends `Exit` to the loop), while a second one, arriving before a clean
//! shutdown has finished, ends the process immediately.

use vstd::prelude::*;

verus! {

/// The status the process ends with when a second termination signal forces it.
pub const FORCED_EXIT_STATUS: i32 = 1;

/// One hook to register for a signal number.
#[derive(Clone, Copy, Debug, PartialEq, Eq, Structural)]
pub enum Hook {
    /// End the process with `status` if the interrupted flag is set.
    ShutdownIfInterrupted { signal: i32, status: i32 },
    /// Set the interrupted flag.
    MarkInterrupted { signal: i32 },
}

/// The hooks for `signals`, in the order they must be registered.
pub open spec fn hook_plan(signals: Seq<i32>) -> Seq<Hook>
    decreases signals.len(),
{
    if signals.len() == 0 {
        Seq::empty()
    } else {
        let s = signals.last();
        hook_plan(signals.drop_last()).push(
            Hook::ShutdownIfInterrupted { signal: s, status: FORCED_EXIT_STATUS },
        ).push(Hook::MarkInterrupted { signal: s })
    }
}

/// What delivering `signal` does when `hooks` are registered, in order, and
/// the flag holds `interrupted`: the flag afterwards, and the status the
/// process is ended with, if it is.
pub open spec fn deliver(hooks: Seq<Hook>, signal: i32, interrupted: bool) -> (bool, Option<i32>)
    decreases hooks.len(),
{
    if hooks.len() == 0 {
        (interrupted, None)
    } else {
        match hooks[0] {
            Hook::ShutdownIfInterrupted { signal: s, status } => if s == signal && interrupted {
                (interrupted, Some(status))
            } else {
                deliver(hooks.drop_first(), signal, interrupted)
            },
            Hook::MarkInterrupted { signal: s } => deliver(
                hooks.drop_first(),
                signal,
                interrupted || s == signal,
            ),
        }
    }
}

/// Builds the hooks to register for the given termination signals.
pub fn shutdown_hooks(signals: &Vec<i32>) -> (hooks: Vec<Hook>)
    ensures
        hooks@ == hook_plan(signals@),
{
    let mut hooks: Vec<Hook> = Vec::new();
    let mut i: usize = 0;
    while i < signals.len()
        invariant
            i <= signals.len(),
            hooks@ == hook_plan(signals@.take(i as int)),
        decreases signals.len() - i,
    {
        let s = signals[i];
        proof {
            assert(signals@.take(i + 1).drop_last() == signals@.take(i as int));
        }
        hooks.push(Hook::ShutdownIfInterrupted { signal: s, status: FORCED_EXIT_STATUS });
        hooks.push(Hook::MarkInterrupted { signal: s });
        i = i + 1;
    }
    proof {
        assert(signals@.take(signals.len() as int) == signals@);
    }
    hooks
}

proof fn lemma_deliver_append(a: Seq<Hook>, b: Seq<Hook>, signal: i32, interrupted: bool)
    ensures
        deliver(a + b, signal, interrupted) == (match deliver(a, signal, interrupted) {
            (flag, None) => deliver(b, signal, flag),
            done => done,
        }),
    decreases a.len(),
{
    if a.len() > 0 {
        assert((a + b).drop_first() == a.drop_first() + b);
        match a[0] {
            Hook::ShutdownIfInterrupted { signal: s, status } => {
                lemma_deliver_append(a.drop_first(), b, signal, interrupted);
            },
            Hook::MarkInterrupted { signal: s } => {
                lemma_deliver_append(a.drop_first(), b, signal, interrupted || s == signal);
            },
        }
    } else {
        assert(a + b == b);
    }
}

proof fn lemma_plan_split(signals: Seq<i32>)
    requires
        signals.len() > 0,
    ensures
        hook_plan(signals) == hook_plan(signals.drop_last()) + seq![
            Hook::ShutdownIfInterrupted { signal: signals.last(), status: FORCED_EXIT_STATUS },
            Hook::MarkInterrupted { signal: signals.last() },
        ],
{
    let s = signals.last();
    let pair = seq![
        Hook::ShutdownIfInterrupted { signal: s, status: FORCED_EXIT_STATUS },
        Hook::MarkInterrupted { signal: s },
    ];
    assert(hook_plan(signals) == hook_plan(signals.drop_last()) + pair);
    assert(pair.drop_first().drop_first() == Seq::<Hook>::empty());
}

proof fn lemma_deliver_pair(last: i32, signal: i32, interrupted: bool)
    ensures
        deliver(
            seq![
                Hook::ShutdownIfInterrupted { signal: last, status: FORCED_EXIT_STATUS },
                Hook::MarkInterrupted { signal: last },
            ],
            signal,
            interrupted,
        ) == (if last == signal && interrupted {
            (interrupted, Some(FORCED_EXIT_STATUS))
        } else {
            (interrupted || last == signal, None)
        }),
{
    let mark = seq![Hook::MarkInterrupted { signal: last }];
    let pair = seq![
        Hook::ShutdownIfInterrupted { signal: last, status: FORCED_EXIT_STATUS },
        Hook::MarkInterrupted { signal: last },
    ];
    assert(pair.drop_first() == mark);
    assert(mark.drop_first() == Seq::<Hook>::empty());
    reveal_with_fuel(deliver, 3);
}

/// A signal that none of the hooks is registered for changes nothing.
proof fn lemma_deliver_unregistered(signals: Seq<i32>, signal: i32, interrupted: bool)
    requires
        !signals.contains(signal),
    ensures
        deliver(hook_plan(signals), signal, interrupted) == (interrupted, None::<i32>),
    decreases signals.len(),
{
    if signals.len() > 0 {
        let init = signals.drop_last();
        assert(!init.contains(signal)) by {
            if init.contains(signal) {
                let i = choose|i: int| 0 <= i < init.len() && init[i] == signal;
                assert(signals[i] == signal);
            }
        }
        assert(signals[signals.len() - 1] != signal);
        lemma_deliver_unregistered(init, signal, interrupted);
        lemma_plan_split(signals);
        let pair = seq![
            Hook::ShutdownIfInterrupted { signal: signals.last(), status: FORCED_EXIT_STATUS },
            Hook::MarkInterrupted { signal: signals.last() },
        ];
        lemma_deliver_append(hook_plan(init), pair, signal, interrupted);
        lemma_deliver_pair(signals.last(), signal, interrupted);
    }
}

/// With the hooks of `hook_plan` registered for distinct termination signals,
/// the first termination signal only arms the flag and leaves the process
/// running, so that the loop can shut down cleanly; any termination signal
/// after that ends the process at once, with a nonzero status.
pub proof fn lemma_second_signal_forces_exit(signals: Seq<i32>, first: i32, second: i32)
    requires
        signals.no_duplicates(),
        signals.contains(first),
        signals.contains(second),
    ensures
        deliver(hook_plan(signals), first, false) == (true, None::<i32>),
        deliver(hook_plan(signals), second, true) == (true, Some(FORCED_EXIT_STATUS)),
        FORCED_EXIT_STATUS != 0,
{
    lemma_first_signal_arms(signals, first);
    lemma_armed_signal_exits(signals, second);
}

proof fn lemma_first_signal_arms(signals: Seq<i32>, signal: i32)
    requires
        signals.no_duplicates(),
        signals.contains(signal),
    ensures
        deliver(hook_plan(signals), signal, false) == (true, None::<i32>),
    decreases signals.len(),
{
    let init = signals.drop_last();
    let last = signals.last();
    let pair = seq![
        Hook::ShutdownIfInterrupted { signal: last, status: FORCED_EXIT_STATUS },
        Hook::MarkInterrupted { signal: last },
    ];
    lemma_plan_split(signals);
    lemma_deliver_pair(last, signal, false);
    lemma_deliver_pair(last, signal, true);
    assert(init.no_duplicates()) by {
        assert forall|i: int, j: int| 0 <= i < init.len() && 0 <= j < init.len() && i != j
            implies init[i] != init[j] by {
            assert(init[i] == signals[i] && init[j] == signals[j]);
        }
    }
    if last == signal {
        assert(!init.contains(signal)) by {
            if init.contains(signal) {
                let i = choose|i: int| 0 <= i < init.len() && init[i] == signal;
                assert(signals[i] == signals[signals.len() - 1]);
            }
        }
        lemma_deliver_unregistered(init, signal, false);
        lemma_deliver_append(hook_plan(init), pair, signal, false);
    } else {
        assert(init.contains(signal)) by {
            let i = choose|i: int| 0 <= i < signals.len() && signals[i] == signal;
            assert(i != signals.len() - 1);
            assert(init[i] == signal);
        }
        lemma_first_signal_arms(init, signal);
        lemma_deliver_append(hook_plan(init), pair, signal, false);
    }
}

proof fn lemma_armed_signal_exits(signals: Seq<i32>, signal: i32)
    requires
        signals.contains(signal),
    ensures
        deliver(hook_plan(signals), signal, true) == (true, Some(FORCED_EXIT_STATUS)),
    decreases signals.len(),
{
    let init = signals.drop_last();
    let last = signals.last();
    let pair = seq![
        Hook::ShutdownIfInterrupted { signal: last, status: FORCED_EXIT_STATUS },
        Hook::MarkInterrupted { signal: last },
    ];
    lemma_plan_split(signals);
    lemma_deliver_append(hook_plan(init), pair, signal, true);
    lemma_deliver_pair(last, signal, true);
    if init.contains(signal) {
        lemma_armed_signal_exits(init, signal);
    } else {
        assert(last == signal) by {
            let i = choose|i: int| 0 <= i < signals.len() && signals[i] == signal;
            if i != signals.len() - 1 {
                assert(init[i] == signal);
            }
        }
        lemma_deliver_unregistered(init, signal, true);
    }
}

} // verus!
