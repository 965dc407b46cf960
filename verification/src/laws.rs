//! The guarantees the coordinator gives across operations, stated once and
//! proved from the dispatcher's contracts.

use vstd::prelude::*;

verus! {

use crate::app::{
    closed_window_effect, opened_window_effect, producers_after, reload_effect, no_double_start,
    App, DaemonAction, DisplayBackend,
};
use crate::config::{AnchorPoint, Coords, EwwConfig};

/// The subscription invariant: at any quiescent point, a producer
/// subscription exists for a variable exactly when at least one open window
/// references it.  `App::new` establishes `reconciled` and every command of
/// `App::handle_command` preserves it, so this holds at every quiescent
/// point of any command sequence.
pub proof fn law_subscription_invariant<B: DisplayBackend>(app: App<B>, v: Seq<char>)
    requires
        app.wf(),
        app.reconciled(),
    ensures
        app.subscribed(v) <==> (exists|w: Seq<char>|
            app.is_open(w) && #[trigger] app.eww_state.references(w, v)),
{
    if app.subscribed(v) {
        assert(app.used(v));
        let w = choose|w: Seq<char>| app.eww_state.references(w, v);
        assert(app.eww_state.references(w, v));
        assert(app.eww_state.has_window(w));
        assert(app.is_open(w));
    }
    if exists|w: Seq<char>| app.is_open(w) && #[trigger] app.eww_state.references(w, v) {
        let w = choose|w: Seq<char>|
            app.is_open(w) && #[trigger] app.eww_state.references(w, v);
        assert(app.eww_state.references(w, v));
        assert(app.used(v));
    }
}

/// Idempotent open: opening a window named `w` twice in a row leaves exactly
/// one instance named `w`, built from the second invocation's parameters.
pub proof fn law_idempotent_open<B: DisplayBackend>(
    s0: App<B>,
    s1: App<B>,
    s2: App<B>,
    w: Seq<char>,
    anchor1: Option<AnchorPoint>,
    pos1: Option<Coords>,
    size1: Option<Coords>,
    anchor2: Option<AnchorPoint>,
    pos2: Option<Coords>,
    size2: Option<Coords>,
)
    requires
        s2.wf(),
        s0.eww_config.wf(),
        opened_window_effect(s0, s1, w, anchor1, pos1, size1),
        opened_window_effect(s1, s2, w, anchor2, pos2, size2),
    ensures
        s2.is_open(w),
        forall|w2: Seq<char>|
            s2.open_windows.contains_spec(w2) && (#[trigger] s2.open_windows.get_spec(
                w2,
            )).name@ == w ==> w2 == w,
        s2.open_windows.get_spec(w).definition.geometry.anchor_point == (match anchor2 {
            Option::Some(a) => a,
            Option::None => s0.eww_config.window_def(w).geometry.anchor_point,
        }),
        s2.open_windows.get_spec(w).definition.geometry.offset == (match pos2 {
            Option::Some(p) => p,
            Option::None => s0.eww_config.window_def(w).geometry.offset,
        }),
        s2.open_windows.get_spec(w).definition.geometry.size == (match size2 {
            Option::Some(z) => z,
            Option::None => s0.eww_config.window_def(w).geometry.size,
        }),
{
    assert(s1.eww_config == s0.eww_config);
}

/// No stale update: after closing the only window that referenced `v`, the
/// variable is no longer referenced — so a variable update for it is
/// rejected — and no subscription for it remains.
pub proof fn law_no_stale_update<B: DisplayBackend>(
    pre: App<B>,
    post: App<B>,
    w: Seq<char>,
    v: Seq<char>,
)
    requires
        pre.wf(),
        post.wf(),
        closed_window_effect(pre, post, w),
        pre.only_used_in(w, v),
    ensures
        !post.eww_state.referenced(v),
        !post.subscribed(v),
{
    assert(!post.subscribed(v));
    if post.eww_state.referenced(v) {
        let w2 = choose|w2: Seq<char>| post.eww_state.references(w2, v);
        assert(post.eww_state.references(w2, v));
        assert(w2 != w);
        assert(post.eww_state.refs_of(w2) == pre.eww_state.refs_of(w2)) by {
            assert(pre.eww_state.has_window(w2));
        };
        assert(pre.eww_state.references(w2, v));
    }
}

/// Reload preserves the open set: after a configuration replacement, every
/// still-open window was open before and is rebuilt from the new snapshot;
/// when every reopen succeeded the open set is exactly what it was; and the
/// result is reconciled either way — a failed window never leaves the rest
/// unreconciled.
pub proof fn law_reload_preserves_open_set<B: DisplayBackend>(
    pre: App<B>,
    post: App<B>,
    cfg: EwwConfig,
)
    requires
        reload_effect(pre, post, cfg),
        forall|w: Seq<char>| pre.is_open(w) ==> #[trigger] post.is_open(w),
    ensures
        forall|w: Seq<char>| #[trigger] post.is_open(w) <==> pre.is_open(w),
        forall|w: Seq<char>|
            #[trigger] post.is_open(w) ==> post.open_windows.get_spec(
                w,
            ).definition.refs_seq() == cfg.window_def(w).refs_seq(),
        post.reconciled(),
{
}

/// Atomic rename-safe reopen: in any instruction sequence the dispatcher
/// queues, a producer start for a variable is issued only when that
/// variable's producer is not running at that point of the sequence.  With
/// at most one producer per variable running beforehand, no two producers
/// for one variable are ever alive at once — in particular not during a
/// close-then-reopen of the same window name.
pub proof fn law_no_simultaneous_producers(
    acts: Seq<DaemonAction>,
    active: Set<Seq<char>>,
    i: int,
    v: Seq<char>,
)
    requires
        no_double_start(acts, active),
        0 <= i < acts.len(),
        acts[i] matches DaemonAction::StartProducer(s) && s@ == v,
    ensures
        !producers_after(acts.take(i), active).contains(v),
    decreases acts.len(),
{
    if i == acts.len() - 1 {
        assert(acts.take(i) =~= acts.drop_last());
    } else {
        assert(acts.drop_last()[i] == acts[i]);
        assert(acts.drop_last().take(i) =~= acts.take(i));
        law_no_simultaneous_producers(acts.drop_last(), active, i, v);
    }
}

} // verus!
