//! The command dispatcher: the single state machine through which every
//! mutating operation flows.  It owns the variable store, the window
//! registry and the subscription set, keeps them consistent under any
//! interleaving of commands, and emits fire-and-forget instructions for the
//! native window system and the variable-producer subsystem.

use vstd::prelude::*;

verus! {

use itertools::Itertools;
use vstd::string::StringExecFns;
use crate::config::{AnchorPoint, Coords, EwwConfig, EwwWindowDefinition, WindowStacking};
use crate::error::AppError;
use crate::eww_state::EwwState;
use crate::eww_state::{vec_contains_string, views_of};
use crate::smap::StrMap;
use crate::value::PrimitiveValue;

/// Response that the dispatcher hands back for a command that expects one.
#[derive(Debug, PartialEq, Eq, Clone)]
pub enum DaemonResponse {
    Success(String),
    Failure(String),
}

impl DaemonResponse {
    pub fn is_success(&self) -> (r: bool)
        ensures
            r == (self matches DaemonResponse::Success(_)),
    {
        match self {
            DaemonResponse::Success(_) => true,
            _ => false,
        }
    }

    pub fn is_failure(&self) -> (r: bool)
        ensures
            r == (self matches DaemonResponse::Failure(_)),
    {
        !self.is_success()
    }
}

/// A fire-and-forget instruction to a collaborator, queued by the dispatcher
/// and performed outside it, in queue order.
#[derive(Debug, PartialEq, Eq, Clone)]
pub enum DaemonAction {
    /// Start the external producer for a variable.
    StartProducer(String),
    /// Stop the external producer for a variable.
    StopProducer(String),
    /// Stop every producer.
    StopAllProducers,
    /// Close a native window by its handle.
    CloseNative(u64),
    /// Hand stylesheet text to the rendering collaborator.
    LoadCss(String),
    /// Shut the whole daemon down.
    Exit,
}

/// A command for the dispatcher.  Commands that expect a reply get it as the
/// dispatcher's return value; the caller owns the channel it travels on.
pub enum DaemonCommand {
    NoOp,
    UpdateVars(Vec<(String, PrimitiveValue)>),
    ReloadConfigAndCss,
    UpdateConfig(EwwConfig),
    UpdateCss(String),
    OpenMany { windows: Vec<String> },
    OpenWindow {
        window_name: String,
        pos: Option<Coords>,
        size: Option<Coords>,
        anchor: Option<AnchorPoint>,
    },
    CloseWindow { window_name: String },
    KillServer,
    CloseAll,
    PrintState,
    PrintDebug,
    PrintWindows,
}

/// How a native window is stacked relative to normal windows.
#[derive(Debug, PartialEq, Eq, Clone, Copy, Structural)]
pub enum StackingStrategy {
    AlwaysOnTop,
    AlwaysOnBottom,
}

/// The stacking instruction a definition's stacking mode translates to.
pub fn stacking_strategy_of(stacking: WindowStacking) -> (r: StackingStrategy)
    ensures
        r == (match stacking {
            WindowStacking::Foreground => StackingStrategy::AlwaysOnTop,
            WindowStacking::Background => StackingStrategy::AlwaysOnBottom,
        }),
{
    match stacking {
        WindowStacking::Foreground => StackingStrategy::AlwaysOnTop,
        WindowStacking::Background => StackingStrategy::AlwaysOnBottom,
    }
}

/// The display and loading collaborators: builds a widget tree against the
/// current variable values and realizes it as a native window, and re-reads
/// the configuration and stylesheet files.  Implementations live outside the
/// library; nothing is assumed of their behaviour, so the dispatcher is
/// verified for every outcome they may produce.
pub trait DisplayBackend {
    /// Build the window's widget tree against the given variable values and
    /// open a native window for it, returning its handle.
    fn open_window(
        &mut self,
        window_name: &String,
        definition: &EwwWindowDefinition,
        variables: &StrMap<PrimitiveValue>,
    ) -> Result<u64, String>;

    /// Re-read and parse the configuration file.
    fn read_config(&mut self) -> Result<EwwConfig, String>;

    /// Re-read and parse the stylesheet file.
    fn read_css(&mut self) -> Result<String, String>;
}

/// The given texts, one per line: each element in order, a newline between
/// every two.
pub open spec fn joined_lines(xs: Seq<Seq<char>>) -> Seq<char>
    decreases xs.len(),
{
    if xs.len() == 0 {
        Seq::empty()
    } else if xs.len() == 1 {
        xs[0]
    } else {
        joined_lines(xs.drop_last()) + seq!['\n'] + xs.last()
    }
}

/// Relies on itertools' `join`: the items in order, the separator between
/// every two, each item through its `Display` form, which for `String` is the
/// string itself.
#[verifier::external_body]
fn join_lines(items: &Vec<String>) -> (r: String)
    ensures
        r@ == joined_lines(items@.map_values(|s: String| s@)),
{
    items.iter().join("\n")
}

/// A live window instance: its name, the definition it was built from, and
/// its native handle.
#[derive(Debug, PartialEq, Clone)]
pub struct EwwWindow {
    pub name: String,
    pub definition: EwwWindowDefinition,
    pub window_handle: u64,
}

impl EwwWindow {
    /// The instruction that closes this window's native handle.
    pub fn close(self) -> (r: DaemonAction)
        ensures
            r == DaemonAction::CloseNative(self.window_handle),
    {
        DaemonAction::CloseNative(self.window_handle)
    }
}

/// The set of producers running after a sequence of instructions is applied
/// to a subsystem that had `active` running.
pub open spec fn producers_step(act: DaemonAction, active: Set<Seq<char>>) -> Set<Seq<char>> {
    match act {
        DaemonAction::StartProducer(v) => active.insert(v@),
        DaemonAction::StopProducer(v) => active.remove(v@),
        DaemonAction::StopAllProducers => Set::empty(),
        _ => active,
    }
}

/// Fold of `producers_step` over a whole instruction sequence, applied in
/// queue order.
pub open spec fn producers_after(acts: Seq<DaemonAction>, active: Set<Seq<char>>) -> Set<Seq<char>>
    decreases acts.len(),
{
    if acts.len() == 0 {
        active
    } else {
        producers_step(acts.last(), producers_after(acts.drop_last(), active))
    }
}

/// No instruction starts a producer that is already running at that point of
/// the sequence.  Applied in order by the producer subsystem, such a sequence
/// never has two producers for one variable alive at once.
pub open spec fn no_double_start(acts: Seq<DaemonAction>, active: Set<Seq<char>>) -> bool
    decreases acts.len(),
{
    if acts.len() == 0 {
        true
    } else {
        no_double_start(acts.drop_last(), active) && (match acts.last() {
            DaemonAction::StartProducer(v) => !producers_after(
                acts.drop_last(),
                active,
            ).contains(v@),
            _ => true,
        })
    }
}

/// Appending one instruction folds on the right.
pub proof fn lemma_producers_after_push(acts: Seq<DaemonAction>, act: DaemonAction, active: Set<
    Seq<char>,
>)
    ensures
        producers_after(acts.push(act), active) == producers_step(
            act,
            producers_after(acts, active),
        ),
{
    assert(acts.push(act).drop_last() =~= acts);
    assert(acts.push(act).last() == act);
}

/// Appending one instruction keeps `no_double_start` exactly when the
/// instruction is no start of an already running producer.
pub proof fn lemma_no_double_start_push(acts: Seq<DaemonAction>, act: DaemonAction, active: Set<
    Seq<char>,
>)
    ensures
        no_double_start(acts.push(act), active) == (no_double_start(acts, active)
            && (match act {
            DaemonAction::StartProducer(v) => !producers_after(acts, active).contains(v@),
            _ => true,
        })),
{
    assert(acts.push(act).drop_last() =~= acts);
    assert(acts.push(act).last() == act);
}

/// Folding a concatenation folds the parts in turn.
pub proof fn lemma_producers_after_concat(a: Seq<DaemonAction>, b: Seq<DaemonAction>, active: Set<
    Seq<char>,
>)
    ensures
        producers_after(a + b, active) == producers_after(b, producers_after(a, active)),
    decreases b.len(),
{
    if b.len() == 0 {
        assert(a + b =~= a);
    } else {
        assert((a + b).drop_last() =~= a + b.drop_last());
        assert((a + b).last() == b.last());
        lemma_producers_after_concat(a, b.drop_last(), active);
    }
}

/// `no_double_start` of a concatenation splits into the parts.
pub proof fn lemma_no_double_start_concat(a: Seq<DaemonAction>, b: Seq<DaemonAction>, active: Set<
    Seq<char>,
>)
    ensures
        no_double_start(a + b, active) == (no_double_start(a, active) && no_double_start(
            b,
            producers_after(a, active),
        )),
    decreases b.len(),
{
    if b.len() == 0 {
        assert(a + b =~= a);
    } else {
        assert((a + b).drop_last() =~= a + b.drop_last());
        assert((a + b).last() == b.last());
        lemma_no_double_start_concat(a, b.drop_last(), active);
        lemma_producers_after_concat(a, b.drop_last(), active);
    }
}

/// The daemon's state: variable store, configuration snapshot, window
/// registry, subscription set, the queue of not-yet-performed collaborator
/// instructions, and the display backend.
#[verifier::ext_equal]
pub struct App<B: DisplayBackend> {
    pub eww_state: EwwState,
    pub eww_config: EwwConfig,
    pub open_windows: StrMap<EwwWindow>,
    /// The variables whose producer the reconciler has started and not yet
    /// stopped.  At most one subscription exists per variable.
    pub subscriptions: StrMap<()>,
    /// Instructions queued for the collaborators, oldest first.  The runtime
    /// drains and performs them after each command.
    pub pending_actions: Vec<DaemonAction>,
    pub display_backend: B,
}

/// The later state's instruction queue extends the earlier one's.
pub open spec fn action_extends<B: DisplayBackend>(pre: App<B>, post: App<B>) -> bool {
    &&& post.pending_actions@.len() >= pre.pending_actions@.len()
    &&& post.pending_actions@.subrange(0, pre.pending_actions@.len() as int)
        == pre.pending_actions@
}

/// The instructions the step between the two states queued.
pub open spec fn appended_actions<B: DisplayBackend>(pre: App<B>, post: App<B>) -> Seq<
    DaemonAction,
> {
    post.pending_actions@.skip(pre.pending_actions@.len() as int)
}

/// The queued instructions transform the running-producer set exactly as the
/// subscription set changed, and never start an already running producer.
pub open spec fn producer_trace_ok(
    pre_subs: Set<Seq<char>>,
    appended: Seq<DaemonAction>,
    post_subs: Set<Seq<char>>,
) -> bool {
    &&& post_subs == producers_after(appended, pre_subs)
    &&& no_double_start(appended, pre_subs)
}

/// Queue extension composes, and the appended instructions concatenate.
pub proof fn lemma_actions_compose<B: DisplayBackend>(a: App<B>, b: App<B>, c: App<B>)
    requires
        action_extends(a, b),
        action_extends(b, c),
    ensures
        action_extends(a, c),
        appended_actions(a, c) == appended_actions(a, b) + appended_actions(b, c),
{
    assert(c.pending_actions@.subrange(0, a.pending_actions@.len() as int)
        =~= b.pending_actions@.subrange(0, a.pending_actions@.len() as int));
    assert(appended_actions(a, c) =~= appended_actions(a, b) + appended_actions(b, c));
}

/// Producer traces compose across two steps.
pub proof fn lemma_trace_compose<B: DisplayBackend>(a: App<B>, b: App<B>, c: App<B>)
    requires
        action_extends(a, b),
        action_extends(b, c),
        producer_trace_ok(a.subs_set(), appended_actions(a, b), b.subs_set()),
        producer_trace_ok(b.subs_set(), appended_actions(b, c), c.subs_set()),
    ensures
        action_extends(a, c),
        producer_trace_ok(a.subs_set(), appended_actions(a, c), c.subs_set()),
{
    lemma_actions_compose(a, b, c);
    lemma_producers_after_concat(
        appended_actions(a, b),
        appended_actions(b, c),
        a.subs_set(),
    );
    lemma_no_double_start_concat(
        appended_actions(a, b),
        appended_actions(b, c),
        a.subs_set(),
    );
}

/// After window `w` was closed: the window and its reference cache are gone,
/// nothing else changed, and exactly the subscriptions only `w` needed were
/// dropped.
pub open spec fn closed_window_effect<B: DisplayBackend>(
    pre: App<B>,
    post: App<B>,
    w: Seq<char>,
) -> bool {
    &&& post.eww_config == pre.eww_config
    &&& post.eww_state.variables_state == pre.eww_state.variables_state
    &&& !post.is_open(w)
    &&& !post.eww_state.has_window(w)
    &&& forall|w2: Seq<char>| w2 != w ==> #[trigger] post.is_open(w2) == pre.is_open(w2)
    &&& forall|w2: Seq<char>|
        w2 != w && pre.is_open(w2) ==> #[trigger] post.open_windows.get_spec(w2)
            == pre.open_windows.get_spec(w2)
    &&& forall|w2: Seq<char>|
        w2 != w ==> #[trigger] post.eww_state.has_window(w2) == pre.eww_state.has_window(w2)
    &&& forall|w2: Seq<char>|
        w2 != w && pre.eww_state.has_window(w2) ==> #[trigger] post.eww_state.refs_of(w2)
            == pre.eww_state.refs_of(w2)
    &&& forall|v: Seq<char>|
        #[trigger] post.subscribed(v) == (pre.subscribed(v) && !pre.only_used_in(w, v))
    &&& appended_actions(pre, post).len() > 0
    &&& appended_actions(pre, post).last() == DaemonAction::CloseNative(
        pre.open_windows.get_spec(w).window_handle,
    )
    &&& forall|j: int|
        0 <= j < appended_actions(pre, post).len() - 1 ==> (#[trigger] appended_actions(
            pre,
            post,
        )[j] matches DaemonAction::StopProducer(v) && pre.only_used_in(w, v@))
}

/// After window `w` was (re)opened from the current configuration with the
/// given geometry overrides: exactly one instance named `w` is registered,
/// built from this invocation's parameters; its variables all have values
/// (fresh ones a placeholder); and its producers run, started only where no
/// producer was running.
pub open spec fn opened_window_effect<B: DisplayBackend>(
    pre: App<B>,
    post: App<B>,
    w: Seq<char>,
    anchor: Option<AnchorPoint>,
    pos: Option<Coords>,
    size: Option<Coords>,
) -> bool {
    let base = pre.eww_config.window_def(w);
    let def = post.open_windows.get_spec(w).definition;
    &&& post.eww_config == pre.eww_config
    &&& post.is_open(w)
    &&& post.open_windows.get_spec(w).name@ == w
    &&& def.name@ == w
    &&& def.stacking == base.stacking
    &&& def.focusable == base.focusable
    &&& def.screen_number == base.screen_number
    &&& def.refs_seq() == base.refs_seq()
    &&& def.geometry.anchor_point == (match anchor {
        Option::Some(a) => a,
        Option::None => base.geometry.anchor_point,
    })
    &&& def.geometry.offset == (match pos {
        Option::Some(p) => p,
        Option::None => base.geometry.offset,
    })
    &&& def.geometry.size == (match size {
        Option::Some(sz) => sz,
        Option::None => base.geometry.size,
    })
    &&& post.eww_state.has_window(w)
    &&& post.eww_state.refs_of(w) == base.refs_seq()
    &&& forall|w2: Seq<char>| w2 != w ==> #[trigger] post.is_open(w2) == pre.is_open(w2)
    &&& forall|w2: Seq<char>|
        w2 != w && pre.is_open(w2) ==> #[trigger] post.open_windows.get_spec(w2)
            == pre.open_windows.get_spec(w2)
    &&& forall|w2: Seq<char>|
        w2 != w ==> #[trigger] post.eww_state.has_window(w2) == pre.eww_state.has_window(w2)
    &&& forall|w2: Seq<char>|
        w2 != w && pre.eww_state.has_window(w2) ==> #[trigger] post.eww_state.refs_of(w2)
            == pre.eww_state.refs_of(w2)
    &&& forall|v: Seq<char>|
        #[trigger] post.eww_state.var_defined(v) == (pre.eww_state.var_defined(v)
            || base.refs_seq().contains(v))
    &&& forall|v: Seq<char>|
        pre.eww_state.var_defined(v) ==> #[trigger] post.eww_state.var_value(v)
            == pre.eww_state.var_value(v)
    &&& forall|v: Seq<char>|
        !pre.eww_state.var_defined(v) && base.refs_seq().contains(v) ==> (
        #[trigger] post.eww_state.var_value(v) matches PrimitiveValue::Text(s) && s@
            == Seq::<char>::empty())
    &&& forall|v: Seq<char>|
        #[trigger] post.subscribed(v) == ((pre.subscribed(v) && !pre.only_used_in(w, v))
            || base.refs_seq().contains(v))
}

/// After an attempted open failed: no instance named `w` remains, nothing
/// else changed, though placeholder values for the definition's variables may
/// already sit in the store.
pub open spec fn failed_open_effect<B: DisplayBackend>(
    pre: App<B>,
    post: App<B>,
    w: Seq<char>,
) -> bool {
    &&& post.eww_config == pre.eww_config
    &&& !post.is_open(w)
    &&& !post.eww_state.has_window(w)
    &&& forall|w2: Seq<char>| w2 != w ==> #[trigger] post.is_open(w2) == pre.is_open(w2)
    &&& forall|w2: Seq<char>|
        w2 != w && pre.is_open(w2) ==> #[trigger] post.open_windows.get_spec(w2)
            == pre.open_windows.get_spec(w2)
    &&& forall|w2: Seq<char>|
        w2 != w ==> #[trigger] post.eww_state.has_window(w2) == pre.eww_state.has_window(w2)
    &&& forall|w2: Seq<char>|
        w2 != w && pre.eww_state.has_window(w2) ==> #[trigger] post.eww_state.refs_of(w2)
            == pre.eww_state.refs_of(w2)
    &&& forall|v: Seq<char>|
        #[trigger] post.eww_state.var_defined(v) == (pre.eww_state.var_defined(v)
            || (pre.eww_config.has_window(w) && pre.eww_config.window_def(
            w,
        ).refs_seq().contains(v)))
    &&& forall|v: Seq<char>|
        pre.eww_state.var_defined(v) ==> #[trigger] post.eww_state.var_value(v)
            == pre.eww_state.var_value(v)
    &&& forall|v: Seq<char>|
        #[trigger] post.subscribed(v) == (pre.subscribed(v) && !pre.only_used_in(w, v))
}

/// After the configuration snapshot was replaced: the new snapshot is in
/// force, every still-open window was rebuilt from it, no window opened that
/// was not open before, variable values survived, and subscriptions are
/// reconciled.
pub open spec fn reload_effect<B: DisplayBackend>(
    pre: App<B>,
    post: App<B>,
    cfg: EwwConfig,
) -> bool {
    &&& post.eww_config == cfg
    &&& post.reconciled()
    &&& forall|w: Seq<char>| #[trigger] post.is_open(w) ==> pre.is_open(w)
    &&& forall|w: Seq<char>| #[trigger] post.is_open(w) ==> cfg.has_window(w)
    &&& forall|w: Seq<char>|
        #[trigger] post.is_open(w) ==> post.open_windows.get_spec(w).definition.refs_seq()
            == cfg.window_def(w).refs_seq()
    &&& forall|v: Seq<char>|
        pre.eww_state.var_defined(v) ==> #[trigger] post.eww_state.var_defined(v)
    &&& forall|v: Seq<char>|
        pre.eww_state.var_defined(v) ==> #[trigger] post.eww_state.var_value(v)
            == pre.eww_state.var_value(v)
}


/// The variable names of an update list, in order.
pub open spec fn names_of(pairs: Seq<(String, PrimitiveValue)>) -> Seq<Seq<char>> {
    pairs.map_values(|p: (String, PrimitiveValue)| p.0@)
}

/// The value the update list leaves a variable with: its last occurrence's
/// value, or the given default when the list never names it.
pub open spec fn last_value_in(
    pairs: Seq<(String, PrimitiveValue)>,
    v: Seq<char>,
    dflt: PrimitiveValue,
) -> PrimitiveValue
    decreases pairs.len(),
{
    if pairs.len() == 0 {
        dflt
    } else if pairs.last().0@ == v {
        pairs.last().1
    } else {
        last_value_in(pairs.drop_last(), v, dflt)
    }
}

/// How many leading pairs of an update list are applied: all of them up to
/// (not including) the first whose variable no open window references —
/// `set` short-circuits there.
pub open spec fn applied_prefix_len(
    st: crate::eww_state::EwwState,
    pairs: Seq<(String, PrimitiveValue)>,
) -> int
    decreases pairs.len(),
{
    if pairs.len() == 0 {
        0
    } else if !st.referenced(pairs.first().0@) {
        0
    } else {
        1 + applied_prefix_len(st, pairs.drop_first())
    }
}

/// `applied_prefix_len` is the position of the first unreferenced name.
pub proof fn lemma_applied_prefix_len(
    st: crate::eww_state::EwwState,
    pairs: Seq<(String, PrimitiveValue)>,
    k: int,
)
    requires
        0 <= k <= pairs.len(),
        forall|m: int| 0 <= m < k ==> st.referenced(#[trigger] pairs[m].0@),
        k < pairs.len() ==> !st.referenced(pairs[k].0@),
    ensures
        applied_prefix_len(st, pairs) == k,
    decreases pairs.len(),
{
    if pairs.len() == 0 {
    } else if k == 0 {
    } else {
        assert(pairs[0].0@ == pairs.first().0@);
        assert forall|m: int| 0 <= m < k - 1 implies st.referenced(
            #[trigger] pairs.drop_first()[m].0@,
        ) by {
            assert(pairs.drop_first()[m] == pairs[m + 1]);
        };
        if k - 1 < pairs.drop_first().len() {
            assert(pairs.drop_first()[k - 1] == pairs[k]);
        }
        lemma_applied_prefix_len(st, pairs.drop_first(), k - 1);
    }
}

/// The failure lines a reload reports: one for the configuration side when
/// its parse failed or produced an inconsistent snapshot, one for the
/// stylesheet side when its parse failed, in that order.
pub open spec fn reload_error_lines(
    config_result: Result<EwwConfig, String>,
    css_result: Result<String, String>,
) -> Seq<Seq<char>> {
    (match config_result {
        Result::Ok(cfg) => if cfg.wf() {
            Seq::<Seq<char>>::empty()
        } else {
            seq!["Failed to load config: "@ + "invalid configuration"@]
        },
        Result::Err(m) => seq!["Failed to load config: "@ + m@],
    }) + (match css_result {
        Result::Ok(_) => Seq::<Seq<char>>::empty(),
        Result::Err(m) => seq!["Failed to load css: "@ + m@],
    })
}

/// The text `PrintState` answers with: one `name: value` line per variable,
/// in insertion order.
pub open spec fn state_text<B: DisplayBackend>(app: App<B>) -> Seq<char> {
    joined_lines(
        Seq::new(
            app.eww_state.variables_state.key_seq().len(),
            |i: int|
                app.eww_state.variables_state.key_seq()[i] + ": "@
                    + app.eww_state.variables_state.get_spec(
                    app.eww_state.variables_state.key_seq()[i],
                ).display_spec(),
        ),
    )
}

/// The text `PrintWindows` answers with: one line per configured window, a
/// star before the open ones.
pub open spec fn windows_text<B: DisplayBackend>(app: App<B>) -> Seq<char> {
    joined_lines(
        Seq::new(
            app.eww_config.window_names().len(),
            |i: int|
                (if app.is_open(app.eww_config.window_names()[i]) {
                    seq!['*']
                } else {
                    Seq::<char>::empty()
                }) + app.eww_config.window_names()[i],
        ),
    )
}

/// The text `PrintDebug` answers with: the variable state, then the window
/// list.
pub open spec fn debug_text<B: DisplayBackend>(app: App<B>) -> Seq<char> {
    "state:\n"@ + state_text(app) + "\n\nconfig:\n"@ + windows_text(app)
}

/// What each command does: the per-command contract of the dispatcher,
/// relating the state before and after, the response handed back, and the
/// error left for the caller to log.
#[verifier::opaque]
pub open spec fn command_effect<B: DisplayBackend>(
    pre: App<B>,
    post: App<B>,
    event: DaemonCommand,
    resp: Option<DaemonResponse>,
    log: Option<AppError>,
) -> bool {
    match event {
        DaemonCommand::NoOp => post == pre && resp is None && log is None,
        DaemonCommand::UpdateVars(pairs) => {
            &&& resp is None
            &&& post.eww_config == pre.eww_config
            &&& post.open_windows == pre.open_windows
            &&& post.subscriptions == pre.subscriptions
            &&& post.pending_actions == pre.pending_actions
            &&& post.eww_state.window_refs == pre.eww_state.window_refs
            &&& (log is None <==> (forall|j: int|
                0 <= j < pairs@.len() ==> pre.used(#[trigger] names_of(pairs@)[j])))
            &&& (log matches Some(e) ==> (e matches AppError::VarNotReferenced(n) && !pre.used(
                n@,
            ) && names_of(pairs@).contains(n@)))
            &&& (forall|v: Seq<char>|
                #[trigger] post.eww_state.var_defined(v) == pre.eww_state.var_defined(v))
            &&& (forall|v: Seq<char>|
                (#[trigger] post.eww_state.var_defined(v)) ==> post.eww_state.var_value(v)
                    == last_value_in(
                    pairs@.subrange(0, applied_prefix_len(pre.eww_state, pairs@)),
                    v,
                    pre.eww_state.var_value(v),
                ))
            &&& (forall|v: Seq<char>|
                !names_of(pairs@).contains(v) ==> ((#[trigger] post.eww_state.var_defined(v))
                    == pre.eww_state.var_defined(v) && (pre.eww_state.var_defined(v)
                    ==> post.eww_state.var_value(v) == pre.eww_state.var_value(v))))
        },
        DaemonCommand::ReloadConfigAndCss => {
            &&& resp is Some
            &&& (resp matches Some(DaemonResponse::Success(m)) ==> {
                &&& m@ == Seq::<char>::empty()
                &&& post.eww_config.wf()
                &&& reload_effect(pre, post, post.eww_config)
                &&& appended_actions(pre, post).len() > 0
                &&& (appended_actions(pre, post).last() matches DaemonAction::LoadCss(_))
            })
        },
        DaemonCommand::UpdateConfig(cfg) => {
            &&& resp is None
            &&& reload_effect(pre, post, cfg)
            &&& (log is None <==> (forall|w: Seq<char>|
                pre.is_open(w) ==> #[trigger] post.is_open(w)))
            &&& appended_actions(pre, post).len() > 0
            &&& appended_actions(pre, post)[0] == DaemonAction::StopAllProducers
            &&& forall|w: Seq<char>|
                pre.is_open(w) ==> appended_actions(pre, post).contains(
                    DaemonAction::CloseNative(
                        (#[trigger] pre.open_windows.get_spec(w)).window_handle,
                    ),
                )
        },
        DaemonCommand::UpdateCss(css) => {
            &&& resp is None
            &&& log is None
            &&& post.eww_state == pre.eww_state
            &&& post.eww_config == pre.eww_config
            &&& post.open_windows == pre.open_windows
            &&& post.subscriptions == pre.subscriptions
            &&& post.pending_actions@.len() == pre.pending_actions@.len() + 1
            &&& (post.pending_actions@.last() matches DaemonAction::LoadCss(t) && t@ == css@)
        },
        DaemonCommand::OpenMany { windows } => {
            &&& resp is Some
            &&& log is None
            &&& (resp matches Some(DaemonResponse::Success(m)) ==> m@ == Seq::<char>::empty())
            &&& (windows@.len() == 0 ==> resp matches Some(DaemonResponse::Success(_)))
            &&& (resp matches Some(DaemonResponse::Success(_)) ==> (forall|j: int|
                0 <= j < windows@.len() ==> post.is_open(#[trigger] windows@[j]@)))
        },
        DaemonCommand::OpenWindow { window_name, pos, size, anchor } => {
            &&& resp is Some
            &&& log is None
            &&& (resp matches Some(DaemonResponse::Success(m)) ==> m@ == Seq::<char>::empty()
                && pre.eww_config.has_window(window_name@) && opened_window_effect(
                pre,
                post,
                window_name@,
                anchor,
                pos,
                size,
            ))
            &&& (resp matches Some(DaemonResponse::Failure(m2)) ==> failed_open_effect(
                pre,
                post,
                window_name@,
            ))
            &&& (!pre.eww_config.has_window(window_name@) ==> resp matches Some(
                DaemonResponse::Failure(_),
            ))
        },
        DaemonCommand::CloseWindow { window_name } => {
            &&& resp is Some
            &&& log is None
            &&& (pre.is_open(window_name@) ==> (resp matches Some(DaemonResponse::Success(m))
                && m@ == Seq::<char>::empty()) && closed_window_effect(
                pre,
                post,
                window_name@,
            ))
            &&& (!pre.is_open(window_name@) ==> (resp matches Some(DaemonResponse::Failure(
                m2,
            )) && m2@ == "No window with name '"@ + window_name@ + "' is running."@) && post
                == pre)
        },
        DaemonCommand::KillServer => {
            &&& resp is None
            &&& log is None
            &&& post.reconciled()
            &&& forall|w: Seq<char>| !post.is_open(w)
            &&& forall|v: Seq<char>| !post.subscribed(v)
            &&& appended_actions(pre, post).len() > 0
            &&& appended_actions(pre, post)[0] == DaemonAction::StopAllProducers
            &&& appended_actions(pre, post).last() == DaemonAction::Exit
            &&& forall|w: Seq<char>|
                pre.is_open(w) ==> appended_actions(pre, post).contains(
                    DaemonAction::CloseNative(
                        (#[trigger] pre.open_windows.get_spec(w)).window_handle,
                    ),
                )
        },
        DaemonCommand::CloseAll => {
            &&& resp is None
            &&& log is None
            &&& forall|w: Seq<char>| !post.is_open(w)
            &&& post.eww_config == pre.eww_config
            &&& post.eww_state.variables_state == pre.eww_state.variables_state
            &&& (pre.reconciled() ==> (forall|v: Seq<char>| !post.subscribed(v)))
            &&& forall|w: Seq<char>|
                pre.is_open(w) ==> appended_actions(pre, post).contains(
                    DaemonAction::CloseNative(
                        (#[trigger] pre.open_windows.get_spec(w)).window_handle,
                    ),
                )
        },
        DaemonCommand::PrintState => (resp matches Some(DaemonResponse::Success(m)) && m@
            == state_text(pre)) && log is None && post == pre,
        DaemonCommand::PrintWindows => (resp matches Some(DaemonResponse::Success(m)) && m@
            == windows_text(pre)) && log is None && post == pre,
        DaemonCommand::PrintDebug => (resp matches Some(DaemonResponse::Success(m)) && m@
            == debug_text(pre)) && log is None && post == pre,
    }
}

/// An element of either part is an element of the concatenation.
pub proof fn lemma_concat_contains(a: Seq<DaemonAction>, b: Seq<DaemonAction>, x: DaemonAction)
    requires
        a.contains(x) || b.contains(x),
    ensures
        (a + b).contains(x),
{
    if a.contains(x) {
        let k = choose|k: int| 0 <= k < a.len() && a[k] == x;
        assert((a + b)[k] == x);
    } else {
        let k = choose|k: int| 0 <= k < b.len() && b[k] == x;
        assert((a + b)[a.len() + k] == x);
    }
}

/// Two states with the same four collections are equally well formed.
pub proof fn lemma_same_core_wf<B: DisplayBackend>(a: App<B>, b: App<B>)
    requires
        a.eww_state == b.eww_state,
        a.eww_config == b.eww_config,
        a.open_windows == b.open_windows,
        a.subscriptions == b.subscriptions,
        a.wf(),
    ensures
        b.wf(),
{
    assert forall|w: Seq<char>| #[trigger] b.open_windows.contains_spec(w)
        implies b.open_windows.get_spec(w).name@ == w && b.eww_state.has_window(w) by {
        assert(a.open_windows.contains_spec(w));
        assert(a.eww_state.has_window(w));
    };
    assert forall|w: Seq<char>| #[trigger] b.eww_state.has_window(w)
        implies b.open_windows.contains_spec(w) by {
        assert(a.eww_state.has_window(w));
    };
    assert forall|w: Seq<char>, v: Seq<char>| #[trigger] b.eww_state.references(w, v)
        implies b.eww_state.var_defined(v) by {
        assert(a.eww_state.references(w, v));
        assert(a.eww_state.var_defined(v));
    };
}

/// Two states with the same store and subscriptions are equally reconciled.
pub proof fn lemma_same_core_reconciled<B: DisplayBackend>(a: App<B>, b: App<B>)
    requires
        a.eww_state.window_refs == b.eww_state.window_refs,
        a.subscriptions == b.subscriptions,
        a.reconciled(),
    ensures
        b.reconciled(),
{
    assert forall|v: Seq<char>| #[trigger] b.subscribed(v) <==> b.used(v) by {
        assert(b.subscribed(v) == a.subscribed(v));
        if b.used(v) {
            let w = choose|w: Seq<char>| b.eww_state.references(w, v);
            assert(a.eww_state.references(w, v));
            assert(a.used(v));
        }
        if a.used(v) {
            let w = choose|w: Seq<char>| a.eww_state.references(w, v);
            assert(b.eww_state.references(w, v));
        }
    };
}

impl<B: DisplayBackend> App<B> {
    /// Well-formed: the maps are sound, each registered window is keyed by its
    /// own name, the reference caches exist exactly for the open windows, and
    /// every referenced variable has a value in the store.
    pub open spec fn wf(&self) -> bool {
        &&& self.eww_state.wf()
        &&& self.eww_config.wf()
        &&& self.open_windows.wf()
        &&& self.subscriptions.wf()
        &&& forall|w: Seq<char>|
            self.open_windows.contains_spec(w) ==> (#[trigger] self.open_windows.get_spec(
                w,
            )).name@ == w
        &&& forall|w: Seq<char>|
            #![trigger self.open_windows.contains_spec(w)]
            #![trigger self.eww_state.has_window(w)]
            self.open_windows.contains_spec(w) <==> self.eww_state.has_window(w)
        &&& forall|w: Seq<char>, v: Seq<char>|
            #[trigger] self.eww_state.references(w, v) ==> self.eww_state.var_defined(v)
    }

    /// Whether a window of this name is open.
    pub open spec fn is_open(&self, w: Seq<char>) -> bool {
        self.open_windows.contains_spec(w)
    }

    /// Whether a producer subscription is active for this variable.
    pub open spec fn subscribed(&self, v: Seq<char>) -> bool {
        self.subscriptions.contains_spec(v)
    }

    /// Whether some open window references this variable.
    pub open spec fn used(&self, v: Seq<char>) -> bool {
        self.eww_state.referenced(v)
    }

    /// The subscription set, as a set of variable names.
    pub open spec fn subs_set(&self) -> Set<Seq<char>> {
        Set::new(|v: Seq<char>| self.subscribed(v))
    }

    /// The subscription invariant: a producer subscription exists exactly for
    /// the variables referenced by at least one open window.
    pub open spec fn reconciled(&self) -> bool {
        forall|v: Seq<char>| #[trigger] self.subscribed(v) <==> self.used(v)
    }

    /// Variable `v` is referenced by window `w` and by no other open window.
    pub open spec fn only_used_in(&self, w: Seq<char>, v: Seq<char>) -> bool {
        &&& self.eww_state.references(w, v)
        &&& forall|w2: Seq<char>| w2 != w ==> !(#[trigger] self.eww_state.references(w2, v))
    }

    /// A fresh daemon state: the given configuration, no variables, no open
    /// windows, no subscriptions, nothing queued.
    pub fn new(config: EwwConfig, display_backend: B) -> (r: App<B>)
        requires
            config.wf(),
        ensures
            r.wf(),
            r.eww_config == config,
            forall|w: Seq<char>| !r.is_open(w),
            forall|v: Seq<char>| !r.subscribed(v),
            forall|v: Seq<char>| !r.eww_state.var_defined(v),
            r.pending_actions@ == Seq::<DaemonAction>::empty(),
            r.reconciled(),
    {
        App {
            eww_state: EwwState::new(),
            eww_config: config,
            open_windows: StrMap::new(),
            subscriptions: StrMap::new(),
            pending_actions: Vec::new(),
            display_backend,
        }
    }

    /// Record that a producer is to be started: queue the instruction and
    /// register the subscription.
    fn note_start(&mut self, var: &String)
        requires
            old(self).wf(),
            !old(self).subscribed(var@),
        ensures
            final(self).wf(),
            final(self).eww_state == old(self).eww_state,
            final(self).eww_config == old(self).eww_config,
            final(self).open_windows == old(self).open_windows,
            final(self).display_backend == old(self).display_backend,
            final(self).subscribed(var@),
            forall|v: Seq<char>|
                v != var@ ==> final(self).subscribed(v) == old(self).subscribed(v),
            final(self).pending_actions@ == old(self).pending_actions@.push(
                DaemonAction::StartProducer(*var),
            ),
            final(self).subs_set() == old(self).subs_set().insert(var@),
    {
        self.pending_actions.push(DaemonAction::StartProducer(var.clone()));
        self.subscriptions.insert(var.clone(), ());
        proof {
            assert(self.subs_set() =~= old(self).subs_set().insert(var@));
        }
    }

    /// Record that a producer is to be stopped: queue the instruction and drop
    /// the subscription.
    fn note_stop(&mut self, var: &String)
        requires
            old(self).wf(),
        ensures
            final(self).wf(),
            final(self).eww_state == old(self).eww_state,
            final(self).eww_config == old(self).eww_config,
            final(self).open_windows == old(self).open_windows,
            final(self).display_backend == old(self).display_backend,
            !final(self).subscribed(var@),
            forall|v: Seq<char>|
                v != var@ ==> final(self).subscribed(v) == old(self).subscribed(v),
            final(self).pending_actions@ == old(self).pending_actions@.push(
                DaemonAction::StopProducer(*var),
            ),
            final(self).subs_set() == old(self).subs_set().remove(var@),
    {
        self.pending_actions.push(DaemonAction::StopProducer(var.clone()));
        let _ = self.subscriptions.remove(var);
        proof {
            assert(self.subs_set() =~= old(self).subs_set().remove(var@));
        }
    }

    /// Record that every producer is to be stopped.
    fn note_stop_all(&mut self)
        requires
            old(self).wf(),
        ensures
            final(self).wf(),
            final(self).eww_state == old(self).eww_state,
            final(self).eww_config == old(self).eww_config,
            final(self).open_windows == old(self).open_windows,
            final(self).display_backend == old(self).display_backend,
            forall|v: Seq<char>| !final(self).subscribed(v),
            final(self).pending_actions@ == old(self).pending_actions@.push(
                DaemonAction::StopAllProducers,
            ),
            final(self).subs_set() == Set::<Seq<char>>::empty(),
    {
        self.pending_actions.push(DaemonAction::StopAllProducers);
        self.subscriptions = StrMap::new();
        proof {
            assert(self.subs_set() =~= Set::<Seq<char>>::empty());
        }
    }

    /// Whether some open window other than the given one references the
    /// variable.
    fn referenced_by_other(&self, window: &String, var: &String) -> (r: bool)
        requires
            self.wf(),
        ensures
            r == exists|w2: Seq<char>| w2 != window@ && self.eww_state.references(w2, var@),
    {
        let n = self.eww_state.window_refs.len();
        let mut i: usize = 0;
        while i < n
            invariant
                self.wf(),
                n == self.eww_state.window_refs.len_spec(),
                i <= n,
                forall|j: int|
                    0 <= j < i ==> (self.eww_state.window_names()[j] == window@ || !(
                    #[trigger] self.eww_state.refs_of(
                        self.eww_state.window_names()[j],
                    )).contains(var@)),
            decreases n - i,
        {
            let key = self.eww_state.window_refs.key_at(i);
            if !key.eq(window) {
                let refs = self.eww_state.window_refs.val_at(i);
                if vec_contains_string(refs, var) {
                    proof {
                        let w2 = self.eww_state.window_names()[i as int];
                        assert(w2 != window@ && self.eww_state.references(w2, var@));
                    }
                    return true;
                }
            }
            i += 1;
        }
        proof {
            assert forall|w2: Seq<char>|
                !(w2 != window@ && self.eww_state.references(w2, var@)) by {
                if w2 != window@ && self.eww_state.has_window(w2) {
                    self.eww_state.window_refs.lemma_key_seq_contains(w2);
                    self.eww_state.window_refs.lemma_len();
                    assert(self.eww_state.window_names().contains(w2));
                    let j = choose|j: int|
                        0 <= j < self.eww_state.window_names().len()
                            && self.eww_state.window_names()[j] == w2;
                    assert(0 <= j < self.eww_state.window_names().len()
                        && self.eww_state.window_names()[j] == w2);
                    assert(!self.eww_state.refs_of(self.eww_state.window_names()[j]).contains(
                        var@,
                    ));
                }
            };
        }
        false
    }

    /// The variables that are referenced by the given window and by no other
    /// open window: exactly those whose producer must stop when it closes.
    pub fn variables_only_used_in(&self, window: &String) -> (r: Vec<String>)
        requires
            self.wf(),
        ensures
            forall|j: int| 0 <= j < r@.len() ==> self.only_used_in(window@, #[trigger] r@[j]@),
            forall|v: Seq<char>|
                self.only_used_in(window@, v) ==> r@.map_values(|s: String| s@).contains(v),
            forall|i: int, j: int| 0 <= i < j < r@.len() ==> r@[i]@ != r@[j]@,
    {
        let refs = self.eww_state.vars_referenced_in(window);
        let n = refs.len();
        let mut out: Vec<String> = Vec::new();
        let mut i: usize = 0;
        while i < n
            invariant
                self.wf(),
                n == refs@.len(),
                i <= n,
                self.eww_state.has_window(window@) ==> refs@.map_values(|s: String| s@)
                    == self.eww_state.refs_of(window@),
                !self.eww_state.has_window(window@) ==> refs@.len() == 0,
                forall|j: int|
                    0 <= j < out@.len() ==> self.only_used_in(window@, #[trigger] out@[j]@),
                forall|i2: int, j: int| 0 <= i2 < j < out@.len() ==> out@[i2]@ != out@[j]@,
                forall|j: int|
                    0 <= j < i && self.only_used_in(window@, #[trigger] refs@[j]@)
                        ==> out@.map_values(|s: String| s@).contains(refs@[j]@),
            decreases n - i,
        {
            let v = &refs[i];
            proof {
                assert(refs@.map_values(|s: String| s@)[i as int] == v@);
            }
            let other = self.referenced_by_other(window, v);
            if !other {
                let already = vec_contains_string(&out, v);
                if !already {
                    proof {
                        assert(self.eww_state.references(window@, v@));
                    }
                    let ghost out_before = out@;
                    out.push(v.clone());
                    proof {
                        assert forall|i2: int| 0 <= i2 < out_before.len()
                            implies out_before[i2]@ != v@ by {
                            assert(out_before.map_values(|s: String| s@)[i2]
                                == out_before[i2]@);
                        };
                        assert forall|j: int|
                            0 <= j < i + 1 && self.only_used_in(window@, #[trigger] refs@[j]@)
                            implies out@.map_values(|s: String| s@).contains(refs@[j]@) by {
                            if refs@[j]@ == v@ {
                                assert(out@.map_values(|s: String| s@)[out@.len() - 1] == v@);
                            } else {
                                assert(views_of(out_before) == out_before.map_values(
                                    |s: String| s@,
                                ));
                                assert(views_of(out_before).contains(refs@[j]@));
                                let m = choose|m: int|
                                    0 <= m < views_of(out_before).len() && #[trigger] views_of(
                                        out_before,
                                    )[m] == refs@[j]@;
                                assert(out@.map_values(|s: String| s@)[m] == refs@[j]@);
                            }
                        };
                    }
                }
            }
            i += 1;
        }
        proof {
            assert forall|v: Seq<char>| self.only_used_in(window@, v)
                implies out@.map_values(|s: String| s@).contains(v) by {
                assert(self.eww_state.references(window@, v));
                assert(self.eww_state.refs_of(window@).contains(v));
                let j = choose|j: int|
                    0 <= j < self.eww_state.refs_of(window@).len() && self.eww_state.refs_of(
                        window@,
                    )[j] == v;
                assert(refs@.map_values(|s: String| s@)[j] == v);
                assert(refs@[j]@ == v);
            };
        }
        out
    }

    /// Close a window: stop the producers of the variables only it needed,
    /// close its native handle, unregister it and drop its reference cache.
    /// Stops are queued before the close, so a close-then-reopen of the same
    /// name never has two producers for one variable alive at once.
    pub fn close_window(&mut self, window_name: &String) -> (r: Result<(), AppError>)
        requires
            old(self).wf(),
        ensures
            final(self).wf(),
            final(self).display_backend == old(self).display_backend,
            action_extends(*old(self), *final(self)),
            producer_trace_ok(
                old(self).subs_set(),
                appended_actions(*old(self), *final(self)),
                final(self).subs_set(),
            ),
            forall|j: int|
                0 <= j < appended_actions(*old(self), *final(self)).len() ==> !(
                #[trigger] appended_actions(*old(self), *final(self))[j] matches
                    DaemonAction::StartProducer(_)),
            old(self).reconciled() ==> final(self).reconciled(),
            match r {
                Result::Ok(()) => old(self).is_open(window_name@) && closed_window_effect(
                    *old(self),
                    *final(self),
                    window_name@,
                ),
                Result::Err(e) => {
                    &&& !old(self).is_open(window_name@)
                    &&& *final(self) == *old(self)
                    &&& (e matches AppError::NotOpen(n) && n@ == window_name@)
                },
            },
    {
        let ghost pre = *old(self);
        proof {
            assert(pre.pending_actions@.subrange(0, pre.pending_actions@.len() as int)
                =~= pre.pending_actions@);
            assert(appended_actions(pre, pre) =~= Seq::<DaemonAction>::empty());
        }
        let only = self.variables_only_used_in(window_name);
        let ghost only_views = only@.map_values(|s: String| s@);
        let n = only.len();
        let mut i: usize = 0;
        while i < n
            invariant
                pre == *old(self),
                n == only@.len(),
                i <= n,
                only_views == only@.map_values(|s: String| s@),
                forall|j: int| 0 <= j < only@.len() ==> pre.only_used_in(window_name@, #[trigger] only@[j]@),
                forall|v: Seq<char>|
                    pre.only_used_in(window_name@, v) ==> only_views.contains(v),
                forall|i2: int, j: int| 0 <= i2 < j < only@.len() ==> only@[i2]@ != only@[j]@,
                self.wf(),
                i == 0 ==> *self == pre,
                self.eww_state == pre.eww_state,
                self.eww_config == pre.eww_config,
                self.open_windows == pre.open_windows,
                self.display_backend == pre.display_backend,
                action_extends(pre, *self),
                appended_actions(pre, *self) == only@.subrange(0, i as int).map_values(
                    |s: String| DaemonAction::StopProducer(s),
                ),
                forall|v: Seq<char>|
                    #[trigger] self.subscribed(v) == (pre.subscribed(v)
                        && !only_views.subrange(0, i as int).contains(v)),
                producer_trace_ok(
                    pre.subs_set(),
                    appended_actions(pre, *self),
                    self.subs_set(),
                ),
            decreases n - i,
        {
            let ghost mid = *self;
            let v = &only[i];
            self.note_stop(v);
            proof {
                assert(self.pending_actions@.subrange(0, pre.pending_actions@.len() as int)
                    =~= pre.pending_actions@);
                assert(only@.subrange(0, i + 1).map_values(
                    |s: String| DaemonAction::StopProducer(s),
                ) =~= only@.subrange(0, i as int).map_values(
                    |s: String| DaemonAction::StopProducer(s),
                ).push(DaemonAction::StopProducer(only@[i as int])));
                assert(appended_actions(pre, *self) =~= appended_actions(pre, mid).push(
                    DaemonAction::StopProducer(*v),
                ));
                lemma_producers_after_push(
                    appended_actions(pre, mid),
                    DaemonAction::StopProducer(*v),
                    pre.subs_set(),
                );
                lemma_no_double_start_push(
                    appended_actions(pre, mid),
                    DaemonAction::StopProducer(*v),
                    pre.subs_set(),
                );
                assert forall|x: Seq<char>|
                    #[trigger] self.subscribed(x) == (pre.subscribed(x)
                        && !only_views.subrange(0, i + 1).contains(x)) by {
                    assert(only_views.subrange(0, i + 1) =~= only_views.subrange(
                        0,
                        i as int,
                    ).push(v@));
                    vstd::seq_lib::lemma_seq_contains_after_push(
                        only_views.subrange(0, i as int),
                        v@,
                        x,
                    );
                };
            }
            i += 1;
        }
        proof {
            assert(only_views.subrange(0, n as int) =~= only_views);
            assert(only@.subrange(0, n as int) =~= only@);
            assert forall|v: Seq<char>| only_views.contains(v)
                implies pre.only_used_in(window_name@, v) by {
                let j = choose|j: int| 0 <= j < only_views.len() && only_views[j] == v;
                assert(only@[j]@ == v);
            };
        }
        let ghost stopped = *self;
        match self.open_windows.remove(window_name) {
            Option::None => {
                proof {
                    // the window was not open, so nothing was only used in it
                    // and the loop queued nothing
                    assert(!pre.eww_state.has_window(window_name@));
                    if only@.len() > 0 {
                        assert(pre.only_used_in(window_name@, only@[0]@));
                    }
                    assert(appended_actions(pre, *self) =~= Seq::<DaemonAction>::empty());
                    assert(self.pending_actions@ =~= pre.pending_actions@);
                    assert(self.subs_set() =~= pre.subs_set());
                    assert(*self =~= pre);
                }
                Result::Err(AppError::NotOpen(window_name.clone()))
            },
            Option::Some(window) => {
                let ghost removed = *self;
                let close_act = window.close();
                self.pending_actions.push(close_act);
                self.eww_state.clear_window_state(window_name);
                proof {
                    assert(self.pending_actions@.subrange(
                        0,
                        pre.pending_actions@.len() as int,
                    ) =~= pre.pending_actions@);
                    assert(appended_actions(pre, *self) =~= appended_actions(
                        pre,
                        stopped,
                    ).push(DaemonAction::CloseNative(window.window_handle)));
                    lemma_producers_after_push(
                        appended_actions(pre, stopped),
                        DaemonAction::CloseNative(window.window_handle),
                        pre.subs_set(),
                    );
                    lemma_no_double_start_push(
                        appended_actions(pre, stopped),
                        DaemonAction::CloseNative(window.window_handle),
                        pre.subs_set(),
                    );
                    assert(self.subscriptions == stopped.subscriptions);
                    assert(self.subs_set() =~= stopped.subs_set());
                    assert(self.eww_state.variables_state == pre.eww_state.variables_state);
                    assert(!self.eww_state.has_window(window_name@));
                    assert(!self.is_open(window_name@));
                    assert forall|w2: Seq<char>| w2 != window_name@ implies #[trigger] self
                        .eww_state.has_window(w2) == pre.eww_state.has_window(w2) by {};
                    assert forall|w2: Seq<char>|
                        w2 != window_name@ && pre.eww_state.has_window(w2)
                        implies #[trigger] self.eww_state.refs_of(w2) == pre.eww_state.refs_of(
                        w2,
                    ) by {};
                    assert forall|v: Seq<char>|
                        #[trigger] self.subscribed(v) == (pre.subscribed(v)
                            && !pre.only_used_in(window_name@, v)) by {
                        assert(self.subscribed(v) == stopped.subscribed(v));
                        assert(stopped.subscribed(v) == (pre.subscribed(v)
                            && !only_views.contains(v)));
                        if only_views.contains(v) {
                            assert(pre.only_used_in(window_name@, v));
                        }
                        if pre.only_used_in(window_name@, v) {
                            assert(only_views.contains(v));
                        }
                    };
                    assert(window == pre.open_windows.get_spec(window_name@));
                    assert(appended_actions(pre, *self).last() == DaemonAction::CloseNative(
                        pre.open_windows.get_spec(window_name@).window_handle,
                    ));
                    assert(appended_actions(pre, stopped) == only@.subrange(
                        0,
                        n as int,
                    ).map_values(|s2: String| DaemonAction::StopProducer(s2)));
                    assert forall|j: int|
                        0 <= j < appended_actions(pre, *self).len() - 1
                        implies (#[trigger] appended_actions(pre, *self)[j] matches
                            DaemonAction::StopProducer(v) && pre.only_used_in(
                            window_name@,
                            v@,
                        )) by {
                        assert(appended_actions(pre, *self)[j] == appended_actions(
                            pre,
                            stopped,
                        )[j]);
                        assert(appended_actions(pre, stopped)[j]
                            == DaemonAction::StopProducer(only@[j]));
                        assert(pre.only_used_in(window_name@, only@[j]@));
                    };
                    assert(closed_window_effect(pre, *self, window_name@));
                    assert forall|w2: Seq<char>| #[trigger] self.open_windows.contains_spec(
                        w2,
                    ) implies self.open_windows.get_spec(w2).name@ == w2
                        && self.eww_state.has_window(w2) by {
                        assert(w2 != window_name@);
                        assert(pre.open_windows.contains_spec(w2));
                    };
                    assert forall|w2: Seq<char>| #[trigger] self.eww_state.has_window(w2)
                        implies self.open_windows.contains_spec(w2) by {
                        assert(w2 != window_name@);
                    };
                    assert forall|w2: Seq<char>, v: Seq<char>|
                        #[trigger] self.eww_state.references(w2, v)
                        implies self.eww_state.var_defined(v) by {
                        assert(w2 != window_name@);
                        assert(self.eww_state.has_window(w2));
                        assert(pre.eww_state.has_window(w2));
                        assert(self.eww_state.refs_of(w2) == pre.eww_state.refs_of(w2));
                        assert(pre.eww_state.references(w2, v));
                    };
                    assert(self.wf());
                    if pre.reconciled() {
                        assert forall|v: Seq<char>|
                            #[trigger] self.subscribed(v) <==> self.used(v) by {
                            if self.subscribed(v) {
                                assert(pre.subscribed(v) && !pre.only_used_in(
                                    window_name@,
                                    v,
                                ));
                                assert(pre.used(v));
                                let w1 = choose|w1: Seq<char>|
                                    pre.eww_state.references(w1, v);
                                assert(pre.eww_state.references(w1, v));
                                if w1 == window_name@ {
                                    assert(pre.eww_state.references(window_name@, v));
                                    assert(!(forall|w2: Seq<char>|
                                        w2 != window_name@ ==> !(
                                        #[trigger] pre.eww_state.references(w2, v))));
                                    let w2 = choose|w2: Seq<char>|
                                        !(w2 != window_name@ ==> !pre.eww_state.references(
                                            w2,
                                            v,
                                        ));
                                    assert(w2 != window_name@ && pre.eww_state.references(
                                        w2,
                                        v,
                                    ));
                                    assert(self.eww_state.references(w2, v));
                                    assert(self.used(v));
                                } else {
                                    assert(self.eww_state.references(w1, v));
                                    assert(self.used(v));
                                }
                            }
                            if self.used(v) {
                                let w2 = choose|w2: Seq<char>|
                                    self.eww_state.references(w2, v);
                                assert(self.eww_state.references(w2, v));
                                assert(w2 != window_name@);
                                assert(pre.eww_state.references(w2, v));
                                assert(pre.used(v));
                                assert(pre.subscribed(v));
                                assert(!pre.only_used_in(window_name@, v));
                                assert(self.subscribed(v));
                            }
                        };
                    }
                }
                Result::Ok(())
            },
        }
    }

    /// Open a window: close any prior instance of the same name, resolve its
    /// definition from the current configuration, apply the geometry
    /// overrides, give every referenced variable a value, build and realize
    /// it through the backend, register it, and start the producers of the
    /// variables that had none running.
    pub fn open_window(
        &mut self,
        window_name: &String,
        pos: Option<Coords>,
        size: Option<Coords>,
        anchor: Option<AnchorPoint>,
    ) -> (r: Result<(), AppError>)
        requires
            old(self).wf(),
        ensures
            final(self).wf(),
            action_extends(*old(self), *final(self)),
            producer_trace_ok(
                old(self).subs_set(),
                appended_actions(*old(self), *final(self)),
                final(self).subs_set(),
            ),
            old(self).reconciled() ==> final(self).reconciled(),
            match r {
                Result::Ok(()) => old(self).eww_config.has_window(window_name@)
                    && opened_window_effect(
                    *old(self),
                    *final(self),
                    window_name@,
                    anchor,
                    pos,
                    size,
                ),
                Result::Err(e) => failed_open_effect(*old(self), *final(self), window_name@)
                    && ((e matches AppError::WindowNotInConfig(n) && n@ == window_name@
                    && !old(self).eww_config.has_window(window_name@)) || (
                e matches AppError::BuildFailure(_) && old(self).eww_config.has_window(
                    window_name@,
                ))),
            },
    {
        let ghost pre = *old(self);
        let _ = self.close_window(window_name);
        let ghost closed = *self;
        proof {
            if !pre.is_open(window_name@) {
                assert(closed == pre);
                assert forall|v: Seq<char>| !pre.only_used_in(window_name@, v) by {
                    assert(!pre.eww_state.has_window(window_name@));
                };
            }
            assert forall|v: Seq<char>|
                #[trigger] closed.subscribed(v) == (pre.subscribed(v) && !pre.only_used_in(
                    window_name@,
                    v,
                )) by {};
            assert(!closed.is_open(window_name@));
            assert(!closed.eww_state.has_window(window_name@));
        }
        let base = match self.eww_config.get_window(window_name) {
            Result::Ok(d) => d.duplicate(),
            Result::Err(e) => {
                proof {
                    assert(failed_open_effect(pre, *self, window_name@));
                }
                return Result::Err(e);
            },
        };
        let ghost base_spec = pre.eww_config.window_def(window_name@);
        proof {
            assert(base.name@ == window_name@);
            assert(views_of(base.var_refs@) == base_spec.refs_seq());
        }
        let def = EwwWindowDefinition {
            name: base.name,
            geometry: base.geometry.override_if_given(anchor, pos, size),
            stacking: base.stacking,
            focusable: base.focusable,
            screen_number: base.screen_number,
            var_refs: base.var_refs,
        };
        // give every referenced variable a value before the widget tree is
        // built against the store, so a fresh window is not blank until the
        // first producer tick
        let nrefs = def.var_refs.len();
        let mut i: usize = 0;
        while i < nrefs
            invariant
                closed.wf(),
                nrefs == def.var_refs@.len(),
                i <= nrefs,
                views_of(def.var_refs@) == def.refs_seq(),
                self.wf(),
                self.eww_config == closed.eww_config,
                self.open_windows == closed.open_windows,
                self.subscriptions == closed.subscriptions,
                self.pending_actions == closed.pending_actions,
                self.display_backend == closed.display_backend,
                self.eww_state.window_refs == closed.eww_state.window_refs,
                forall|v: Seq<char>|
                    #[trigger] self.eww_state.var_defined(v) == (closed.eww_state.var_defined(
                        v,
                    ) || def.refs_seq().subrange(0, i as int).contains(v)),
                forall|v: Seq<char>|
                    closed.eww_state.var_defined(v) ==> #[trigger] self.eww_state.var_value(v)
                        == closed.eww_state.var_value(v),
                forall|v: Seq<char>|
                    !closed.eww_state.var_defined(v) && self.eww_state.var_defined(v) ==> (
                    #[trigger] self.eww_state.var_value(v) matches PrimitiveValue::Text(s)
                        && s@ == Seq::<char>::empty()),
                forall|j: int|
                    0 <= j < i ==> self.eww_state.var_defined(
                        #[trigger] def.refs_seq()[j],
                    ),
            decreases nrefs - i,
        {
            let v = &def.var_refs[i];
            proof {
                assert(def.refs_seq()[i as int] == v@);
            }
            let ghost before = *self;
            if !self.eww_state.has_variable(v) {
                self.eww_state.define_variable(v.clone(), PrimitiveValue::uninitialized());
            }
            proof {
                assert forall|v2: Seq<char>|
                    #[trigger] self.eww_state.var_defined(v2) == (
                    closed.eww_state.var_defined(v2) || def.refs_seq().subrange(
                        0,
                        i + 1,
                    ).contains(v2)) by {
                    vstd::seq_lib::lemma_seq_contains_after_push(
                        def.refs_seq().subrange(0, i as int),
                        v@,
                        v2,
                    );
                    assert(def.refs_seq().subrange(0, i + 1) =~= def.refs_seq().subrange(
                        0,
                        i as int,
                    ).push(v@));
                };
                assert forall|w2: Seq<char>, v2: Seq<char>|
                    #[trigger] self.eww_state.references(w2, v2)
                    implies self.eww_state.var_defined(v2) by {
                    assert(closed.eww_state.references(w2, v2));
                    assert(closed.eww_state.var_defined(v2));
                };
            }
            i += 1;
        }
        proof {
            assert(def.refs_seq().subrange(0, nrefs as int) =~= def.refs_seq());
            assert(def.refs_seq() == base_spec.refs_seq());
        }
        let ghost filled = *self;
        let built = self.display_backend.open_window(
            window_name,
            &def,
            self.eww_state.get_variables(),
        );
        proof {
            assert(self.eww_state == filled.eww_state);
            assert(self.open_windows == filled.open_windows);
            assert(self.subscriptions == filled.subscriptions);
            assert(self.pending_actions == filled.pending_actions);
        }
        match built {
            Result::Err(msg) => {
                proof {
                    assert(self.subs_set() =~= closed.subs_set());
                    assert(appended_actions(pre, *self) == appended_actions(pre, closed));
                    assert forall|v: Seq<char>|
                        #[trigger] self.subscribed(v) == (pre.subscribed(v)
                            && !pre.only_used_in(window_name@, v)) by {
                        assert(self.subscribed(v) == closed.subscribed(v));
                    };
                    assert forall|v: Seq<char>|
                        #[trigger] self.eww_state.var_defined(v) == (
                        pre.eww_state.var_defined(v) || (pre.eww_config.has_window(
                            window_name@,
                        ) && pre.eww_config.window_def(window_name@).refs_seq().contains(
                            v,
                        ))) by {
                        assert(self.eww_state.var_defined(v) == (
                        closed.eww_state.var_defined(v) || base_spec.refs_seq().contains(
                            v,
                        )));
                        assert(closed.eww_state.var_defined(v) == pre.eww_state.var_defined(
                            v,
                        ));
                    };
                    assert forall|v: Seq<char>| pre.eww_state.var_defined(v)
                        implies #[trigger] self.eww_state.var_value(v)
                        == pre.eww_state.var_value(v) by {
                        assert(closed.eww_state.var_defined(v));
                        assert(self.eww_state.var_value(v) == closed.eww_state.var_value(v));
                    };
                    assert forall|w2: Seq<char>| w2 != window_name@ implies #[trigger] self
                        .eww_state.has_window(w2) == pre.eww_state.has_window(w2) by {
                        assert(self.eww_state.has_window(w2) == closed.eww_state.has_window(
                            w2,
                        ));
                    };
                    assert forall|w2: Seq<char>|
                        w2 != window_name@ && pre.eww_state.has_window(w2)
                        implies #[trigger] self.eww_state.refs_of(w2)
                        == pre.eww_state.refs_of(w2) by {
                        assert(self.eww_state.refs_of(w2) == closed.eww_state.refs_of(w2));
                    };
                    assert forall|w2: Seq<char>| w2 != window_name@ implies #[trigger] self
                        .is_open(w2) == pre.is_open(w2) by {
                        assert(self.is_open(w2) == closed.is_open(w2));
                    };
                    assert forall|w2: Seq<char>| w2 != window_name@ && pre.is_open(w2)
                        implies #[trigger] self.open_windows.get_spec(w2)
                        == pre.open_windows.get_spec(w2) by {
                        assert(self.open_windows.get_spec(w2) == closed.open_windows.get_spec(
                            w2,
                        ));
                    };
                    assert(failed_open_effect(pre, *self, window_name@));
                    assert(appended_actions(pre, *self) == appended_actions(pre, closed));
                    assert(producer_trace_ok(
                        pre.subs_set(),
                        appended_actions(pre, *self),
                        self.subs_set(),
                    ));
                    if pre.reconciled() {
                        assert(self.reconciled()) by {
                            assert forall|v: Seq<char>|
                                #[trigger] self.subscribed(v) <==> self.used(v) by {
                                assert(self.subscribed(v) == closed.subscribed(v));
                                assert(self.eww_state.window_refs
                                    == closed.eww_state.window_refs);
                                assert(closed.reconciled());
                                if self.subscribed(v) {
                                    let w1 = choose|w1: Seq<char>|
                                        closed.eww_state.references(w1, v);
                                    assert(closed.eww_state.references(w1, v));
                                    assert(self.eww_state.references(w1, v));
                                }
                                if self.used(v) {
                                    let w1 = choose|w1: Seq<char>|
                                        self.eww_state.references(w1, v);
                                    assert(self.eww_state.references(w1, v));
                                    assert(closed.eww_state.references(w1, v));
                                }
                            };
                        };
                    }
                }
                Result::Err(AppError::BuildFailure(msg))
            },
            Result::Ok(handle) => {
                self.eww_state.put_window_refs(
                    window_name.clone(),
                    crate::value::clone_string_vec(&def.var_refs),
                );
                let start_list = crate::value::clone_string_vec(&def.var_refs);
                let window = EwwWindow {
                    name: window_name.clone(),
                    definition: def,
                    window_handle: handle,
                };
                self.open_windows.insert(window_name.clone(), window);
                let ghost registered = *self;
                proof {
                    assert(registered.eww_state.refs_of(window_name@) == base_spec.refs_seq());
                    assert(views_of(start_list@) == base_spec.refs_seq());
                    assert forall|w2: Seq<char>| #[trigger] self.open_windows.contains_spec(
                        w2,
                    ) implies self.open_windows.get_spec(w2).name@ == w2
                        && self.eww_state.has_window(w2) by {
                        if w2 != window_name@ {
                            assert(closed.open_windows.contains_spec(w2));
                        }
                    };
                    assert forall|w2: Seq<char>| #[trigger] self.eww_state.has_window(w2)
                        implies self.open_windows.contains_spec(w2) by {
                        if w2 != window_name@ {
                            assert(closed.eww_state.has_window(w2));
                        }
                    };
                    assert forall|w2: Seq<char>, v: Seq<char>|
                        #[trigger] self.eww_state.references(w2, v)
                        implies self.eww_state.var_defined(v) by {
                        assert(self.eww_state.variables_state
                            == filled.eww_state.variables_state);
                        assert(self.eww_state.var_defined(v) == filled.eww_state.var_defined(
                            v,
                        ));
                        if w2 == window_name@ {
                            assert(self.eww_state.refs_of(window_name@)
                                == base_spec.refs_seq());
                            assert(base_spec.refs_seq().contains(v));
                            assert(def.refs_seq().contains(v));
                            assert(filled.eww_state.var_defined(v));
                        } else {
                            assert(self.eww_state.has_window(w2) == closed.eww_state
                                .has_window(w2));
                            assert(self.eww_state.refs_of(w2) == filled.eww_state.refs_of(
                                w2,
                            ));
                            assert(filled.eww_state.references(w2, v));
                            assert(closed.eww_state.references(w2, v));
                            assert(closed.eww_state.var_defined(v));
                            assert(filled.eww_state.var_defined(v));
                        }
                    };
                    assert(self.wf());
                    assert(registered.subs_set() =~= closed.subs_set());
                    assert(appended_actions(pre, registered) == appended_actions(pre, closed));
                    assert(registered.pending_actions@.subrange(
                        0,
                        registered.pending_actions@.len() as int,
                    ) =~= registered.pending_actions@);
                    assert(appended_actions(registered, registered) =~= Seq::<
                        DaemonAction,
                    >::empty());
                    assert(appended_actions(pre, registered) + appended_actions(
                        registered,
                        registered,
                    ) =~= appended_actions(pre, registered));
                    assert(producer_trace_ok(
                        pre.subs_set(),
                        appended_actions(pre, *self),
                        self.subs_set(),
                    ));
                }
                let nstart = start_list.len();
                let mut j: usize = 0;
                while j < nstart
                    invariant
                        pre == *old(self),
                        nstart == start_list@.len(),
                        j <= nstart,
                        views_of(start_list@) == base_spec.refs_seq(),
                        self.wf(),
                        self.eww_state == registered.eww_state,
                        self.eww_config == registered.eww_config,
                        self.open_windows == registered.open_windows,
                        self.display_backend == registered.display_backend,
                        action_extends(registered, *self),
                        action_extends(pre, *self),
                        appended_actions(pre, *self) == appended_actions(pre, registered)
                            + appended_actions(registered, *self),
                        forall|x: Seq<char>|
                            #[trigger] self.subscribed(x) == (registered.subscribed(x)
                                || base_spec.refs_seq().subrange(0, j as int).contains(x)),
                        producer_trace_ok(
                            pre.subs_set(),
                            appended_actions(pre, *self),
                            self.subs_set(),
                        ),
                    decreases nstart - j,
                {
                    let ghost mid = *self;
                    let v = &start_list[j];
                    proof {
                        assert(base_spec.refs_seq()[j as int] == v@);
                    }
                    let have = self.subscriptions.contains_key(v);
                    if !have {
                        self.note_start(v);
                        proof {
                            assert(self.pending_actions@.subrange(
                                0,
                                pre.pending_actions@.len() as int,
                            ) =~= pre.pending_actions@);
                            assert(self.pending_actions@.subrange(
                                0,
                                registered.pending_actions@.len() as int,
                            ) =~= registered.pending_actions@);
                            assert(appended_actions(pre, *self) =~= appended_actions(
                                pre,
                                mid,
                            ).push(DaemonAction::StartProducer(*v)));
                            assert(appended_actions(pre, *self) =~= appended_actions(
                                pre,
                                registered,
                            ) + appended_actions(registered, *self));
                            lemma_producers_after_push(
                                appended_actions(pre, mid),
                                DaemonAction::StartProducer(*v),
                                pre.subs_set(),
                            );
                            lemma_no_double_start_push(
                                appended_actions(pre, mid),
                                DaemonAction::StartProducer(*v),
                                pre.subs_set(),
                            );
                            assert(!mid.subs_set().contains(v@));
                        }
                    }
                    proof {
                        assert forall|x: Seq<char>|
                            #[trigger] self.subscribed(x) == (registered.subscribed(x)
                                || base_spec.refs_seq().subrange(0, j + 1).contains(x)) by {
                            vstd::seq_lib::lemma_seq_contains_after_push(
                                base_spec.refs_seq().subrange(0, j as int),
                                v@,
                                x,
                            );
                            assert(base_spec.refs_seq().subrange(0, j + 1)
                                =~= base_spec.refs_seq().subrange(0, j as int).push(v@));
                        };
                    }
                    j += 1;
                }
                proof {
                    assert(base_spec.refs_seq().subrange(0, nstart as int)
                        =~= base_spec.refs_seq());
                    assert forall|v: Seq<char>|
                        #[trigger] self.subscribed(v) == ((pre.subscribed(v)
                            && !pre.only_used_in(window_name@, v))
                            || base_spec.refs_seq().contains(v)) by {
                        assert(self.subscribed(v) == (registered.subscribed(v)
                            || base_spec.refs_seq().contains(v)));
                        assert(registered.subscribed(v) == closed.subscribed(v));
                    };
                    assert forall|v: Seq<char>|
                        #[trigger] self.eww_state.var_defined(v) == (
                        pre.eww_state.var_defined(v) || base_spec.refs_seq().contains(
                            v,
                        )) by {
                        assert(self.eww_state.variables_state
                            == filled.eww_state.variables_state);
                        assert(filled.eww_state.var_defined(v) == (
                        closed.eww_state.var_defined(v) || def.refs_seq().contains(v)));
                        assert(closed.eww_state.var_defined(v) == pre.eww_state.var_defined(
                            v,
                        ));
                    };
                    assert forall|v: Seq<char>| pre.eww_state.var_defined(v)
                        implies #[trigger] self.eww_state.var_value(v)
                        == pre.eww_state.var_value(v) by {
                        assert(closed.eww_state.var_defined(v));
                        assert(filled.eww_state.var_value(v) == closed.eww_state.var_value(
                            v,
                        ));
                        assert(self.eww_state.var_value(v) == filled.eww_state.var_value(v));
                    };
                    assert forall|v: Seq<char>|
                        !pre.eww_state.var_defined(v) && base_spec.refs_seq().contains(v)
                        implies (#[trigger] self.eww_state.var_value(v) matches
                            PrimitiveValue::Text(s) && s@ == Seq::<char>::empty()) by {
                        assert(!closed.eww_state.var_defined(v));
                        assert(filled.eww_state.var_defined(v));
                        assert(self.eww_state.var_value(v) == filled.eww_state.var_value(v));
                    };
                    assert forall|w2: Seq<char>| w2 != window_name@ implies #[trigger] self
                        .eww_state.has_window(w2) == pre.eww_state.has_window(w2) by {
                        assert(self.eww_state.has_window(w2) == registered.eww_state
                            .has_window(w2));
                        assert(registered.eww_state.has_window(w2) == closed.eww_state
                            .has_window(w2));
                    };
                    assert forall|w2: Seq<char>|
                        w2 != window_name@ && pre.eww_state.has_window(w2)
                        implies #[trigger] self.eww_state.refs_of(w2)
                        == pre.eww_state.refs_of(w2) by {
                        assert(closed.eww_state.has_window(w2));
                        assert(registered.eww_state.refs_of(w2) == closed.eww_state.refs_of(
                            w2,
                        ));
                        assert(self.eww_state.refs_of(w2) == registered.eww_state.refs_of(
                            w2,
                        ));
                    };
                    assert forall|w2: Seq<char>| w2 != window_name@ implies #[trigger] self
                        .is_open(w2) == pre.is_open(w2) by {
                        assert(self.is_open(w2) == registered.is_open(w2));
                        assert(registered.is_open(w2) == closed.is_open(w2));
                    };
                    assert forall|w2: Seq<char>| w2 != window_name@ && pre.is_open(w2)
                        implies #[trigger] self.open_windows.get_spec(w2)
                        == pre.open_windows.get_spec(w2) by {
                        assert(closed.is_open(w2));
                        assert(registered.open_windows.get_spec(w2)
                            == closed.open_windows.get_spec(w2));
                        assert(self.open_windows.get_spec(w2) == registered.open_windows
                            .get_spec(w2));
                    };
                    assert(opened_window_effect(pre, *self, window_name@, anchor, pos, size));
                    if pre.reconciled() {
                        assert forall|v: Seq<char>|
                            #[trigger] self.subscribed(v) <==> self.used(v) by {
                            if base_spec.refs_seq().contains(v) {
                                assert(self.eww_state.references(window_name@, v));
                                assert(self.subscribed(v));
                            } else {
                                if self.subscribed(v) {
                                    assert(pre.subscribed(v) && !pre.only_used_in(
                                        window_name@,
                                        v,
                                    ));
                                    let w1 = choose|w1: Seq<char>|
                                        pre.eww_state.references(w1, v);
                                    assert(pre.eww_state.references(w1, v));
                                    if w1 == window_name@ {
                                        let w2 = choose|w2: Seq<char>|
                                            !(w2 != window_name@
                                                ==> !pre.eww_state.references(w2, v));
                                        assert(w2 != window_name@
                                            && pre.eww_state.references(w2, v));
                                        assert(self.eww_state.references(w2, v));
                                    } else {
                                        assert(self.eww_state.references(w1, v));
                                    }
                                }
                                if self.used(v) {
                                    let w2 = choose|w2: Seq<char>|
                                        self.eww_state.references(w2, v);
                                    assert(self.eww_state.references(w2, v));
                                    assert(w2 != window_name@);
                                    assert(pre.eww_state.references(w2, v));
                                    assert(pre.subscribed(v));
                                    assert(!pre.only_used_in(window_name@, v));
                                    assert(self.subscribed(v));
                                }
                            }
                        };
                    }
                }
                Result::Ok(())
            },
        }
    }

    /// Replace the configuration snapshot: stop every producer, discard the
    /// old snapshot and all reference caches, close every open window, and
    /// reopen each previously open name against the new snapshot.  A failure
    /// to reopen one window does not block reopening the others; the joined
    /// failures are reported.
    #[verifier::rlimit(100)]
    #[verifier::spinoff_prover]
    pub fn load_config(&mut self, config: EwwConfig) -> (r: Result<(), AppError>)
        requires
            old(self).wf(),
            config.wf(),
        ensures
            final(self).wf(),
            action_extends(*old(self), *final(self)),
            producer_trace_ok(
                old(self).subs_set(),
                appended_actions(*old(self), *final(self)),
                final(self).subs_set(),
            ),
            reload_effect(*old(self), *final(self), config),
            appended_actions(*old(self), *final(self)).len() > 0,
            appended_actions(*old(self), *final(self))[0] == DaemonAction::StopAllProducers,
            forall|w: Seq<char>|
                old(self).is_open(w) ==> appended_actions(*old(self), *final(self)).contains(
                    DaemonAction::CloseNative(
                        (#[trigger] old(self).open_windows.get_spec(w)).window_handle,
                    ),
                ),
            r is Ok <==> (forall|w: Seq<char>|
                old(self).is_open(w) ==> #[trigger] final(self).is_open(w)),
    {
        let ghost pre = *old(self);
        proof {
            assert(pre.pending_actions@.subrange(0, pre.pending_actions@.len() as int)
                =~= pre.pending_actions@);
        }
        let names = self.open_windows.keys();
        let ghost name_views = names@.map_values(|s: String| s@);
        proof {
            self.open_windows.lemma_len();
            self.open_windows.lemma_keys_unique();
        }
        self.note_stop_all();
        let ghost stopped = *self;
        proof {
            assert(self.pending_actions@.subrange(0, pre.pending_actions@.len() as int)
                =~= pre.pending_actions@);
            assert(appended_actions(pre, *self) =~= seq![DaemonAction::StopAllProducers]);
            lemma_producers_after_push(
                Seq::<DaemonAction>::empty(),
                DaemonAction::StopAllProducers,
                pre.subs_set(),
            );
            lemma_no_double_start_push(
                Seq::<DaemonAction>::empty(),
                DaemonAction::StopAllProducers,
                pre.subs_set(),
            );
            assert(Seq::<DaemonAction>::empty().push(DaemonAction::StopAllProducers)
                =~= seq![DaemonAction::StopAllProducers]);
            assert(producer_trace_ok(
                pre.subs_set(),
                appended_actions(pre, *self),
                self.subs_set(),
            ));
        }
        // unregister every window and queue the close of its native handle
        let n = names.len();
        let mut i: usize = 0;
        while i < n
            invariant
                pre == *old(self),
                n == names@.len(),
                i <= n,
                name_views == names@.map_values(|s: String| s@),
                name_views == pre.open_windows.key_seq(),
                forall|a: int, b: int| 0 <= a < b < n ==> name_views[a] != name_views[b],
                self.wf(),
                self.eww_config == pre.eww_config,
                self.eww_state.variables_state == pre.eww_state.variables_state,
                self.display_backend == pre.display_backend,
                forall|v: Seq<char>| !self.subscribed(v),
                self.subs_set() == Set::<Seq<char>>::empty(),
                forall|w: Seq<char>|
                    #[trigger] self.is_open(w) == (pre.is_open(w)
                        && !name_views.subrange(0, i as int).contains(w)),
                forall|w: Seq<char>|
                    self.is_open(w) ==> #[trigger] self.open_windows.get_spec(w)
                        == pre.open_windows.get_spec(w),
                forall|w: Seq<char>|
                    #[trigger] self.eww_state.has_window(w) == (pre.eww_state.has_window(w)
                        && !name_views.subrange(0, i as int).contains(w)),
                appended_actions(pre, *self).len() > 0,
                appended_actions(pre, *self)[0] == DaemonAction::StopAllProducers,
                forall|w: Seq<char>|
                    pre.is_open(w) && name_views.subrange(0, i as int).contains(w)
                        ==> appended_actions(pre, *self).contains(
                        DaemonAction::CloseNative(
                            (#[trigger] pre.open_windows.get_spec(w)).window_handle,
                        ),
                    ),
                action_extends(pre, *self),
                producer_trace_ok(
                    pre.subs_set(),
                    appended_actions(pre, *self),
                    self.subs_set(),
                ),
            decreases n - i,
        {
            let ghost mid = *self;
            proof {
                assert(names@.map_values(|s: String| s@)[i as int] == names@[i as int]@);
                assert(pre.open_windows.key_seq()[i as int] == name_views[i as int]);
                assert(pre.open_windows.key_seq().contains(name_views[i as int]));
                pre.open_windows.lemma_key_seq_contains(name_views[i as int]);
                assert(!name_views.subrange(0, i as int).contains(
                    name_views[i as int],
                )) by {
                    if name_views.subrange(0, i as int).contains(name_views[i as int]) {
                        let j = choose|j: int|
                            0 <= j < i && name_views.subrange(0, i as int)[j]
                                == name_views[i as int];
                        assert(name_views[j] == name_views[i as int]);
                    }
                };
                assert(mid.is_open(name_views[i as int]));
            }
            match self.open_windows.remove(&names[i]) {
                Option::Some(w) => {
                    let act = w.close();
                    self.pending_actions.push(act);
                    proof {
                        assert(self.pending_actions@.subrange(
                            0,
                            pre.pending_actions@.len() as int,
                        ) =~= pre.pending_actions@);
                        assert(appended_actions(pre, *self) =~= appended_actions(
                            pre,
                            mid,
                        ).push(DaemonAction::CloseNative(w.window_handle)));
                        lemma_producers_after_push(
                            appended_actions(pre, mid),
                            DaemonAction::CloseNative(w.window_handle),
                            pre.subs_set(),
                        );
                        lemma_no_double_start_push(
                            appended_actions(pre, mid),
                            DaemonAction::CloseNative(w.window_handle),
                            pre.subs_set(),
                        );
                        assert(w == pre.open_windows.get_spec(name_views[i as int]));
                        assert(appended_actions(pre, *self)[0] == appended_actions(
                            pre,
                            mid,
                        )[0]);
                        assert forall|w2: Seq<char>|
                            pre.is_open(w2) && name_views.subrange(0, i + 1).contains(w2)
                            implies appended_actions(pre, *self).contains(
                            DaemonAction::CloseNative(
                                (#[trigger] pre.open_windows.get_spec(w2)).window_handle,
                            ),
                        ) by {
                            vstd::seq_lib::lemma_seq_contains_after_push(
                                name_views.subrange(0, i as int),
                                name_views[i as int],
                                w2,
                            );
                            assert(name_views.subrange(0, i + 1) =~= name_views.subrange(
                                0,
                                i as int,
                            ).push(name_views[i as int]));
                            vstd::seq_lib::lemma_seq_contains_after_push(
                                appended_actions(pre, mid),
                                DaemonAction::CloseNative(w.window_handle),
                                DaemonAction::CloseNative(
                                    pre.open_windows.get_spec(w2).window_handle,
                                ),
                            );
                            assert(appended_actions(pre, *self) =~= appended_actions(
                                pre,
                                mid,
                            ).push(DaemonAction::CloseNative(w.window_handle)));
                        };
                    }
                },
                Option::None => {
                    proof {
                        assert(false);
                    }
                },
            }
            self.eww_state.clear_window_state(&names[i]);
            proof {
                assert(self.subs_set() =~= mid.subs_set());
                assert forall|w2: Seq<char>| #[trigger] self.open_windows.contains_spec(
                    w2,
                ) implies self.open_windows.get_spec(w2).name@ == w2
                    && self.eww_state.has_window(w2) by {
                    assert(w2 != name_views[i as int]);
                    assert(mid.open_windows.contains_spec(w2));
                    assert(mid.eww_state.has_window(w2));
                };
                assert forall|w2: Seq<char>| #[trigger] self.eww_state.has_window(w2)
                    implies self.open_windows.contains_spec(w2) by {
                    assert(w2 != name_views[i as int]);
                    assert(mid.eww_state.has_window(w2));
                };
                assert forall|w2: Seq<char>, v2: Seq<char>|
                    #[trigger] self.eww_state.references(w2, v2)
                    implies self.eww_state.var_defined(v2) by {
                    assert(w2 != name_views[i as int]);
                    assert(self.eww_state.refs_of(w2) == mid.eww_state.refs_of(w2));
                    assert(mid.eww_state.references(w2, v2));
                    assert(mid.eww_state.var_defined(v2));
                };
                assert(self.wf());
                assert forall|v2: Seq<char>| !self.subscribed(v2) by {
                    assert(!mid.subscribed(v2));
                };
                assert forall|w: Seq<char>|
                    #[trigger] self.is_open(w) == (pre.is_open(w)
                        && !name_views.subrange(0, i + 1).contains(w)) by {
                    vstd::seq_lib::lemma_seq_contains_after_push(
                        name_views.subrange(0, i as int),
                        name_views[i as int],
                        w,
                    );
                    assert(name_views.subrange(0, i + 1) =~= name_views.subrange(
                        0,
                        i as int,
                    ).push(name_views[i as int]));
                    assert(mid.is_open(w) == (pre.is_open(w) && !name_views.subrange(
                        0,
                        i as int,
                    ).contains(w)));
                    if w != name_views[i as int] {
                        assert(self.is_open(w) == mid.is_open(w));
                    } else {
                        assert(!self.is_open(w));
                    }
                };
                assert forall|w: Seq<char>|
                    #[trigger] self.eww_state.has_window(w) == (pre.eww_state.has_window(w)
                        && !name_views.subrange(0, i + 1).contains(w)) by {
                    vstd::seq_lib::lemma_seq_contains_after_push(
                        name_views.subrange(0, i as int),
                        name_views[i as int],
                        w,
                    );
                    assert(name_views.subrange(0, i + 1) =~= name_views.subrange(
                        0,
                        i as int,
                    ).push(name_views[i as int]));
                    assert(mid.eww_state.has_window(w) == (pre.eww_state.has_window(w)
                        && !name_views.subrange(0, i as int).contains(w)));
                    if w != name_views[i as int] {
                        assert(self.eww_state.has_window(w) == mid.eww_state.has_window(w));
                    } else {
                        assert(!self.eww_state.has_window(w));
                    }
                };
            }
            i += 1;
        }
        proof {
            assert(name_views.subrange(0, n as int) =~= name_views);
            assert forall|w: Seq<char>| !self.is_open(w) by {
                if pre.is_open(w) {
                    pre.open_windows.lemma_key_seq_contains(w);
                }
            };
            assert forall|w: Seq<char>| !self.eww_state.has_window(w) by {
                if pre.eww_state.has_window(w) {
                    assert(pre.is_open(w));
                    pre.open_windows.lemma_key_seq_contains(w);
                }
            };
        }
        let ghost emptied = *self;
        self.eww_state.clear_all_window_states();
        self.eww_config = config;
        let ghost reset = *self;
        proof {
            assert(reset.subscriptions == emptied.subscriptions);
            assert forall|v: Seq<char>| !reset.subscribed(v) by {
                assert(!emptied.subscribed(v));
            };
            assert forall|v: Seq<char>| !reset.used(v) by {
                if reset.eww_state.referenced(v) {
                    let w = choose|w: Seq<char>| reset.eww_state.references(w, v);
                    assert(reset.eww_state.has_window(w));
                }
            };
            assert forall|w2: Seq<char>| !#[trigger] reset.open_windows.contains_spec(
                w2,
            ) by {
                assert(!emptied.is_open(w2));
            };
            assert(reset.wf());
            assert(reset.reconciled());
            assert(reset.subs_set() =~= emptied.subs_set());
            assert(appended_actions(pre, reset) == appended_actions(pre, emptied));
            assert(appended_actions(pre, emptied).len() > 0);
            assert(appended_actions(pre, emptied)[0] == DaemonAction::StopAllProducers);
            assert(name_views.subrange(0, n as int) =~= name_views);
            assert forall|w: Seq<char>| pre.is_open(w)
                implies appended_actions(pre, reset).contains(
                DaemonAction::CloseNative(
                    (#[trigger] pre.open_windows.get_spec(w)).window_handle,
                ),
            ) by {
                pre.open_windows.lemma_key_seq_contains(w);
                assert(name_views.contains(w));
                assert(appended_actions(pre, emptied).contains(
                    DaemonAction::CloseNative(pre.open_windows.get_spec(w).window_handle),
                ));
            };
            assert forall|v: Seq<char>| pre.eww_state.var_defined(v)
                implies #[trigger] reset.eww_state.var_defined(v)
                && reset.eww_state.var_value(v) == pre.eww_state.var_value(v) by {
                assert(reset.eww_state.variables_state == pre.eww_state.variables_state);
            };
        }
        // reopen every previously open window against the new snapshot
        let mut failures: Vec<String> = Vec::new();
        let mut i2: usize = 0;
        while i2 < n
            invariant
                pre == *old(self),
                n == names@.len(),
                i2 <= n,
                name_views == names@.map_values(|s: String| s@),
                name_views == pre.open_windows.key_seq(),
                forall|a: int, b: int| 0 <= a < b < n ==> name_views[a] != name_views[b],
                self.wf(),
                self.reconciled(),
                self.eww_config == config,
                forall|v: Seq<char>|
                    pre.eww_state.var_defined(v) ==> #[trigger] self.eww_state.var_defined(v)
                        && self.eww_state.var_value(v) == pre.eww_state.var_value(v),
                forall|w: Seq<char>|
                    #[trigger] self.is_open(w) ==> name_views.subrange(0, i2 as int).contains(
                        w,
                    ),
                forall|w: Seq<char>|
                    #[trigger] self.is_open(w) ==> config.has_window(w)
                        && self.open_windows.get_spec(w).definition.refs_seq()
                        == config.window_def(w).refs_seq(),
                (failures@.len() == 0) <==> (forall|j: int|
                    0 <= j < i2 ==> #[trigger] self.is_open(name_views[j])),
                appended_actions(pre, *self).len() > 0,
                appended_actions(pre, *self)[0] == DaemonAction::StopAllProducers,
                forall|w: Seq<char>|
                    pre.is_open(w) ==> appended_actions(pre, *self).contains(
                        DaemonAction::CloseNative(
                            (#[trigger] pre.open_windows.get_spec(w)).window_handle,
                        ),
                    ),
                action_extends(pre, *self),
                producer_trace_ok(
                    pre.subs_set(),
                    appended_actions(pre, *self),
                    self.subs_set(),
                ),
            decreases n - i2,
        {
            let ghost mid = *self;
            proof {
                assert(names@.map_values(|s: String| s@)[i2 as int] == names@[i2 as int]@);
            }
            let result = self.open_window(&names[i2], Option::None, Option::None, Option::None);
            proof {
                lemma_actions_compose(pre, mid, *self);
                lemma_trace_compose(pre, mid, *self);
                assert((appended_actions(pre, mid) + appended_actions(mid, *self))[0]
                    == appended_actions(pre, mid)[0]);
                assert forall|w: Seq<char>| pre.is_open(w)
                    implies appended_actions(pre, *self).contains(
                    DaemonAction::CloseNative(
                        (#[trigger] pre.open_windows.get_spec(w)).window_handle,
                    ),
                ) by {
                    lemma_concat_contains(
                        appended_actions(pre, mid),
                        appended_actions(mid, *self),
                        DaemonAction::CloseNative(
                            pre.open_windows.get_spec(w).window_handle,
                        ),
                    );
                };
                assert forall|w: Seq<char>| #[trigger] self.is_open(w)
                    implies name_views.subrange(0, i2 + 1).contains(w) by {
                    vstd::seq_lib::lemma_seq_contains_after_push(
                        name_views.subrange(0, i2 as int),
                        name_views[i2 as int],
                        w,
                    );
                    assert(name_views.subrange(0, i2 + 1) =~= name_views.subrange(
                        0,
                        i2 as int,
                    ).push(name_views[i2 as int]));
                    if w != name_views[i2 as int] {
                        assert(mid.is_open(w));
                    }
                };
            }
            match result {
                Result::Ok(()) => {
                    proof {
                        assert forall|j: int| 0 <= j < i2 + 1 && failures@.len() == 0
                            implies #[trigger] self.is_open(name_views[j]) by {
                            if j < i2 {
                                assert(mid.is_open(name_views[j]));
                                assert(name_views[j] != name_views[i2 as int]);
                            }
                        };
                        if failures@.len() != 0 {
                            let j = choose|j: int|
                                0 <= j < i2 && !mid.is_open(#[trigger] name_views[j]);
                            assert(name_views[j] != name_views[i2 as int]);
                            assert(!self.is_open(name_views[j]));
                        }
                    }
                },
                Result::Err(e) => {
                    failures.push(e.message());
                    proof {
                        assert(!self.is_open(name_views[i2 as int]));
                        assert(failures@.len() != 0);
                    }
                },
            }
            i2 += 1;
        }
        proof {
            assert(name_views.subrange(0, n as int) =~= name_views);
            assert forall|w: Seq<char>| #[trigger] self.is_open(w)
                implies pre.is_open(w) by {
                assert(name_views.contains(w));
                pre.open_windows.lemma_key_seq_contains(w);
            };
        }
        proof {
            assert forall|v: Seq<char>| pre.eww_state.var_defined(v)
                implies #[trigger] self.eww_state.var_defined(v) by {};
            assert forall|v: Seq<char>| pre.eww_state.var_defined(v)
                implies #[trigger] self.eww_state.var_value(v) == pre.eww_state.var_value(
                v,
            ) by {
                assert(self.eww_state.var_defined(v));
            };
            assert(reload_effect(pre, *self, config));
        }
        if failures.len() == 0 {
            proof {
                assert forall|w: Seq<char>| pre.is_open(w)
                    implies #[trigger] self.is_open(w) by {
                    pre.open_windows.lemma_key_seq_contains(w);
                    let j = choose|j: int|
                        0 <= j < name_views.len() && name_views[j] == w;
                    assert(0 <= j < name_views.len() && name_views[j] == w);
                    assert(self.is_open(name_views[j]));
                };
            }
            Result::Ok(())
        } else {
            proof {
                let j = choose|j: int|
                    0 <= j < n && !self.is_open(#[trigger] name_views[j]);
                assert(pre.open_windows.key_seq()[j] == name_views[j]);
                assert(pre.open_windows.key_seq().contains(name_views[j]));
                pre.open_windows.lemma_key_seq_contains(name_views[j]);
                assert(pre.is_open(name_views[j]) && !self.is_open(name_views[j]));
            }
            Result::Err(AppError::BuildFailure(join_lines(&failures)))
        }
    }

    /// Shut the daemon down: stop every producer, close every window, drop
    /// every reference cache, and queue the process-wide exit signal.
    fn stop_application(&mut self)
        requires
            old(self).wf(),
        ensures
            final(self).wf(),
            final(self).reconciled(),
            final(self).eww_config == old(self).eww_config,
            forall|w: Seq<char>| !final(self).is_open(w),
            forall|v: Seq<char>| !final(self).subscribed(v),
            action_extends(*old(self), *final(self)),
            producer_trace_ok(
                old(self).subs_set(),
                appended_actions(*old(self), *final(self)),
                final(self).subs_set(),
            ),
            appended_actions(*old(self), *final(self)).last() == DaemonAction::Exit,
            appended_actions(*old(self), *final(self)).len() > 0,
            appended_actions(*old(self), *final(self))[0] == DaemonAction::StopAllProducers,
            forall|w: Seq<char>|
                old(self).is_open(w) ==> appended_actions(*old(self), *final(self)).contains(
                    DaemonAction::CloseNative(
                        (#[trigger] old(self).open_windows.get_spec(w)).window_handle,
                    ),
                ),
    {
        let ghost pre = *old(self);
        proof {
            assert(pre.pending_actions@.subrange(0, pre.pending_actions@.len() as int)
                =~= pre.pending_actions@);
        }
        let names = self.open_windows.keys();
        let ghost name_views = names@.map_values(|s: String| s@);
        proof {
            self.open_windows.lemma_len();
            self.open_windows.lemma_keys_unique();
        }
        self.note_stop_all();
        proof {
            assert(self.pending_actions@.subrange(0, pre.pending_actions@.len() as int)
                =~= pre.pending_actions@);
            assert(appended_actions(pre, *self) =~= seq![DaemonAction::StopAllProducers]);
            lemma_producers_after_push(
                Seq::<DaemonAction>::empty(),
                DaemonAction::StopAllProducers,
                pre.subs_set(),
            );
            lemma_no_double_start_push(
                Seq::<DaemonAction>::empty(),
                DaemonAction::StopAllProducers,
                pre.subs_set(),
            );
            assert(Seq::<DaemonAction>::empty().push(DaemonAction::StopAllProducers)
                =~= seq![DaemonAction::StopAllProducers]);
        }
        let n = names.len();
        let mut i: usize = 0;
        while i < n
            invariant
                pre == *old(self),
                n == names@.len(),
                i <= n,
                name_views == names@.map_values(|s: String| s@),
                name_views == pre.open_windows.key_seq(),
                forall|a: int, b: int| 0 <= a < b < n ==> name_views[a] != name_views[b],
                self.wf(),
                self.eww_config == pre.eww_config,
                self.display_backend == pre.display_backend,
                forall|v: Seq<char>| !self.subscribed(v),
                self.subs_set() == Set::<Seq<char>>::empty(),
                forall|w: Seq<char>|
                    #[trigger] self.is_open(w) == (pre.is_open(w)
                        && !name_views.subrange(0, i as int).contains(w)),
                forall|w: Seq<char>|
                    self.is_open(w) ==> #[trigger] self.open_windows.get_spec(w)
                        == pre.open_windows.get_spec(w),
                appended_actions(pre, *self)[0] == DaemonAction::StopAllProducers,
                forall|w: Seq<char>|
                    pre.is_open(w) && name_views.subrange(0, i as int).contains(w)
                        ==> appended_actions(pre, *self).contains(
                        DaemonAction::CloseNative(
                            (#[trigger] pre.open_windows.get_spec(w)).window_handle,
                        ),
                    ),
                action_extends(pre, *self),
                appended_actions(pre, *self).len() > 0,
                producer_trace_ok(
                    pre.subs_set(),
                    appended_actions(pre, *self),
                    self.subs_set(),
                ),
            decreases n - i,
        {
            let ghost mid = *self;
            proof {
                assert(names@.map_values(|s: String| s@)[i as int] == names@[i as int]@);
                assert(pre.open_windows.key_seq()[i as int] == name_views[i as int]);
                assert(pre.open_windows.key_seq().contains(name_views[i as int]));
                pre.open_windows.lemma_key_seq_contains(name_views[i as int]);
                assert(!name_views.subrange(0, i as int).contains(
                    name_views[i as int],
                )) by {
                    if name_views.subrange(0, i as int).contains(name_views[i as int]) {
                        let j = choose|j: int|
                            0 <= j < i && name_views.subrange(0, i as int)[j]
                                == name_views[i as int];
                        assert(name_views[j] == name_views[i as int]);
                    }
                };
                assert(mid.is_open(name_views[i as int]));
            }
            match self.open_windows.remove(&names[i]) {
                Option::Some(w) => {
                    let act = w.close();
                    self.pending_actions.push(act);
                    proof {
                        assert(self.pending_actions@.subrange(
                            0,
                            pre.pending_actions@.len() as int,
                        ) =~= pre.pending_actions@);
                        assert(appended_actions(pre, *self) =~= appended_actions(
                            pre,
                            mid,
                        ).push(DaemonAction::CloseNative(w.window_handle)));
                        lemma_producers_after_push(
                            appended_actions(pre, mid),
                            DaemonAction::CloseNative(w.window_handle),
                            pre.subs_set(),
                        );
                        lemma_no_double_start_push(
                            appended_actions(pre, mid),
                            DaemonAction::CloseNative(w.window_handle),
                            pre.subs_set(),
                        );
                        assert(w == pre.open_windows.get_spec(name_views[i as int]));
                        assert(appended_actions(pre, *self)[0] == appended_actions(
                            pre,
                            mid,
                        )[0]);
                        assert forall|w2: Seq<char>|
                            pre.is_open(w2) && name_views.subrange(0, i + 1).contains(w2)
                            implies appended_actions(pre, *self).contains(
                            DaemonAction::CloseNative(
                                (#[trigger] pre.open_windows.get_spec(w2)).window_handle,
                            ),
                        ) by {
                            vstd::seq_lib::lemma_seq_contains_after_push(
                                name_views.subrange(0, i as int),
                                name_views[i as int],
                                w2,
                            );
                            assert(name_views.subrange(0, i + 1) =~= name_views.subrange(
                                0,
                                i as int,
                            ).push(name_views[i as int]));
                            vstd::seq_lib::lemma_seq_contains_after_push(
                                appended_actions(pre, mid),
                                DaemonAction::CloseNative(w.window_handle),
                                DaemonAction::CloseNative(
                                    pre.open_windows.get_spec(w2).window_handle,
                                ),
                            );
                            assert(appended_actions(pre, *self) =~= appended_actions(
                                pre,
                                mid,
                            ).push(DaemonAction::CloseNative(w.window_handle)));
                        };
                    }
                },
                Option::None => {
                    proof {
                        assert(false);
                    }
                },
            }
            self.eww_state.clear_window_state(&names[i]);
            proof {
                assert(self.subs_set() =~= mid.subs_set());
                assert forall|w2: Seq<char>| #[trigger] self.open_windows.contains_spec(
                    w2,
                ) implies self.open_windows.get_spec(w2).name@ == w2
                    && self.eww_state.has_window(w2) by {
                    assert(w2 != name_views[i as int]);
                    assert(mid.open_windows.contains_spec(w2));
                    assert(mid.eww_state.has_window(w2));
                };
                assert forall|w2: Seq<char>| #[trigger] self.eww_state.has_window(w2)
                    implies self.open_windows.contains_spec(w2) by {
                    assert(w2 != name_views[i as int]);
                    assert(mid.eww_state.has_window(w2));
                };
                assert forall|w2: Seq<char>, v2: Seq<char>|
                    #[trigger] self.eww_state.references(w2, v2)
                    implies self.eww_state.var_defined(v2) by {
                    assert(w2 != name_views[i as int]);
                    assert(self.eww_state.refs_of(w2) == mid.eww_state.refs_of(w2));
                    assert(mid.eww_state.references(w2, v2));
                    assert(mid.eww_state.var_defined(v2));
                };
                assert(self.wf());
                assert forall|v2: Seq<char>| !self.subscribed(v2) by {
                    assert(!mid.subscribed(v2));
                };
                assert forall|w: Seq<char>|
                    #[trigger] self.is_open(w) == (pre.is_open(w)
                        && !name_views.subrange(0, i + 1).contains(w)) by {
                    vstd::seq_lib::lemma_seq_contains_after_push(
                        name_views.subrange(0, i as int),
                        name_views[i as int],
                        w,
                    );
                    assert(name_views.subrange(0, i + 1) =~= name_views.subrange(
                        0,
                        i as int,
                    ).push(name_views[i as int]));
                    assert(mid.is_open(w) == (pre.is_open(w) && !name_views.subrange(
                        0,
                        i as int,
                    ).contains(w)));
                    if w != name_views[i as int] {
                        assert(self.is_open(w) == mid.is_open(w));
                    } else {
                        assert(!self.is_open(w));
                    }
                };
            }
            i += 1;
        }
        proof {
            assert(name_views.subrange(0, n as int) =~= name_views);
            assert forall|w: Seq<char>| !self.is_open(w) by {
                if pre.is_open(w) {
                    pre.open_windows.lemma_key_seq_contains(w);
                }
            };
        }
        let ghost emptied2 = *self;
        self.eww_state.clear_all_window_states();
        proof {
            assert(self.subscriptions == emptied2.subscriptions);
            assert forall|v: Seq<char>| !self.subscribed(v) by {
                assert(!emptied2.subscribed(v));
            };
            assert forall|v: Seq<char>| !self.used(v) by {
                if self.eww_state.referenced(v) {
                    let w = choose|w: Seq<char>| self.eww_state.references(w, v);
                    assert(self.eww_state.has_window(w));
                }
            };
            assert forall|w2: Seq<char>| !#[trigger] self.open_windows.contains_spec(
                w2,
            ) by {
                assert(!emptied2.is_open(w2));
            };
            assert(self.wf());
            assert(self.reconciled());
            assert(self.subs_set() =~= emptied2.subs_set());
            assert(appended_actions(pre, *self) == appended_actions(pre, emptied2));
        }
        let ghost cleared = *self;
        self.pending_actions.push(DaemonAction::Exit);
        proof {
            assert(self.pending_actions@.subrange(0, pre.pending_actions@.len() as int)
                =~= pre.pending_actions@);
            assert(appended_actions(pre, *self) =~= appended_actions(pre, cleared).push(
                DaemonAction::Exit,
            ));
            lemma_producers_after_push(
                appended_actions(pre, cleared),
                DaemonAction::Exit,
                pre.subs_set(),
            );
            lemma_no_double_start_push(
                appended_actions(pre, cleared),
                DaemonAction::Exit,
                pre.subs_set(),
            );
            assert(self.subs_set() =~= cleared.subs_set());
            assert(appended_actions(pre, cleared).len() > 0);
            assert(appended_actions(pre, cleared)[0] == DaemonAction::StopAllProducers);
            assert(appended_actions(pre, *self)[0] == appended_actions(pre, cleared)[0]);
            assert(name_views.subrange(0, n as int) =~= name_views);
            assert forall|w: Seq<char>| pre.is_open(w)
                implies appended_actions(pre, *self).contains(
                DaemonAction::CloseNative(
                    (#[trigger] pre.open_windows.get_spec(w)).window_handle,
                ),
            ) by {
                pre.open_windows.lemma_key_seq_contains(w);
                assert(name_views.contains(w));
                assert(appended_actions(pre, cleared).contains(
                    DaemonAction::CloseNative(pre.open_windows.get_spec(w).window_handle),
                ));
                vstd::seq_lib::lemma_seq_contains_after_push(
                    appended_actions(pre, cleared),
                    DaemonAction::Exit,
                    DaemonAction::CloseNative(pre.open_windows.get_spec(w).window_handle),
                );
                assert(appended_actions(pre, *self) =~= appended_actions(pre, cleared).push(
                    DaemonAction::Exit,
                ));
            };
            assert forall|v: Seq<char>| !self.subscribed(v) by {
                assert(!cleared.subscribed(v));
            };
            assert forall|v: Seq<char>| !self.used(v) by {
                assert(!cleared.used(v));
            };
            assert forall|w: Seq<char>| !self.is_open(w) by {
                assert(!cleared.is_open(w));
            };
            assert(self.reconciled());
        }
    }

    /// Update one variable's current value; rejected when no open window
    /// references it.
    fn update_state(&mut self, fieldname: String, value: PrimitiveValue) -> (r: Result<
        (),
        AppError,
    >)
        requires
            old(self).wf(),
        ensures
            final(self).wf(),
            final(self).eww_config == old(self).eww_config,
            final(self).open_windows == old(self).open_windows,
            final(self).subscriptions == old(self).subscriptions,
            final(self).pending_actions == old(self).pending_actions,
            final(self).display_backend == old(self).display_backend,
            final(self).eww_state.window_refs == old(self).eww_state.window_refs,
            r is Ok <==> old(self).used(fieldname@),
            r matches Err(e) ==> *final(self) == *old(self) && (
            e matches AppError::VarNotReferenced(n) && n@ == fieldname@),
            r is Ok ==> {
                &&& final(self).eww_state.var_value(fieldname@) == value
                &&& forall|v: Seq<char>|
                    #[trigger] final(self).eww_state.var_defined(v) == old(
                        self,
                    ).eww_state.var_defined(v)
                &&& forall|v: Seq<char>|
                    v != fieldname@ && old(self).eww_state.var_defined(v)
                        ==> #[trigger] final(self).eww_state.var_value(v) == old(
                        self,
                    ).eww_state.var_value(v)
            },
    {
        let ghost pre = *old(self);
        let ghost name_view = fieldname@;
        let result = self.eww_state.update_variable(fieldname, value);
        proof {
            if result is Ok {
                assert(pre.eww_state.referenced(name_view));
                let w = choose|w: Seq<char>| pre.eww_state.references(w, name_view);
                assert(pre.eww_state.references(w, name_view));
                assert(pre.eww_state.var_defined(name_view));
                assert forall|w2: Seq<char>, v2: Seq<char>|
                    #[trigger] self.eww_state.references(w2, v2)
                    implies self.eww_state.var_defined(v2) by {
                    assert(pre.eww_state.references(w2, v2));
                    assert(pre.eww_state.var_defined(v2));
                };
                assert forall|w2: Seq<char>| #[trigger] self.eww_state.has_window(w2)
                    implies self.open_windows.contains_spec(w2) by {
                    assert(pre.eww_state.has_window(w2));
                };
                assert forall|w2: Seq<char>| #[trigger] self.open_windows.contains_spec(w2)
                    implies self.eww_state.has_window(w2) by {
                    assert(pre.eww_state.has_window(w2));
                };
                assert(self.wf());
            } else {
                assert(*self =~= pre);
            }
        }
        result
    }

    /// Queue the stylesheet text for the rendering collaborator.
    pub fn load_css(&mut self, css: &str)
        requires
            old(self).wf(),
        ensures
            final(self).wf(),
            final(self).eww_state == old(self).eww_state,
            final(self).eww_config == old(self).eww_config,
            final(self).open_windows == old(self).open_windows,
            final(self).subscriptions == old(self).subscriptions,
            final(self).display_backend == old(self).display_backend,
            final(self).pending_actions@.len() == old(self).pending_actions@.len() + 1,
            final(self).pending_actions@.subrange(0, old(self).pending_actions@.len() as int)
                == old(self).pending_actions@,
            (final(self).pending_actions@.last() matches DaemonAction::LoadCss(s) && s@
                == css@),
    {
        self.pending_actions.push(DaemonAction::LoadCss(css.to_owned()));
        proof {
            assert(self.pending_actions@.subrange(
                0,
                old(self).pending_actions@.len() as int,
            ) =~= old(self).pending_actions@);
        }
    }

    /// All variable names referenced by at least one open window, without
    /// repetition.
    pub fn get_currently_used_variables(&self) -> (r: Vec<String>)
        requires
            self.wf(),
        ensures
            forall|j: int| 0 <= j < r@.len() ==> self.used(#[trigger] r@[j]@),
            forall|v: Seq<char>| self.used(v) ==> views_of(r@).contains(v),
            forall|i: int, j: int| 0 <= i < j < r@.len() ==> r@[i]@ != r@[j]@,
    {
        let n = self.eww_state.window_refs.len();
        let mut out: Vec<String> = Vec::new();
        let mut i: usize = 0;
        while i < n
            invariant
                self.wf(),
                n == self.eww_state.window_refs.len_spec(),
                i <= n,
                forall|j: int| 0 <= j < out@.len() ==> self.used(#[trigger] out@[j]@),
                forall|a: int, b: int| 0 <= a < b < out@.len() ==> out@[a]@ != out@[b]@,
                forall|j: int, m: int|
                    0 <= j < i && 0 <= m < self.eww_state.refs_of(
                        self.eww_state.window_names()[j],
                    ).len() ==> views_of(out@).contains(
                        #[trigger] self.eww_state.refs_of(
                            self.eww_state.window_names()[j],
                        )[m],
                    ),
            decreases n - i,
        {
            let refs = self.eww_state.window_refs.val_at(i);
            let m = refs.len();
            let ghost wname = self.eww_state.window_names()[i as int];
            let mut j: usize = 0;
            while j < m
                invariant
                    self.wf(),
                    n == self.eww_state.window_refs.len_spec(),
                    i < n,
                    m == refs@.len(),
                    j <= m,
                    wname == self.eww_state.window_names()[i as int],
                    self.eww_state.has_window(wname),
                    views_of(refs@) == self.eww_state.refs_of(wname),
                    forall|j2: int| 0 <= j2 < out@.len() ==> self.used(#[trigger] out@[j2]@),
                    forall|a: int, b: int| 0 <= a < b < out@.len() ==> out@[a]@ != out@[b]@,
                    forall|j2: int, m2: int|
                        0 <= j2 < i && 0 <= m2 < self.eww_state.refs_of(
                            self.eww_state.window_names()[j2],
                        ).len() ==> views_of(out@).contains(
                            #[trigger] self.eww_state.refs_of(
                                self.eww_state.window_names()[j2],
                            )[m2],
                        ),
                    forall|m2: int|
                        0 <= m2 < j ==> views_of(out@).contains(
                            #[trigger] self.eww_state.refs_of(wname)[m2],
                        ),
                decreases m - j,
            {
                let v = &refs[j];
                proof {
                    assert(views_of(refs@)[j as int] == v@);
                }
                let already = vec_contains_string(&out, v);
                if !already {
                    let ghost out_before = out@;
                    out.push(v.clone());
                    proof {
                        assert(self.eww_state.references(wname, v@));
                        assert forall|i2: int| 0 <= i2 < out_before.len()
                            implies out_before[i2]@ != v@ by {
                            assert(out_before.map_values(|s: String| s@)[i2]
                                == out_before[i2]@);
                        };
                        assert forall|x: Seq<char>| views_of(out_before).contains(x)
                            implies views_of(out@).contains(x) by {
                            let k = choose|k: int|
                                0 <= k < views_of(out_before).len() && #[trigger] views_of(
                                    out_before,
                                )[k] == x;
                            assert(views_of(out@)[k] == x);
                        };
                        assert(views_of(out@)[out@.len() - 1] == v@);
                    }
                }
                proof {
                    if already {
                        assert(views_of(out@).contains(v@)) by {
                            assert(out@.map_values(|s: String| s@).contains(v@));
                        };
                    }
                }
                j += 1;
            }
            i += 1;
        }
        proof {
            assert forall|v: Seq<char>| self.used(v)
                implies views_of(out@).contains(v) by {
                let w = choose|w: Seq<char>| self.eww_state.references(w, v);
                assert(self.eww_state.references(w, v));
                self.eww_state.window_refs.lemma_key_seq_contains(w);
                self.eww_state.window_refs.lemma_len();
                assert(self.eww_state.window_names().contains(w));
                let j = choose|j: int|
                    0 <= j < self.eww_state.window_names().len()
                        && self.eww_state.window_names()[j] == w;
                assert(0 <= j < self.eww_state.window_names().len()
                    && self.eww_state.window_names()[j] == w);
                assert(self.eww_state.refs_of(w).contains(v));
                let m2 = choose|m2: int|
                    0 <= m2 < self.eww_state.refs_of(w).len() && self.eww_state.refs_of(
                        w,
                    )[m2] == v;
                assert(views_of(out@).contains(
                    self.eww_state.refs_of(self.eww_state.window_names()[j])[m2],
                ));
            };
            assert forall|j: int| 0 <= j < out@.len() implies self.used(
                #[trigger] out@[j]@,
            ) by {};
        }
        out
    }

    /// Each currently used variable, mapped to the open windows that use it.
    pub fn currently_used_variables(&self) -> (r: StrMap<Vec<String>>)
        requires
            self.wf(),
        ensures
            r.wf(),
            forall|v: Seq<char>| #[trigger] r.contains_spec(v) == self.used(v),
            forall|v: Seq<char>, w: Seq<char>|
                r.contains_spec(v) ==> (views_of(#[trigger] r.get_spec(v)@).contains(w)
                    <==> #[trigger] self.eww_state.references(w, v)),
            forall|v: Seq<char>, a: int, b: int|
                r.contains_spec(v) && 0 <= a < b < r.get_spec(v)@.len()
                    ==> (#[trigger] r.get_spec(v)@[a]@) != (#[trigger] r.get_spec(v)@[b]@),
    {
        let used = self.get_currently_used_variables();
        let mut out: StrMap<Vec<String>> = StrMap::new();
        let n = used.len();
        let mut i: usize = 0;
        while i < n
            invariant
                self.wf(),
                out.wf(),
                n == used@.len(),
                i <= n,
                forall|j: int| 0 <= j < n ==> self.used(#[trigger] used@[j]@),
                forall|v: Seq<char>| self.used(v) ==> views_of(used@).contains(v),
                forall|a: int, b: int| 0 <= a < b < n ==> used@[a]@ != used@[b]@,
                forall|v: Seq<char>|
                    #[trigger] out.contains_spec(v) == views_of(used@).subrange(
                        0,
                        i as int,
                    ).contains(v),
                forall|v: Seq<char>, w: Seq<char>|
                    out.contains_spec(v) ==> (views_of(#[trigger] out.get_spec(v)@).contains(
                        w,
                    ) <==> #[trigger] self.eww_state.references(w, v)),
                forall|v: Seq<char>, a: int, b: int|
                    out.contains_spec(v) && 0 <= a < b < out.get_spec(v)@.len()
                        ==> (#[trigger] out.get_spec(v)@[a]@) != (#[trigger] out.get_spec(v)@[b]@),
            decreases n - i,
        {
            let v = &used[i];
            proof {
                assert(views_of(used@)[i as int] == v@);
            }
            let windows = self.windows_using(v);
            let ghost out_before = out;
            out.insert(v.clone(), windows);
            proof {
                assert forall|v2: Seq<char>|
                    #[trigger] out.contains_spec(v2) == views_of(used@).subrange(
                        0,
                        i + 1,
                    ).contains(v2) by {
                    vstd::seq_lib::lemma_seq_contains_after_push(
                        views_of(used@).subrange(0, i as int),
                        v@,
                        v2,
                    );
                    assert(views_of(used@).subrange(0, i + 1) =~= views_of(used@).subrange(
                        0,
                        i as int,
                    ).push(v@));
                };
            }
            i += 1;
        }
        proof {
            assert(views_of(used@).subrange(0, n as int) =~= views_of(used@));
            assert forall|v: Seq<char>| #[trigger] out.contains_spec(v) == self.used(
                v,
            ) by {
                if views_of(used@).contains(v) {
                    let j = choose|j: int|
                        0 <= j < views_of(used@).len() && #[trigger] views_of(used@)[j] == v;
                    assert(used@[j]@ == v);
                }
            };
        }
        out
    }

    /// The open windows whose widget trees reference the given variable.
    fn windows_using(&self, var: &String) -> (r: Vec<String>)
        requires
            self.wf(),
        ensures
            forall|w: Seq<char>|
                views_of(r@).contains(w) <==> #[trigger] self.eww_state.references(w, var@),
            forall|a: int, b: int| 0 <= a < b < r@.len() ==> r@[a]@ != r@[b]@,
    {
        let n = self.eww_state.window_refs.len();
        let mut out: Vec<String> = Vec::new();
        let mut i: usize = 0;
        while i < n
            invariant
                self.wf(),
                n == self.eww_state.window_refs.len_spec(),
                i <= n,
                forall|j: int|
                    0 <= j < out@.len() ==> self.eww_state.references(
                        #[trigger] out@[j]@,
                        var@,
                    ),
                forall|j: int|
                    0 <= j < out@.len() ==> self.eww_state.window_names().subrange(
                        0,
                        i as int,
                    ).contains(#[trigger] out@[j]@),
                forall|a: int, b: int| 0 <= a < b < out@.len() ==> out@[a]@ != out@[b]@,
                forall|j: int|
                    0 <= j < i && self.eww_state.refs_of(
                        #[trigger] self.eww_state.window_names()[j],
                    ).contains(var@) ==> views_of(out@).contains(
                        self.eww_state.window_names()[j],
                    ),
            decreases n - i,
        {
            let refs = self.eww_state.window_refs.val_at(i);
            if vec_contains_string(refs, var) {
                let wname = self.eww_state.window_refs.key_at(i);
                let ghost out_before = out@;
                out.push(wname.clone());
                proof {
                    assert(self.eww_state.references(
                        self.eww_state.window_names()[i as int],
                        var@,
                    ));
                    self.eww_state.window_refs.lemma_keys_unique();
                    self.eww_state.window_refs.lemma_len();
                    assert forall|a: int| 0 <= a < out_before.len()
                        implies out_before[a]@ != wname@ by {
                        assert(self.eww_state.window_names().subrange(0, i as int).contains(
                            out_before[a]@,
                        ));
                        let k = choose|k: int|
                            0 <= k < i && #[trigger] self.eww_state.window_names().subrange(
                                0,
                                i as int,
                            )[k] == out_before[a]@;
                        assert(self.eww_state.window_names()[k] == out_before[a]@);
                        assert(self.eww_state.window_names()[k]
                            != self.eww_state.window_names()[i as int]);
                    };
                    assert(self.eww_state.window_names()[i as int] == wname@);
                    assert forall|x: Seq<char>| views_of(out_before).contains(x)
                        implies views_of(out@).contains(x) by {
                        let k = choose|k: int|
                            0 <= k < views_of(out_before).len() && #[trigger] views_of(
                                out_before,
                            )[k] == x;
                        assert(views_of(out@)[k] == x);
                    };
                    assert(views_of(out@)[out@.len() - 1]
                        == self.eww_state.window_names()[i as int]);
                    assert forall|j: int| 0 <= j < out@.len()
                        implies self.eww_state.window_names().subrange(0, i + 1).contains(
                        #[trigger] out@[j]@,
                    ) by {
                        vstd::seq_lib::lemma_seq_contains_after_push(
                            self.eww_state.window_names().subrange(0, i as int),
                            self.eww_state.window_names()[i as int],
                            out@[j]@,
                        );
                        assert(self.eww_state.window_names().subrange(0, i + 1)
                            =~= self.eww_state.window_names().subrange(0, i as int).push(
                            self.eww_state.window_names()[i as int],
                        ));
                        if j < out_before.len() {
                            assert(out@[j] == out_before[j]);
                            assert(self.eww_state.window_names().subrange(
                                0,
                                i as int,
                            ).contains(out@[j]@));
                        } else {
                            assert(out@[j]@ == wname@);
                        }
                    };
                }
            } else {
                proof {
                    self.eww_state.window_refs.lemma_len();
                    assert forall|j: int| 0 <= j < out@.len()
                        implies self.eww_state.window_names().subrange(0, i + 1).contains(
                        #[trigger] out@[j]@,
                    ) by {
                        vstd::seq_lib::lemma_seq_contains_after_push(
                            self.eww_state.window_names().subrange(0, i as int),
                            self.eww_state.window_names()[i as int],
                            out@[j]@,
                        );
                        assert(self.eww_state.window_names().subrange(0, i + 1)
                            =~= self.eww_state.window_names().subrange(0, i as int).push(
                            self.eww_state.window_names()[i as int],
                        ));
                    };
                }
            }
            i += 1;
        }
        proof {
            assert forall|w: Seq<char>|
                views_of(out@).contains(w) <==> self.eww_state.references(w, var@) by {
                if views_of(out@).contains(w) {
                    let k = choose|k: int|
                        0 <= k < views_of(out@).len() && #[trigger] views_of(out@)[k] == w;
                    assert(out@[k]@ == w);
                    assert(self.eww_state.references(w, var@));
                }
                if self.eww_state.references(w, var@) {
                    self.eww_state.window_refs.lemma_key_seq_contains(w);
                    self.eww_state.window_refs.lemma_len();
                    assert(self.eww_state.window_names().contains(w));
                    let j = choose|j: int|
                        0 <= j < self.eww_state.window_names().len()
                            && self.eww_state.window_names()[j] == w;
                    assert(0 <= j < self.eww_state.window_names().len()
                        && self.eww_state.window_names()[j] == w);
                    assert(views_of(out@).contains(self.eww_state.window_names()[j]));
                }
            };
        }
        out
    }

    /// The `PrintState` snapshot: every variable and its current value.
    pub fn print_state_string(&self) -> (r: String)
        requires
            self.wf(),
        ensures
            r@ == state_text(*self),
    {
        let vars = self.eww_state.get_variables();
        let n = vars.len();
        let ghost keys = vars.key_seq();
        let mut lines: Vec<String> = Vec::new();
        let mut i: usize = 0;
        while i < n
            invariant
                self.wf(),
                *vars == self.eww_state.variables_state,
                keys == vars.key_seq(),
                n == vars.len_spec(),
                i <= n,
                lines@.len() == i,
                forall|j: int|
                    0 <= j < i ==> #[trigger] lines@[j]@ == keys[j] + ": "@ + vars.get_spec(
                        keys[j],
                    ).display_spec(),
            decreases n - i,
        {
            let key = vars.key_at(i);
            let val = vars.val_at(i);
            let line = key.clone().concat(": ").concat(val.display_string().as_str());
            lines.push(line);
            i += 1;
        }
        proof {
            vars.lemma_len();
            assert(lines@.map_values(|s2: String| s2@) =~= Seq::new(
                vars.key_seq().len(),
                |j: int| keys[j] + ": "@ + vars.get_spec(keys[j]).display_spec(),
            ));
        }
        join_lines(&lines)
    }

    /// The `PrintWindows` snapshot: every configured window name, a star
    /// before the open ones.
    pub fn print_windows_string(&self) -> (r: String)
        requires
            self.wf(),
        ensures
            r@ == windows_text(*self),
    {
        let windows = self.eww_config.get_windows();
        let n = windows.len();
        let ghost keys = windows.key_seq();
        let mut lines: Vec<String> = Vec::new();
        let mut i: usize = 0;
        while i < n
            invariant
                self.wf(),
                *windows == self.eww_config.windows,
                keys == windows.key_seq(),
                n == windows.len_spec(),
                i <= n,
                lines@.len() == i,
                forall|j: int|
                    0 <= j < i ==> #[trigger] lines@[j]@ == (if self.is_open(keys[j]) {
                        seq!['*']
                    } else {
                        Seq::<char>::empty()
                    }) + keys[j],
            decreases n - i,
        {
            let name = windows.key_at(i);
            let open_now = self.open_windows.contains_key(name);
            let line = if open_now {
                proof {
                    reveal_strlit("*");
                    assert("*"@ =~= seq!['*']);
                }
                String::from_str("*").concat(name.as_str())
            } else {
                proof {
                    assert(Seq::<char>::empty() + name@ =~= name@);
                }
                name.clone()
            };
            lines.push(line);
            i += 1;
        }
        proof {
            windows.lemma_len();
            assert(lines@.map_values(|s2: String| s2@) =~= Seq::new(
                windows.key_seq().len(),
                |j: int|
                    (if self.is_open(keys[j]) {
                        seq!['*']
                    } else {
                        Seq::<char>::empty()
                    }) + keys[j],
            ));
        }
        join_lines(&lines)
    }

    /// The `PrintDebug` snapshot: variable state and window list together.
    pub fn print_debug_string(&self) -> (r: String)
        requires
            self.wf(),
        ensures
            r@ == debug_text(*self),
    {
        String::from_str("state:\n").concat(self.print_state_string().as_str()).concat(
            "\n\nconfig:\n",
        ).concat(self.print_windows_string().as_str())
    }


    /// Apply a list of variable updates in order, stopping at the first
    /// whose variable no open window references; that failure is returned
    /// for the caller to log.
    #[verifier::rlimit(100)]
    #[verifier::spinoff_prover]
    fn update_vars(&mut self, mappings: Vec<(String, PrimitiveValue)>) -> (log: Option<AppError>)
        requires
            old(self).wf(),
        ensures
            final(self).wf(),
            final(self).eww_config == old(self).eww_config,
            final(self).open_windows == old(self).open_windows,
            final(self).subscriptions == old(self).subscriptions,
            final(self).pending_actions == old(self).pending_actions,
            final(self).display_backend == old(self).display_backend,
            final(self).eww_state.window_refs == old(self).eww_state.window_refs,
            log is None <==> (forall|j: int|
                0 <= j < mappings@.len() ==> old(self).used(#[trigger] names_of(mappings@)[j])),
            log matches Some(e) ==> (e matches AppError::VarNotReferenced(n) && !old(
                self,
            ).used(n@) && names_of(mappings@).contains(n@)),
            forall|v: Seq<char>|
                #[trigger] final(self).eww_state.var_defined(v) == old(
                    self,
                ).eww_state.var_defined(v),
            forall|v: Seq<char>|
                (#[trigger] final(self).eww_state.var_defined(v)) ==> final(self).eww_state.var_value(v) == last_value_in(
                    mappings@.subrange(0, applied_prefix_len(old(self).eww_state, mappings@)),
                    v,
                    old(self).eww_state.var_value(v),
                ),
            forall|v: Seq<char>|
                !names_of(mappings@).contains(v) ==> ((#[trigger] final(self).eww_state.var_defined(v)) == old(self).eww_state.var_defined(v) && (old(
                    self,
                ).eww_state.var_defined(v) ==> final(self).eww_state.var_value(v) == old(
                    self,
                ).eww_state.var_value(v))),
    {
        let ghost pre = *old(self);
        let n = mappings.len();
        let mut i: usize = 0;
        let mut first_err: Option<AppError> = Option::None;
        while i < n && first_err.is_none()
            invariant
                pre == *old(self),
                n == mappings@.len(),
                i <= n,
                self.wf(),
                self.eww_config == pre.eww_config,
                self.open_windows == pre.open_windows,
                self.subscriptions == pre.subscriptions,
                self.pending_actions == pre.pending_actions,
                self.display_backend == pre.display_backend,
                self.eww_state.window_refs == pre.eww_state.window_refs,
                first_err is None ==> forall|j: int|
                    0 <= j < i ==> pre.used(#[trigger] names_of(mappings@)[j]),
                forall|v: Seq<char>|
                    #[trigger] self.eww_state.var_defined(v)
                        == pre.eww_state.var_defined(v),
                first_err is None ==> forall|v: Seq<char>|
                    #[trigger] self.eww_state.var_defined(v)
                        ==> self.eww_state.var_value(v) == last_value_in(
                        mappings@.subrange(0, i as int),
                        v,
                        pre.eww_state.var_value(v),
                    ),
                first_err matches Some(e) ==> (
                e matches AppError::VarNotReferenced(nm) && !pre.used(nm@)
                    && names_of(mappings@).contains(nm@)),
                first_err is Some ==> {
                    &&& 1 <= i <= n
                    &&& (forall|m: int|
                        0 <= m < i - 1 ==> pre.used(#[trigger] names_of(mappings@)[m]))
                    &&& !pre.used(names_of(mappings@)[i - 1])
                    &&& (forall|v: Seq<char>|
                        (#[trigger] self.eww_state.var_defined(v))
                            ==> self.eww_state.var_value(v) == last_value_in(
                            mappings@.subrange(0, i - 1),
                            v,
                            pre.eww_state.var_value(v),
                        ))
                },
                forall|v: Seq<char>|
                    !names_of(mappings@).contains(v) && pre.eww_state.var_defined(v)
                        ==> #[trigger] self.eww_state.var_value(v)
                        == pre.eww_state.var_value(v),
            decreases n - i,
        {
            let ghost mid = *self;
            let name = mappings[i].0.clone();
            let val = mappings[i].1.duplicate();
            proof {
                assert(names_of(mappings@)[i as int] == mappings@[i as int].0@);
            }
            match self.update_state(name, val) {
                Result::Ok(()) => {
                    proof {
                        assert(pre.used(names_of(mappings@)[i as int])) by {
                            assert(mid.used(mappings@[i as int].0@));
                            let w = choose|w: Seq<char>|
                                mid.eww_state.references(w, mappings@[i as int].0@);
                            assert(mid.eww_state.references(
                                w,
                                mappings@[i as int].0@,
                            ));
                            assert(pre.eww_state.references(
                                w,
                                mappings@[i as int].0@,
                            ));
                        };
                        if first_err is None {
                            assert forall|v: Seq<char>|
                                #[trigger] self.eww_state.var_defined(v)
                                implies self.eww_state.var_value(v)
                                == last_value_in(
                                mappings@.subrange(0, i + 1),
                                v,
                                pre.eww_state.var_value(v),
                            ) by {
                                assert(mappings@.subrange(0, i + 1)
                                    =~= mappings@.subrange(0, i as int).push(
                                    mappings@[i as int],
                                ));
                                assert(mappings@.subrange(0, i + 1).drop_last()
                                    =~= mappings@.subrange(0, i as int));
                                assert(mappings@.subrange(0, i + 1).last()
                                    == mappings@[i as int]);
                                assert(mid.eww_state.var_defined(v));
                                if v != mappings@[i as int].0@ {
                                    assert(self.eww_state.var_value(v)
                                        == mid.eww_state.var_value(v));
                                    assert(mid.eww_state.var_value(v)
                                        == last_value_in(
                                        mappings@.subrange(0, i as int),
                                        v,
                                        pre.eww_state.var_value(v),
                                    ));
                                } else {
                                    assert(self.eww_state.var_value(
                                        mappings@[i as int].0@,
                                    ) == mappings@[i as int].1);
                                }
                            };
                        }
                        assert forall|v: Seq<char>|
                            !names_of(mappings@).contains(v)
                            implies #[trigger] self.eww_state.var_defined(v)
                            == pre.eww_state.var_defined(v) && (
                        pre.eww_state.var_defined(v) ==> self.eww_state.var_value(
                            v,
                        ) == pre.eww_state.var_value(v)) by {
                            assert(names_of(mappings@)[i as int]
                                == mappings@[i as int].0@);
                            assert(v != mappings@[i as int].0@);
                            assert(mid.eww_state.var_defined(v)
                                == pre.eww_state.var_defined(v));
                            assert(self.eww_state.var_defined(v)
                                == mid.eww_state.var_defined(v));
                            if pre.eww_state.var_defined(v) {
                                assert(mid.eww_state.var_value(v)
                                    == pre.eww_state.var_value(v));
                                assert(self.eww_state.var_value(v)
                                    == mid.eww_state.var_value(v));
                            }
                        };
                    }
                },
                Result::Err(e) => {
                    first_err = Option::Some(e);
                    proof {
                        assert(*self == mid);
                        assert forall|v: Seq<char>|
                            !names_of(mappings@).contains(v)
                            implies #[trigger] self.eww_state.var_defined(v)
                            == pre.eww_state.var_defined(v) && (
                        pre.eww_state.var_defined(v) ==> self.eww_state.var_value(
                            v,
                        ) == pre.eww_state.var_value(v)) by {
                            assert(mid.eww_state.var_defined(v)
                                == pre.eww_state.var_defined(v));
                            if pre.eww_state.var_defined(v) {
                                assert(mid.eww_state.var_value(v)
                                    == pre.eww_state.var_value(v));
                            }
                        };
                        assert forall|v: Seq<char>|
                            (#[trigger] self.eww_state.var_defined(v))
                            implies self.eww_state.var_value(v) == last_value_in(
                            mappings@.subrange(0, i as int),
                            v,
                            pre.eww_state.var_value(v),
                        ) by {
                            assert(mid.eww_state.var_defined(v));
                        };
                        assert(!mid.used(mappings@[i as int].0@));
                        assert(!pre.used(mappings@[i as int].0@)) by {
                            if pre.eww_state.referenced(mappings@[i as int].0@) {
                                let w = choose|w: Seq<char>|
                                    pre.eww_state.references(
                                        w,
                                        mappings@[i as int].0@,
                                    );
                                assert(pre.eww_state.references(
                                    w,
                                    mappings@[i as int].0@,
                                ));
                                assert(mid.eww_state.references(
                                    w,
                                    mappings@[i as int].0@,
                                ));
                            }
                        };
                        assert(names_of(mappings@)[i as int] == mappings@[i as int].0@);
                        assert(names_of(mappings@).contains(mappings@[i as int].0@));
                    }
                },
            }
            i += 1;
        }
        proof {
            assert forall|v: Seq<char>| pre.used(v) <==> pre.eww_state.referenced(
                v,
            ) by {};
            if first_err is None {
                assert(i == n);
                assert(mappings@.subrange(0, n as int) =~= mappings@);
                assert forall|m: int| 0 <= m < n implies pre.eww_state.referenced(
                    #[trigger] mappings@[m].0@,
                ) by {
                    assert(names_of(mappings@)[m] == mappings@[m].0@);
                    assert(pre.used(names_of(mappings@)[m]));
                };
                lemma_applied_prefix_len(pre.eww_state, mappings@, n as int);
            }
            if first_err is Some {
                assert forall|m: int| 0 <= m < i - 1
                    implies pre.eww_state.referenced(#[trigger] mappings@[m].0@) by {
                    assert(names_of(mappings@)[m] == mappings@[m].0@);
                    assert(pre.used(names_of(mappings@)[m]));
                };
                assert(names_of(mappings@)[i - 1] == mappings@[i - 1].0@);
                assert(!pre.eww_state.referenced(mappings@[i - 1].0@));
                lemma_applied_prefix_len(pre.eww_state, mappings@, i - 1);
            }
            if first_err is Some {
                let e = first_err->0;
                let nm = e->VarNotReferenced_0;
                assert(names_of(mappings@).contains(nm@));
                let j = choose|j: int|
                    0 <= j < names_of(mappings@).len() && #[trigger] names_of(
                        mappings@,
                    )[j] == nm@;
                assert(0 <= j < names_of(mappings@).len() && names_of(mappings@)[j]
                    == nm@);
                assert(!pre.used(names_of(mappings@)[j]));
            }
        }
        proof {
            assert(appended_actions(pre, *self) =~= Seq::<DaemonAction>::empty());
            assert(self.subs_set() =~= pre.subs_set());
            if pre.reconciled() {
                lemma_same_core_reconciled(pre, *self);
            }
        }
        first_err
    }

    /// Apply the outcome of a configuration-and-stylesheet reload.  The two
    /// sides are applied independently: a parsed, consistent snapshot is
    /// installed (windows reopened) even when the stylesheet failed, and a
    /// parsed stylesheet is queued for the renderer even when the
    /// configuration failed.  The response is `Success("")` exactly when both
    /// sides succeeded, else the failure lines joined; a failure to reopen
    /// one window is no parse failure — it is returned separately, for the
    /// caller to log.
    #[verifier::rlimit(100)]
    #[verifier::spinoff_prover]
    pub fn apply_reload(
        &mut self,
        config_result: Result<EwwConfig, String>,
        css_result: Result<String, String>,
    ) -> (r: (DaemonResponse, Option<AppError>))
        requires
            old(self).wf(),
        ensures
            final(self).wf(),
            action_extends(*old(self), *final(self)),
            producer_trace_ok(
                old(self).subs_set(),
                appended_actions(*old(self), *final(self)),
                final(self).subs_set(),
            ),
            old(self).reconciled() ==> final(self).reconciled(),
            (config_result matches Result::Ok(cfg) && cfg.wf()) ==> reload_effect(
                *old(self),
                *final(self),
                config_result->Ok_0,
            ) && (r.1 is None <==> (forall|w: Seq<char>|
                old(self).is_open(w) ==> #[trigger] final(self).is_open(w))),
            !(config_result matches Result::Ok(cfg) && cfg.wf()) ==> {
                &&& final(self).eww_config == old(self).eww_config
                &&& final(self).open_windows == old(self).open_windows
                &&& final(self).subscriptions == old(self).subscriptions
                &&& final(self).eww_state == old(self).eww_state
                &&& r.1 is None
            },
            css_result matches Result::Ok(css) ==> appended_actions(
                *old(self),
                *final(self),
            ).len() > 0 && (appended_actions(*old(self), *final(self)).last() matches
                DaemonAction::LoadCss(t) && t@ == css@),
            (r.0 matches DaemonResponse::Success(m)) <==> reload_error_lines(
                config_result,
                css_result,
            ).len() == 0,
            r.0 matches DaemonResponse::Success(m) ==> m@ == Seq::<char>::empty(),
            r.0 matches DaemonResponse::Failure(f) ==> f@ == joined_lines(
                reload_error_lines(config_result, css_result),
            ),
    {
        let ghost pre = *old(self);
        proof {
            assert(pre.pending_actions@.subrange(0, pre.pending_actions@.len() as int)
                =~= pre.pending_actions@);
            assert(appended_actions(pre, pre) =~= Seq::<DaemonAction>::empty());
        }
        let ghost cr0 = config_result;
        let ghost sr0 = css_result;
        let mut errors: Vec<String> = Vec::new();
        let ghost cfg_lines = match cr0 {
            Result::Ok(cfg) => if cfg.wf() {
                Seq::<Seq<char>>::empty()
            } else {
                seq!["Failed to load config: "@ + "invalid configuration"@]
            },
            Result::Err(m) => seq!["Failed to load config: "@ + m@],
        };
        let mut reopen_log: Option<AppError> = Option::None;
        match config_result {
            Result::Ok(cfg) => {
                if cfg.validate() {
                    match self.load_config(cfg) {
                        Result::Ok(()) => {},
                        Result::Err(e) => {
                            reopen_log = Option::Some(e);
                        },
                    }
                } else {
                    errors.push(
                        AppError::ConfigParse(
                            String::from_str("invalid configuration"),
                        ).message(),
                    );
                }
            },
            Result::Err(msg) => {
                errors.push(AppError::ConfigParse(msg).message());
            },
        }
        let ghost after_cfg = *self;
        proof {
            assert(errors@.map_values(|s2: String| s2@) =~= cfg_lines);
            assert(self.wf());
            assert(action_extends(pre, *self));
            assert(producer_trace_ok(
                pre.subs_set(),
                appended_actions(pre, *self),
                self.subs_set(),
            ));
            if pre.reconciled() {
                assert(after_cfg.reconciled());
            }
        }
        match css_result {
            Result::Ok(css) => {
                self.load_css(css.as_str());
                proof {
                    assert(self.pending_actions@.subrange(
                        0,
                        pre.pending_actions@.len() as int,
                    ) =~= pre.pending_actions@);
                    assert(appended_actions(pre, *self) =~= appended_actions(
                        pre,
                        after_cfg,
                    ).push(self.pending_actions@.last()));
                    lemma_producers_after_push(
                        appended_actions(pre, after_cfg),
                        self.pending_actions@.last(),
                        pre.subs_set(),
                    );
                    lemma_no_double_start_push(
                        appended_actions(pre, after_cfg),
                        self.pending_actions@.last(),
                        pre.subs_set(),
                    );
                    assert(self.subs_set() =~= after_cfg.subs_set());
                    lemma_same_core_wf(after_cfg, *self);
                    if pre.reconciled() {
                        lemma_same_core_reconciled(after_cfg, *self);
                    }
                }
            },
            Result::Err(msg) => {
                errors.push(AppError::CssParse(msg).message());
            },
        }
        proof {
            assert(errors@.map_values(|s2: String| s2@) =~= reload_error_lines(cr0, sr0));
            if cr0 matches Result::Ok(c2) && c2.wf() {
                let cfgv = cr0->Ok_0;
                assert(self.eww_config == after_cfg.eww_config);
                assert(self.open_windows == after_cfg.open_windows);
                assert(self.eww_state == after_cfg.eww_state);
                assert(self.subscriptions == after_cfg.subscriptions);
                assert(reload_effect(pre, after_cfg, cfgv));
                assert(reload_effect(pre, *self, cfgv)) by {
                    assert forall|w: Seq<char>| #[trigger] self.is_open(w)
                        implies pre.is_open(w) && cfgv.has_window(w)
                        && self.open_windows.get_spec(w).definition.refs_seq()
                        == cfgv.window_def(w).refs_seq() by {
                        assert(after_cfg.is_open(w));
                        assert(self.open_windows.get_spec(w) == after_cfg.open_windows
                            .get_spec(w));
                    };
                    assert(after_cfg.reconciled());
                    lemma_same_core_reconciled(after_cfg, *self);
                    assert forall|v: Seq<char>| pre.eww_state.var_defined(v)
                        implies #[trigger] self.eww_state.var_defined(v) by {
                        assert(after_cfg.eww_state.var_defined(v));
                    };
                    assert forall|v: Seq<char>| pre.eww_state.var_defined(v)
                        implies #[trigger] self.eww_state.var_value(v)
                        == pre.eww_state.var_value(v) by {
                        assert(after_cfg.eww_state.var_defined(v));
                        assert(after_cfg.eww_state.var_value(v) == pre.eww_state.var_value(
                            v,
                        ));
                    };
                };
                assert forall|w: Seq<char>| #[trigger] self.is_open(w) == after_cfg.is_open(
                    w,
                ) by {};
                assert(reopen_log is None <==> (forall|w: Seq<char>|
                    pre.is_open(w) ==> #[trigger] self.is_open(w))) by {
                    if reopen_log is None {
                        assert forall|w: Seq<char>| pre.is_open(w)
                            implies #[trigger] self.is_open(w) by {
                            assert(after_cfg.is_open(w));
                        };
                    } else {
                        assert(!(forall|w: Seq<char>|
                            pre.is_open(w) ==> #[trigger] after_cfg.is_open(w)));
                        let w0 = choose|w0: Seq<char>|
                            !(pre.is_open(w0) ==> #[trigger] after_cfg.is_open(w0));
                        assert(pre.is_open(w0) && !after_cfg.is_open(w0));
                        assert(!self.is_open(w0));
                    }
                };
            }
        }
        let response = if errors.len() == 0 {
            proof {
                assert(reload_error_lines(cr0, sr0).len() == 0);
            }
            DaemonResponse::Success(String::new())
        } else {
            DaemonResponse::Failure(join_lines(&errors))
        };
        (response, reopen_log)
    }

    /// Handle one command: the single entry point through which every
    /// mutation flows, strictly serialized by the caller's queue.  The first
    /// part of the result is the response for commands that expect one; the
    /// second is the error a fire-and-forget command produced, for the caller
    /// to log.  No command aborts the dispatcher.
    #[verifier::rlimit(100)]
    #[verifier::spinoff_prover]
    pub fn handle_command(&mut self, event: DaemonCommand) -> (r: (
        Option<DaemonResponse>,
        Option<AppError>,
    ))
        requires
            old(self).wf(),
            event matches DaemonCommand::UpdateConfig(c) ==> c.wf(),
        ensures
            final(self).wf(),
            action_extends(*old(self), *final(self)),
            producer_trace_ok(
                old(self).subs_set(),
                appended_actions(*old(self), *final(self)),
                final(self).subs_set(),
            ),
            old(self).reconciled() ==> final(self).reconciled(),
            command_effect(*old(self), *final(self), event, r.0, r.1),
    {
        let ghost pre = *old(self);
        let ghost ev = event;
        proof {
            assert(pre.pending_actions@.subrange(0, pre.pending_actions@.len() as int)
                =~= pre.pending_actions@);
            assert(appended_actions(pre, pre) =~= Seq::<DaemonAction>::empty());
        }
        match event {
            DaemonCommand::NoOp => {
                proof {
                    reveal(command_effect);
                    assert(command_effect(
                        pre,
                        *self,
                        ev,
                        Option::<DaemonResponse>::None,
                        Option::<AppError>::None,
                    ));
                }
                (Option::None, Option::None)
            },
            DaemonCommand::UpdateVars(pairs) => {
                let first_err = self.update_vars(pairs);
                proof {
                    reveal(command_effect);
                    assert(appended_actions(pre, *self) =~= Seq::<DaemonAction>::empty());
                    assert(self.subs_set() =~= pre.subs_set());
                    if pre.reconciled() {
                        lemma_same_core_reconciled(pre, *self);
                    }
                    assert(command_effect(pre, *self, ev, Option::<DaemonResponse>::None, first_err));
                }
                (Option::None, first_err)
            },
            DaemonCommand::ReloadConfigAndCss => {
                let config_result = self.display_backend.read_config();
                let css_result = self.display_backend.read_css();
                let ghost cr = config_result;
                let ghost sr = css_result;
                let ghost ready = *self;
                proof {
                    assert(appended_actions(pre, *self) =~= Seq::<DaemonAction>::empty());
                    assert(ready.subs_set() =~= pre.subs_set());
                    lemma_same_core_wf(pre, *self);
                    if pre.reconciled() {
                        lemma_same_core_reconciled(pre, *self);
                    }
                }
                let (response, log) = self.apply_reload(config_result, css_result);
                proof {
                    reveal(command_effect);
                    assert(appended_actions(pre, *self) == appended_actions(ready, *self));
                    assert(producer_trace_ok(
                        pre.subs_set(),
                        appended_actions(pre, *self),
                        self.subs_set(),
                    ));
                    if pre.reconciled() {
                        assert(self.reconciled());
                    }
                    if response is Success {
                        assert(reload_error_lines(cr, sr).len() == 0);
                        if cr matches Result::Err(_) {
                            assert(reload_error_lines(cr, sr).len()
                                >= 1);
                        }
                        if cr matches Result::Ok(c) && !c.wf() {
                            assert(reload_error_lines(cr, sr).len()
                                >= 1);
                        }
                        if sr matches Result::Err(_) {
                            assert(reload_error_lines(cr, sr).len()
                                >= 1);
                        }
                        let cfg = cr->Ok_0;
                        assert(cfg.wf());
                        assert(reload_effect(ready, *self, cfg));
                        assert(self.eww_config == cfg);
                        assert(reload_effect(pre, *self, self.eww_config)) by {
                            assert forall|w: Seq<char>| #[trigger] self.is_open(w)
                                implies pre.is_open(w) by {
                                assert(ready.is_open(w));
                                assert(ready.open_windows == pre.open_windows);
                            };
                            assert forall|v: Seq<char>| pre.eww_state.var_defined(v)
                                implies #[trigger] self.eww_state.var_defined(v) by {
                                assert(ready.eww_state == pre.eww_state);
                                assert(ready.eww_state.var_defined(v));
                            };
                            assert forall|v: Seq<char>| pre.eww_state.var_defined(v)
                                implies #[trigger] self.eww_state.var_value(v)
                                == pre.eww_state.var_value(v) by {
                                assert(ready.eww_state == pre.eww_state);
                                assert(ready.eww_state.var_defined(v));
                                assert(self.eww_state.var_value(v)
                                    == ready.eww_state.var_value(v));
                                assert(ready.eww_state.var_value(v)
                                    == pre.eww_state.var_value(v));
                            };
                        };
                    }
                    assert(command_effect(pre, *self, ev, Option::Some(response), log));
                }
                (Option::Some(response), log)
            },
            DaemonCommand::UpdateConfig(cfg) => {
                let result = self.load_config(cfg);
                let log = match result {
                    Result::Ok(()) => Option::None,
                    Result::Err(e) => Option::Some(e),
                };
                proof {
                    reveal(command_effect);
                    assert(command_effect(pre, *self, ev, Option::<DaemonResponse>::None, log));
                }
                (Option::None, log)
            },
            DaemonCommand::UpdateCss(css) => {
                self.load_css(css.as_str());
                proof {
                    assert(self.pending_actions@.subrange(
                        0,
                        pre.pending_actions@.len() as int,
                    ) =~= pre.pending_actions@);
                    assert(appended_actions(pre, *self) =~= Seq::<DaemonAction>::empty().push(
                        self.pending_actions@.last(),
                    ));
                    lemma_producers_after_push(
                        Seq::<DaemonAction>::empty(),
                        self.pending_actions@.last(),
                        pre.subs_set(),
                    );
                    lemma_no_double_start_push(
                        Seq::<DaemonAction>::empty(),
                        self.pending_actions@.last(),
                        pre.subs_set(),
                    );
                    assert(self.subs_set() =~= pre.subs_set());
                    if pre.reconciled() {
                        assert forall|v: Seq<char>|
                            #[trigger] self.subscribed(v) <==> self.used(v) by {
                            assert(self.subscribed(v) == pre.subscribed(v));
                            if self.used(v) {
                                let w = choose|w: Seq<char>|
                                    self.eww_state.references(w, v);
                                assert(pre.eww_state.references(w, v));
                            }
                            if pre.used(v) {
                                let w = choose|w: Seq<char>|
                                    pre.eww_state.references(w, v);
                                assert(self.eww_state.references(w, v));
                            }
                        };
                    }
                }
                proof {
                    reveal(command_effect);
                    assert(command_effect(pre, *self, ev, Option::<DaemonResponse>::None, Option::<AppError>::None));
                }
                (Option::None, Option::None)
            },
            DaemonCommand::OpenMany { windows } => {
                let n = windows.len();
                let mut failures: Vec<String> = Vec::new();
                let mut i: usize = 0;
                while i < n
                    invariant
                        pre == *old(self),
                        n == windows@.len(),
                        i <= n,
                        self.wf(),
                        pre.reconciled() ==> self.reconciled(),
                        i == 0 ==> failures@.len() == 0,
                        failures@.len() == 0 ==> (forall|j: int|
                            0 <= j < i ==> self.is_open(#[trigger] windows@[j]@)),
                        action_extends(pre, *self),
                        producer_trace_ok(
                            pre.subs_set(),
                            appended_actions(pre, *self),
                            self.subs_set(),
                        ),
                    decreases n - i,
                {
                    let ghost mid = *self;
                    let result = self.open_window(
                        &windows[i],
                        Option::None,
                        Option::None,
                        Option::None,
                    );
                    proof {
                        lemma_actions_compose(pre, mid, *self);
                        lemma_trace_compose(pre, mid, *self);
                    }
                    match result {
                        Result::Ok(()) => {
                            proof {
                                if failures@.len() == 0 {
                                    assert forall|j: int| 0 <= j < i + 1
                                        implies self.is_open(#[trigger] windows@[j]@) by {
                                        if j < i && windows@[j]@ != windows@[i as int]@ {
                                            assert(mid.is_open(windows@[j]@));
                                        }
                                    };
                                }
                            }
                        },
                        Result::Err(e) => {
                            failures.push(e.message());
                        },
                    }
                    i += 1;
                }
                let all_opened = failures.len() == 0;
                let response = if all_opened {
                    DaemonResponse::Success(String::new())
                } else {
                    DaemonResponse::Failure(join_lines(&failures))
                };
                proof {
                    reveal(command_effect);
                    if all_opened {
                        assert forall|j: int| 0 <= j < windows@.len()
                            implies self.is_open(#[trigger] windows@[j]@) by {};
                    }
                    assert(command_effect(pre, *self, ev, Option::Some(response), Option::<AppError>::None));
                }
                (Option::Some(response), Option::None)
            },
            DaemonCommand::OpenWindow { window_name, pos, size, anchor } => {
                let result = self.open_window(&window_name, pos, size, anchor);
                let response = match result {
                    Result::Ok(()) => DaemonResponse::Success(String::new()),
                    Result::Err(e) => DaemonResponse::Failure(e.message()),
                };
                proof {
                    reveal(command_effect);
                    assert(command_effect(pre, *self, ev, Option::Some(response), Option::<AppError>::None));
                }
                (Option::Some(response), Option::None)
            },
            DaemonCommand::CloseWindow { window_name } => {
                let result = self.close_window(&window_name);
                let response = match result {
                    Result::Ok(()) => DaemonResponse::Success(String::new()),
                    Result::Err(e) => DaemonResponse::Failure(e.message()),
                };
                proof {
                    reveal(command_effect);
                    assert(command_effect(pre, *self, ev, Option::Some(response), Option::<AppError>::None));
                }
                (Option::Some(response), Option::None)
            },
            DaemonCommand::KillServer => {
                self.stop_application();
                proof {
                    reveal(command_effect);
                    assert(command_effect(pre, *self, ev, Option::<DaemonResponse>::None, Option::<AppError>::None));
                }
                (Option::None, Option::None)
            },
            DaemonCommand::CloseAll => {
                let names = self.open_windows.keys();
                let ghost name_views = names@.map_values(|s2: String| s2@);
                proof {
                    self.open_windows.lemma_len();
                    self.open_windows.lemma_keys_unique();
                }
                let n = names.len();
                let mut i: usize = 0;
                while i < n
                    invariant
                        pre == *old(self),
                        n == names@.len(),
                        i <= n,
                        name_views == names@.map_values(|s2: String| s2@),
                        name_views == pre.open_windows.key_seq(),
                        forall|a: int, b: int|
                            0 <= a < b < n ==> name_views[a] != name_views[b],
                        self.wf(),
                        self.eww_config == pre.eww_config,
                        self.eww_state.variables_state == pre.eww_state.variables_state,
                        pre.reconciled() ==> self.reconciled(),
                        forall|w: Seq<char>|
                            #[trigger] self.is_open(w) == (pre.is_open(w)
                                && !name_views.subrange(0, i as int).contains(w)),
                        forall|w: Seq<char>|
                            self.is_open(w) ==> #[trigger] self.open_windows.get_spec(w)
                                == pre.open_windows.get_spec(w),
                        forall|w: Seq<char>|
                            pre.is_open(w) && name_views.subrange(0, i as int).contains(w)
                                ==> appended_actions(pre, *self).contains(
                                DaemonAction::CloseNative(
                                    (#[trigger] pre.open_windows.get_spec(
                                        w,
                                    )).window_handle,
                                ),
                            ),
                        action_extends(pre, *self),
                        producer_trace_ok(
                            pre.subs_set(),
                            appended_actions(pre, *self),
                            self.subs_set(),
                        ),
                    decreases n - i,
                {
                    let ghost mid = *self;
                    proof {
                        assert(names@.map_values(|s2: String| s2@)[i as int]
                            == names@[i as int]@);
                        assert(pre.open_windows.key_seq()[i as int]
                            == name_views[i as int]);
                        assert(pre.open_windows.key_seq().contains(name_views[i as int]));
                        pre.open_windows.lemma_key_seq_contains(name_views[i as int]);
                        assert(!name_views.subrange(0, i as int).contains(
                            name_views[i as int],
                        )) by {
                            if name_views.subrange(0, i as int).contains(
                                name_views[i as int],
                            ) {
                                let j = choose|j: int|
                                    0 <= j < i && name_views.subrange(0, i as int)[j]
                                        == name_views[i as int];
                                assert(name_views[j] == name_views[i as int]);
                            }
                        };
                        assert(mid.is_open(name_views[i as int]));
                    }
                    let result = self.close_window(&names[i]);
                    proof {
                        lemma_actions_compose(pre, mid, *self);
                        lemma_trace_compose(pre, mid, *self);
                        if result is Err {
                            assert(false);
                        }
                        assert(mid.open_windows.get_spec(name_views[i as int])
                            == pre.open_windows.get_spec(name_views[i as int]));
                        assert(appended_actions(mid, *self).last()
                            == DaemonAction::CloseNative(
                            pre.open_windows.get_spec(name_views[i as int]).window_handle,
                        ));
                        assert(appended_actions(mid, *self).contains(
                            DaemonAction::CloseNative(
                                pre.open_windows.get_spec(
                                    name_views[i as int],
                                ).window_handle,
                            ),
                        )) by {
                            assert(appended_actions(mid, *self)[appended_actions(
                                mid,
                                *self,
                            ).len() - 1] == appended_actions(mid, *self).last());
                        };
                        assert forall|w2: Seq<char>|
                            pre.is_open(w2) && name_views.subrange(0, i + 1).contains(w2)
                            implies appended_actions(pre, *self).contains(
                            DaemonAction::CloseNative(
                                (#[trigger] pre.open_windows.get_spec(w2)).window_handle,
                            ),
                        ) by {
                            vstd::seq_lib::lemma_seq_contains_after_push(
                                name_views.subrange(0, i as int),
                                name_views[i as int],
                                w2,
                            );
                            assert(name_views.subrange(0, i + 1) =~= name_views.subrange(
                                0,
                                i as int,
                            ).push(name_views[i as int]));
                            lemma_concat_contains(
                                appended_actions(pre, mid),
                                appended_actions(mid, *self),
                                DaemonAction::CloseNative(
                                    pre.open_windows.get_spec(w2).window_handle,
                                ),
                            );
                        };
                        assert forall|w2: Seq<char>| self.is_open(w2)
                            implies #[trigger] self.open_windows.get_spec(w2)
                            == pre.open_windows.get_spec(w2) by {
                            assert(w2 != name_views[i as int]);
                            assert(mid.is_open(w2));
                            assert(self.open_windows.get_spec(w2)
                                == mid.open_windows.get_spec(w2));
                        };
                        assert forall|w: Seq<char>|
                            #[trigger] self.is_open(w) == (pre.is_open(w)
                                && !name_views.subrange(0, i + 1).contains(w)) by {
                            vstd::seq_lib::lemma_seq_contains_after_push(
                                name_views.subrange(0, i as int),
                                name_views[i as int],
                                w,
                            );
                            assert(name_views.subrange(0, i + 1) =~= name_views.subrange(
                                0,
                                i as int,
                            ).push(name_views[i as int]));
                            assert(mid.is_open(w) == (pre.is_open(w)
                                && !name_views.subrange(0, i as int).contains(w)));
                            if w != name_views[i as int] {
                                assert(self.is_open(w) == mid.is_open(w));
                            } else {
                                assert(!self.is_open(w));
                            }
                        };
                    }
                    i += 1;
                }
                proof {
                    assert(name_views.subrange(0, n as int) =~= name_views);
                    assert forall|w: Seq<char>| !self.is_open(w) by {
                        if pre.is_open(w) {
                            pre.open_windows.lemma_key_seq_contains(w);
                        }
                    };
                    assert forall|w: Seq<char>| pre.is_open(w)
                        implies appended_actions(pre, *self).contains(
                        DaemonAction::CloseNative(
                            (#[trigger] pre.open_windows.get_spec(w)).window_handle,
                        ),
                    ) by {
                        pre.open_windows.lemma_key_seq_contains(w);
                        assert(name_views.contains(w));
                    };
                    if pre.reconciled() {
                        assert forall|v: Seq<char>| !self.subscribed(v) by {
                            if self.subscribed(v) {
                                let w = choose|w: Seq<char>|
                                    self.eww_state.references(w, v);
                                assert(self.eww_state.has_window(w));
                                assert(self.is_open(w));
                            }
                        };
                    }
                }
                proof {
                    reveal(command_effect);
                    assert(command_effect(pre, *self, ev, Option::<DaemonResponse>::None, Option::<AppError>::None));
                }
                (Option::None, Option::None)
            },
            DaemonCommand::PrintState => {
                let text = self.print_state_string();
                proof {
                    reveal(command_effect);
                    assert(command_effect(pre, *self, ev, Option::Some(DaemonResponse::Success(text)), Option::<AppError>::None));
                }
                (Option::Some(DaemonResponse::Success(text)), Option::None)
            },
            DaemonCommand::PrintWindows => {
                let text = self.print_windows_string();
                proof {
                    reveal(command_effect);
                    assert(command_effect(pre, *self, ev, Option::Some(DaemonResponse::Success(text)), Option::<AppError>::None));
                }
                (Option::Some(DaemonResponse::Success(text)), Option::None)
            },
            DaemonCommand::PrintDebug => {
                let text = self.print_debug_string();
                proof {
                    reveal(command_effect);
                    assert(command_effect(pre, *self, ev, Option::Some(DaemonResponse::Success(text)), Option::<AppError>::None));
                }
                (Option::Some(DaemonResponse::Success(text)), Option::None)
            },
        }
    }
}

} // verus!
