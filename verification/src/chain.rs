//! Per-chain dispatch context and the policy that bounds it.

use crate::options::RuntimeOptions;
use crate::registry::GuestId;
use crate::text::decimal_text;
use std::time::Duration;
use vstd::prelude::*;
use vstd::string::StringExecFns;

verus! {

/// Per-chain dispatch context: the nesting depth (0 at a chain root) plus
/// whether the chain root runs uncapped (a command-mode `wasi:cli/run` drive).
#[derive(Clone, Copy, Debug, PartialEq, Eq, Structural)]
pub struct ChainCtx {
    /// Nesting depth of the current hop (0 at a chain root).
    pub depth: usize,
    /// Whether the chain root runs without the wall-clock cap.
    pub uncapped: bool,
}

impl Default for ChainCtx {
    fn default() -> (ctx: ChainCtx)
        ensures
            ctx == (ChainCtx { depth: 0, uncapped: false }),
    {
        ChainCtx { depth: 0, uncapped: false }
    }
}

/// Work that runs under a chain context: the dispatches that it makes enter
/// the chain from there.
pub struct Scoped<F> {
    pub ctx: ChainCtx,
    pub work: F,
}

/// Run `work` with the chain context carried over from an incoming dispatch,
/// so nested host-mediated calls made while serving it count against the same
/// chain and inherit its wall-clock policy.
pub fn with_chain<F>(ctx: ChainCtx, work: F) -> (r: Scoped<F>)
    ensures
        r.ctx == ctx,
        r.work == work,
{
    Scoped { ctx, work }
}

/// Run `work` as a command-mode chain root: link dispatches it makes (and
/// their nested hops) run without the wall-clock cap.
pub fn as_command_chain<F>(work: F) -> (r: Scoped<F>)
    ensures
        r.ctx == (ChainCtx { depth: 0, uncapped: true }),
        r.work == work,
{
    Scoped { ctx: ChainCtx { depth: 0, uncapped: true }, work }
}

/// The context of the dispatch chain currently being served: that of the
/// innermost scope, a capped root outside any scope.
pub fn current_chain(scope: Option<ChainCtx>) -> (ctx: ChainCtx)
    ensures
        ctx == (match scope {
            Some(ctx) => ctx,
            None => ChainCtx { depth: 0, uncapped: false },
        }),
{
    match scope {
        Some(ctx) => ctx,
        None => ChainCtx { depth: 0, uncapped: false },
    }
}

/// The deployment-wide bounds on a dispatch chain: its maximum nesting depth
/// and the wall-clock cap on each server-rooted hop.
#[derive(Clone, Copy, Debug, PartialEq, Eq)]
pub struct ChainPolicy {
    /// Maximum dispatch nesting depth (`MAX_DISPATCH_DEPTH`).
    pub max_depth: usize,
    /// Wall-clock bound on each host-mediated dispatch (`GUEST_TIMEOUT_MS`).
    pub timeout: Duration,
}

/// A hop that would exceed the maximum depth.
#[derive(Debug, PartialEq, Eq)]
pub struct DepthExceeded {
    pub depth: usize,
    pub max_depth: usize,
    pub target: String,
}

/// The refusal of a hop, in words.
pub open spec fn depth_text(depth: nat, max_depth: nat, target: Seq<char>) -> Seq<char> {
    "link dispatch depth "@ + crate::text::decimal(depth) + " exceeds maximum "@
        + crate::text::decimal(max_depth) + " (target `"@ + target
        + "`); raise MAX_DISPATCH_DEPTH if this is intentional"@
}

impl DepthExceeded {
    /// The refusal in words.
    pub fn text(&self) -> (text: String)
        ensures
            text@ == depth_text(self.depth as nat, self.max_depth as nat, self.target@),
    {
        let mut text = String::from_str("link dispatch depth ");
        text.append(decimal_text(self.depth as u64).as_str());
        text.append(" exceeds maximum ");
        text.append(decimal_text(self.max_depth as u64).as_str());
        text.append(" (target `");
        text.append(self.target.as_str());
        text.append("`); raise MAX_DISPATCH_DEPTH if this is intentional");
        text
    }
}

/// The context that a hop from `current` runs at, if the depth allows it.
pub open spec fn entered(max_depth: usize, current: ChainCtx) -> Option<ChainCtx> {
    if current.depth + 1 > max_depth {
        None
    } else {
        Some(ChainCtx { depth: (current.depth + 1) as usize, uncapped: current.uncapped })
    }
}

impl ChainPolicy {
    /// Enter a dispatch from the chain context `current`, bounding the chain's
    /// nesting depth; gives the context the dispatched call runs at (depth plus
    /// the inherited wall-clock policy), to be carried to the serve side.
    ///
    /// # Errors
    ///
    /// Returns an error if the hop would exceed `max_depth`.
    pub fn enter(&self, current: ChainCtx, target: &GuestId) -> (r: Result<ChainCtx, DepthExceeded>)
        requires
            current.depth < usize::MAX,
        ensures
            match r {
                Ok(ctx) => entered(self.max_depth, current) == Some(ctx),
                Err(e) => entered(self.max_depth, current) is None && e.depth == current.depth + 1
                    && e.max_depth == self.max_depth && e.target@ == target@,
            },
    {
        let depth: usize = current.depth + 1;
        if depth > self.max_depth {
            return Err(
                DepthExceeded {
                    depth,
                    max_depth: self.max_depth,
                    target: String::from_str(target.as_str()),
                },
            );
        }
        Ok(ChainCtx { depth, uncapped: current.uncapped })
    }
}

impl From<&RuntimeOptions> for ChainPolicy {
    fn from(options: &RuntimeOptions) -> (policy: ChainPolicy) {
        ChainPolicy { max_depth: options.max_dispatch_depth, timeout: options.guest_timeout }
    }
}

impl vstd::std_specs::convert::FromSpecImpl<&RuntimeOptions> for ChainPolicy {
    open spec fn obeys_from_spec() -> bool {
        true
    }

    open spec fn from_spec(options: &RuntimeOptions) -> ChainPolicy {
        ChainPolicy { max_depth: options.max_dispatch_depth, timeout: options.guest_timeout }
    }
}

/// The context after `n` nested hops from `root`, if the depth allows them.
pub open spec fn hops(max_depth: usize, root: ChainCtx, n: nat) -> Option<ChainCtx>
    decreases n,
{
    if n == 0 {
        Some(root)
    } else {
        match hops(max_depth, root, (n - 1) as nat) {
            Some(ctx) => entered(max_depth, ctx),
            None => None,
        }
    }
}

/// A chain nests exactly as deep as the policy allows: from a root, `n` nested
/// hops are entered if and only if `n` is at most the maximum depth. The hop
/// then runs at depth `n`, and inherits from the root whether the wall-clock
/// cap applies.
pub proof fn chains_are_bounded(max_depth: usize, root: ChainCtx, n: nat)
    requires
        root.depth == 0,
    ensures
        hops(max_depth, root, n) is Some <==> n <= max_depth,
        hops(max_depth, root, n) matches Some(ctx) ==> ctx.depth == n && ctx.uncapped
            == root.uncapped,
    decreases n,
{
    if n > 0 {
        chains_are_bounded(max_depth, root, (n - 1) as nat);
    }
}

/// A command chain is never capped and any other root is: whatever scope work
/// runs in, the hops it makes keep to the cap of the chain's root, and work
/// outside a scope is a capped root.
pub proof fn hops_keep_the_cap<F>(
    work: F,
    command: Scoped<F>,
    within: ChainCtx,
    outside: ChainCtx,
    max_depth: usize,
)
    requires
        call_ensures(as_command_chain::<F>, (work,), command),
        call_ensures(current_chain, (Some(command.ctx),), within),
        call_ensures(current_chain, (None,), outside),
    ensures
        command.work == work,
        within == command.ctx,
        within.depth == 0 && outside.depth == 0,
        within.uncapped && !outside.uncapped,
        entered(max_depth, within) matches Some(next) ==> next.uncapped && next.depth == 1,
        entered(max_depth, outside) matches Some(next) ==> !next.uncapped && next.depth == 1,
{
}

/// What an incoming dispatch carries is what the work it serves runs under.
pub proof fn carried_chains_go_on<F>(ctx: ChainCtx, work: F, r: Scoped<F>, current: ChainCtx)
    requires
        call_ensures(with_chain::<F>, (ctx, work), r),
        call_ensures(current_chain, (Some(r.ctx),), current),
    ensures
        current == ctx,
        r.work == work,
{
}

/// The policy is the deployment's: its depth and its timeout, neither of them
/// the other bounds.
pub proof fn policies_are_the_options(options: &RuntimeOptions)
    ensures
        ({
            let policy = <ChainPolicy as vstd::std_specs::convert::FromSpec<
                &RuntimeOptions,
            >>::from_spec(options);
            &&& policy.max_depth == options.max_dispatch_depth
            &&& policy.timeout == options.guest_timeout
        }),
{
}

/// A hop that was refused tells how deep it would have been, how deep a chain
/// may be, and its target.
pub proof fn refused_hops_tell_the_bound(depth: nat, max_depth: nat, target: Seq<char>)
    ensures
        crate::text::holds(depth_text(depth, max_depth, target), target),
        crate::text::holds(
            depth_text(depth, max_depth, target),
            crate::text::decimal(depth) + " exceeds maximum "@ + crate::text::decimal(max_depth),
        ),
{
    let a = crate::text::decimal(depth);
    let b = crate::text::decimal(max_depth);
    let middle = a + " exceeds maximum "@ + b;
    let head = "link dispatch depth "@ + a + " exceeds maximum "@ + b;
    assert(head =~= "link dispatch depth "@ + middle);
    crate::text::holding_goes_on(middle);
    assert(crate::text::holds(head, middle));
    assert(crate::text::holds(head + " (target `"@, middle));
    assert(crate::text::holds(head + " (target `"@ + target, middle));
    crate::text::holding_goes_on(target);
    assert(crate::text::holds(head + " (target `"@ + target, target));
}

} // verus!
