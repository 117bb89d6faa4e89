//! Resource assembly: the two-state machine that collects the four protocol
//! globals and the output width, and finalizes exactly once when all five
//! are present, under any order of arrival.
//!
//! Handles are carried as plain numeric identifiers chosen by the caller;
//! the process around the library keeps the map from identifier to protocol
//! object.

use vstd::prelude::*;
use crate::text::str_eq;

verus! {

/// The four protocol globals the bar must bind before it can draw.
#[derive(Clone, Copy, Debug, PartialEq, Eq, Structural)]
pub enum Interface {
    /// The surface compositor (`wl_compositor`).
    Compositor,
    /// The display output (`wl_output`).
    Output,
    /// The shared-memory allocator (`wl_shm`).
    Shm,
    /// The layer-shell extension (`zwlr_layer_shell_v1`).
    LayerShell,
}

/// Which required global a registry announcement names, if any.
pub open spec fn spec_parse_interface(name: Seq<char>) -> Option<Interface> {
    if name == "wl_compositor"@ {
        Some(Interface::Compositor)
    } else if name == "wl_output"@ {
        Some(Interface::Output)
    } else if name == "wl_shm"@ {
        Some(Interface::Shm)
    } else if name == "zwlr_layer_shell_v1"@ {
        Some(Interface::LayerShell)
    } else {
        None
    }
}

/// Maps a registry interface name to the required global it announces.
pub fn parse_interface(name: &str) -> (r: Option<Interface>)
    ensures
        r == spec_parse_interface(name@),
{
    if str_eq(name, "wl_compositor") {
        Some(Interface::Compositor)
    } else if str_eq(name, "wl_output") {
        Some(Interface::Output)
    } else if str_eq(name, "wl_shm") {
        Some(Interface::Shm)
    } else if str_eq(name, "zwlr_layer_shell_v1") {
        Some(Interface::LayerShell)
    } else {
        None
    }
}

/// Resources gathered so far, before finalization.  All fields are optional
/// and independently settable.  For the compositor the handle stored is the
/// bar surface created from it.
#[derive(Clone, Copy, Debug, PartialEq, Eq, Structural)]
pub struct PsybeamPartial {
    pub wl_output: Option<u32>,
    pub wl_shm: Option<u32>,
    pub base_surface: Option<u32>,
    pub layer_shell: Option<u32>,
    pub width: Option<u32>,
}

impl Default for PsybeamPartial {
    /// The startup state: nothing bound, no width seen.
    fn default() -> (d: Self)
        ensures
            d.wl_output is None,
            d.wl_shm is None,
            d.base_surface is None,
            d.layer_shell is None,
            d.width is None,
    {
        PsybeamPartial {
            wl_output: None,
            wl_shm: None,
            base_surface: None,
            layer_shell: None,
            width: None,
        }
    }
}

/// Lifecycle of the layer surface once it exists.
#[derive(Clone, Copy, Debug, PartialEq, Eq, Structural)]
pub enum SurfacePhase {
    /// Created and committed, but not yet acknowledged by the compositor;
    /// nothing is visible yet.
    AwaitingConfigure,
    /// A configure event has been acknowledged with its own serial.
    Visible,
    /// The compositor closed the surface.
    Closed,
}

/// The fully assembled resources, immutable once built except for the
/// output width (late mode events still overwrite it) and the surface
/// lifecycle phase.
#[derive(Clone, Copy, Debug, PartialEq, Eq, Structural)]
pub struct PsybeamFinal {
    pub wl_output: u32,
    pub wl_shm: u32,
    pub base_surface: u32,
    pub layer_shell: u32,
    pub width: u32,
    pub layer_surface: u32,
    pub phase: SurfacePhase,
}

/// The resource assembler's state: partial until the one finalization.
#[derive(Clone, Copy, Debug, PartialEq, Eq, Structural)]
pub enum PsybeamResources {
    Partial(PsybeamPartial),
    Final(PsybeamFinal),
}

/// An inbound event that feeds the assembler.
#[derive(Clone, Copy, Debug, PartialEq, Eq, Structural)]
pub enum AssemblyEvent {
    /// A required global was announced and bound under `handle` (for the
    /// compositor, `handle` is the bar surface created from it).
    Global { interface: Interface, handle: u32 },
    /// The output reported a mode; only the pixel width is read.
    Mode { width: u32 },
}

impl PsybeamPartial {
    /// The slot a global of interface `i` is stored in.
    pub open spec fn slot(self, i: Interface) -> Option<u32> {
        match i {
            Interface::Compositor => self.base_surface,
            Interface::Output => self.wl_output,
            Interface::Shm => self.wl_shm,
            Interface::LayerShell => self.layer_shell,
        }
    }

    /// `self` with the slot of interface `i` holding `h`.
    pub open spec fn with_slot(self, i: Interface, h: u32) -> PsybeamPartial {
        match i {
            Interface::Compositor => PsybeamPartial { base_surface: Some(h), ..self },
            Interface::Output => PsybeamPartial { wl_output: Some(h), ..self },
            Interface::Shm => PsybeamPartial { wl_shm: Some(h), ..self },
            Interface::LayerShell => PsybeamPartial { layer_shell: Some(h), ..self },
        }
    }

    /// All five prerequisites are present.
    pub open spec fn complete(self) -> bool {
        &&& self.wl_output is Some
        &&& self.wl_shm is Some
        &&& self.base_surface is Some
        &&& self.layer_shell is Some
        &&& self.width is Some
    }
}

impl PsybeamResources {
    pub open spec fn is_final(self) -> bool {
        self is Final
    }

    /// One assembler update.  A global announcement fills its slot only if
    /// the slot is still empty and the state is still partial: a bound
    /// global is never rebound.  A mode event overwrites the width, before
    /// or after finalization.
    pub open spec fn spec_apply_update(self, ev: AssemblyEvent) -> PsybeamResources {
        match self {
            PsybeamResources::Partial(p) => match ev {
                AssemblyEvent::Global { interface, handle } => {
                    if p.slot(interface) is None {
                        PsybeamResources::Partial(p.with_slot(interface, handle))
                    } else {
                        self
                    }
                },
                AssemblyEvent::Mode { width } => {
                    PsybeamResources::Partial(PsybeamPartial { width: Some(width), ..p })
                },
            },
            PsybeamResources::Final(f) => match ev {
                AssemblyEvent::Global { .. } => self,
                AssemblyEvent::Mode { width } => {
                    PsybeamResources::Final(PsybeamFinal { width, ..f })
                },
            },
        }
    }

    /// Partial, with all five prerequisites present.
    pub open spec fn spec_complete(self) -> bool {
        self matches PsybeamResources::Partial(p) && p.complete()
    }

    /// The one transition to `Final`: fires exactly when the state is
    /// complete, captures every bound handle plus the new layer surface,
    /// and starts the surface lifecycle before its first configure event.
    /// There is no reverse transition.
    pub open spec fn spec_finalize(self, layer_surface: u32) -> PsybeamResources {
        if self.spec_complete() {
            let p = self->Partial_0;
            PsybeamResources::Final(PsybeamFinal {
                wl_output: p.wl_output.unwrap(),
                wl_shm: p.wl_shm.unwrap(),
                base_surface: p.base_surface.unwrap(),
                layer_shell: p.layer_shell.unwrap(),
                width: p.width.unwrap(),
                layer_surface,
                phase: SurfacePhase::AwaitingConfigure,
            })
        } else {
            self
        }
    }

    /// An update followed by a finalization attempt: the check-after-
    /// mutation pattern that makes finalization order-independent.
    pub open spec fn spec_step(self, ev: AssemblyEvent, layer_surface: u32) -> PsybeamResources {
        self.spec_apply_update(ev).spec_finalize(layer_surface)
    }
}

/// The state after a whole run of assembler steps, first element first.
pub open spec fn spec_run(r: PsybeamResources, steps: Seq<(AssemblyEvent, u32)>) -> PsybeamResources
    decreases steps.len(),
{
    if steps.len() == 0 {
        r
    } else {
        spec_run(r.spec_step(steps[0].0, steps[0].1), steps.drop_first())
    }
}

/// Does this event announce a global of interface `i`?
pub open spec fn supplies(ev: AssemblyEvent, i: Interface) -> bool {
    ev matches AssemblyEvent::Global { interface, .. } && interface == i
}

/// Does some step of the run announce a global of interface `i`?
pub open spec fn some_global(steps: Seq<(AssemblyEvent, u32)>, i: Interface) -> bool {
    exists|k: int| 0 <= k < steps.len() && supplies(steps[k].0, i)
}

/// Does some step of the run report an output mode?
pub open spec fn some_mode(steps: Seq<(AssemblyEvent, u32)>) -> bool {
    exists|k: int| 0 <= k < steps.len() && steps[k].0 is Mode
}

proof fn lemma_some_global_shift(steps: Seq<(AssemblyEvent, u32)>, i: Interface)
    requires
        steps.len() > 0,
    ensures
        some_global(steps, i) == (supplies(steps[0].0, i) || some_global(steps.drop_first(), i)),
{
    let rest = steps.drop_first();
    if supplies(steps[0].0, i) {
        assert(some_global(steps, i));
    }
    if some_global(rest, i) {
        let k = choose|k: int| 0 <= k < rest.len() && supplies(rest[k].0, i);
        assert(supplies(steps[k + 1].0, i));
        assert(some_global(steps, i));
    }
    if some_global(steps, i) && !supplies(steps[0].0, i) {
        let k = choose|k: int| 0 <= k < steps.len() && supplies(steps[k].0, i);
        assert(k > 0);
        assert(supplies(rest[k - 1].0, i));
        assert(some_global(rest, i));
    }
}

proof fn lemma_some_mode_shift(steps: Seq<(AssemblyEvent, u32)>)
    requires
        steps.len() > 0,
    ensures
        some_mode(steps) == (steps[0].0 is Mode || some_mode(steps.drop_first())),
{
    let rest = steps.drop_first();
    if some_mode(rest) {
        let k = choose|k: int| 0 <= k < rest.len() && rest[k].0 is Mode;
        assert(steps[k + 1].0 is Mode);
        assert(some_mode(steps));
    }
    if some_mode(steps) && !(steps[0].0 is Mode) {
        let k = choose|k: int| 0 <= k < steps.len() && steps[k].0 is Mode;
        assert(k > 0);
        assert(rest[k - 1].0 is Mode);
        assert(some_mode(rest));
    }
}

/// Once final, the assembler stays final, and no later event touches the
/// captured handles, the layer surface, or the lifecycle phase; only the
/// output width may still be overwritten by mode events.
pub proof fn lemma_final_absorbing(r: PsybeamResources, steps: Seq<(AssemblyEvent, u32)>)
    requires
        r.is_final(),
    ensures
        spec_run(r, steps).is_final(),
        spec_run(r, steps)->Final_0.wl_output == r->Final_0.wl_output,
        spec_run(r, steps)->Final_0.wl_shm == r->Final_0.wl_shm,
        spec_run(r, steps)->Final_0.base_surface == r->Final_0.base_surface,
        spec_run(r, steps)->Final_0.layer_shell == r->Final_0.layer_shell,
        spec_run(r, steps)->Final_0.layer_surface == r->Final_0.layer_surface,
        spec_run(r, steps)->Final_0.phase == r->Final_0.phase,
    decreases steps.len(),
{
    if steps.len() > 0 {
        lemma_final_absorbing(r.spec_step(steps[0].0, steps[0].1), steps.drop_first());
    }
}

/// Finalization is reached exactly when, for each of the five
/// prerequisites, the start state already holds it or some step of the run
/// supplies it — independent of the order of the steps.
pub proof fn lemma_finalize_iff_supplied(p: PsybeamPartial, steps: Seq<(AssemblyEvent, u32)>)
    requires
        !p.complete(),
    ensures
        spec_run(PsybeamResources::Partial(p), steps).is_final() <==> {
            &&& p.base_surface is Some || some_global(steps, Interface::Compositor)
            &&& p.wl_output is Some || some_global(steps, Interface::Output)
            &&& p.wl_shm is Some || some_global(steps, Interface::Shm)
            &&& p.layer_shell is Some || some_global(steps, Interface::LayerShell)
            &&& p.width is Some || some_mode(steps)
        },
    decreases steps.len(),
{
    if steps.len() > 0 {
        let ev = steps[0].0;
        let ls = steps[0].1;
        let rest = steps.drop_first();
        let s1 = PsybeamResources::Partial(p).spec_step(ev, ls);
        lemma_some_global_shift(steps, Interface::Compositor);
        lemma_some_global_shift(steps, Interface::Output);
        lemma_some_global_shift(steps, Interface::Shm);
        lemma_some_global_shift(steps, Interface::LayerShell);
        lemma_some_mode_shift(steps);
        if s1.is_final() {
            lemma_final_absorbing(s1, rest);
        } else {
            let p1 = s1->Partial_0;
            lemma_finalize_iff_supplied(p1, rest);
        }
    }
}

/// This step performs the one transition to `Final`, and with it the
/// one-time construction of the drawable surface.
pub open spec fn fires(r: PsybeamResources, ev: AssemblyEvent, ls: u32) -> bool {
    !r.is_final() && r.spec_step(ev, ls).is_final()
}

proof fn lemma_run_append(
    r: PsybeamResources,
    s1: Seq<(AssemblyEvent, u32)>,
    s2: Seq<(AssemblyEvent, u32)>,
)
    ensures
        spec_run(r, s1 + s2) == spec_run(spec_run(r, s1), s2),
    decreases s1.len(),
{
    if s1.len() == 0 {
        assert(s1 + s2 =~= s2);
    } else {
        assert((s1 + s2).drop_first() =~= s1.drop_first() + s2);
        lemma_run_append(r.spec_step(s1[0].0, s1[0].1), s1.drop_first(), s2);
    }
}

proof fn lemma_run_singleton(r: PsybeamResources, e: (AssemblyEvent, u32))
    ensures
        spec_run(r, seq![e]) == r.spec_step(e.0, e.1),
{
    reveal_with_fuel(spec_run, 3);
    assert(seq![e].drop_first() =~= Seq::<(AssemblyEvent, u32)>::empty());
}

/// The one-time construction of finalization executes at most once in any
/// run: if the step at `k1` performed it, no later step does, even if
/// duplicate global announcements or mode events keep arriving.
pub proof fn lemma_finalize_at_most_once(
    r: PsybeamResources,
    steps: Seq<(AssemblyEvent, u32)>,
    k1: int,
    k2: int,
)
    requires
        0 <= k1 < k2 < steps.len(),
        fires(spec_run(r, steps.take(k1)), steps[k1].0, steps[k1].1),
    ensures
        !fires(spec_run(r, steps.take(k2)), steps[k2].0, steps[k2].1),
{
    let after = spec_run(r, steps.take(k1 + 1));
    assert(steps.take(k1 + 1) =~= steps.take(k1) + seq![steps[k1]]);
    lemma_run_append(r, steps.take(k1), seq![steps[k1]]);
    lemma_run_singleton(spec_run(r, steps.take(k1)), steps[k1]);
    assert(after.is_final());
    assert(steps.take(k2) =~= steps.take(k1 + 1) + steps.subrange(k1 + 1, k2));
    lemma_run_append(r, steps.take(k1 + 1), steps.subrange(k1 + 1, k2));
    lemma_final_absorbing(after, steps.subrange(k1 + 1, k2));
}

} // verus!
