//! The bar session: the single state object owned by the dispatch loop,
//! and the handler each inbound event is routed to.  Every handler runs to
//! completion before the next event; finalization is attempted right after
//! the update that may have supplied the last missing prerequisite.

use vstd::prelude::*;
use crate::assembly::AssemblyEvent;
use crate::assembly::Interface;
use crate::assembly::PsybeamFinal;
use crate::assembly::PsybeamPartial;
use crate::assembly::PsybeamResources;
use crate::assembly::SurfacePhase;
use crate::config::Anchor;
use crate::config::SurfaceConfig;
use crate::render::FramePlan;
use crate::render::frame_plan;
use crate::widget::Widget;

verus! {

/// Everything the process must do when finalization fires, in this order:
/// allocate the pixel pool, create the layer surface for the bar surface
/// on the bound output, anchor it, size it, set its exclusive zone, then
/// request an initial frame callback and commit.  Nothing is visible until
/// the following configure event is acknowledged.
#[derive(Clone, Copy, Debug, PartialEq, Eq, Structural)]
pub struct FinalizePlan {
    /// Byte size of the pixel pool: output width times height times 4.
    pub pool_size: usize,
    /// The edge to anchor the layer surface to.
    pub anchor: Anchor,
    /// Size of the layer surface: the output width and the configured bar
    /// height.
    pub width: u32,
    pub height: u32,
    /// The exclusive zone to request.
    pub exclusive_zone: i32,
}

/// The bar's whole state, owned exclusively by the dispatch loop.
pub struct Psybeam {
    pub config: SurfaceConfig,
    /// The sole termination signal the dispatch loop consumes.
    pub running: bool,
    pub resources: PsybeamResources,
    pub layout: Vec<Widget>,
}

/// The session after a closed event: the running flag is cleared and an
/// assembled surface is marked closed; nothing else changes.
pub open spec fn spec_close(s: Psybeam) -> Psybeam {
    Psybeam {
        running: false,
        resources: match s.resources {
            PsybeamResources::Final(f) => PsybeamResources::Final(
                PsybeamFinal { phase: SurfacePhase::Closed, ..f },
            ),
            PsybeamResources::Partial(_) => s.resources,
        },
        ..s
    }
}

/// The session after a configure event is acknowledged: an assembled
/// surface that is not closed becomes visible; nothing else changes.
pub open spec fn spec_configure(s: Psybeam) -> Psybeam {
    Psybeam {
        resources: match s.resources {
            PsybeamResources::Final(f) => PsybeamResources::Final(
                PsybeamFinal {
                    phase: if f.phase is Closed {
                        SurfacePhase::Closed
                    } else {
                        SurfacePhase::Visible
                    },
                    ..f
                },
            ),
            PsybeamResources::Partial(_) => s.resources,
        },
        ..s
    }
}

impl Psybeam {
    pub open spec fn wf(self) -> bool {
        self.config.wf()
    }

    /// A new session: running, nothing bound, no width seen.
    pub fn new(config: SurfaceConfig, layout: Vec<Widget>) -> (s: Self)
        requires
            config.wf(),
        ensures
            s.wf(),
            s.config == config,
            s.running,
            s.layout == layout,
            s.resources == PsybeamResources::Partial(
                PsybeamPartial {
                    wl_output: None,
                    wl_shm: None,
                    base_surface: None,
                    layer_shell: None,
                    width: None,
                },
            ),
    {
        Psybeam {
            config,
            running: true,
            resources: PsybeamResources::Partial(Default::default()),
            layout,
        }
    }

    /// Should an announced global of this interface be bound?  Only while
    /// assembly is still partial and the slot is empty: a bound global is
    /// never rebound, and nothing is bound after finalization.
    pub fn wants_global(&self, interface: Interface) -> (r: bool)
        ensures
            r == (self.resources matches PsybeamResources::Partial(p) && p.slot(interface)
                is None),
    {
        match &self.resources {
            PsybeamResources::Partial(p) => match interface {
                Interface::Compositor => p.base_surface.is_none(),
                Interface::Output => p.wl_output.is_none(),
                Interface::Shm => p.wl_shm.is_none(),
                Interface::LayerShell => p.layer_shell.is_none(),
            },
            PsybeamResources::Final(_) => false,
        }
    }

    /// Records one assembler update: the handle of a freshly bound global,
    /// or a new output width.  Exactly the transition
    /// [`PsybeamResources::spec_apply_update`] describes; the caller
    /// should attempt finalization right after.
    pub fn apply_update(&mut self, ev: AssemblyEvent)
        ensures
            final(self).resources == old(self).resources.spec_apply_update(ev),
            final(self).config == old(self).config,
            final(self).running == old(self).running,
            final(self).layout == old(self).layout,
    {
        let cur = self.resources;
        self.resources = match cur {
            PsybeamResources::Partial(p) => match ev {
                AssemblyEvent::Global { interface, handle } => {
                    let slot = match interface {
                        Interface::Compositor => p.base_surface,
                        Interface::Output => p.wl_output,
                        Interface::Shm => p.wl_shm,
                        Interface::LayerShell => p.layer_shell,
                    };
                    if slot.is_none() {
                        PsybeamResources::Partial(
                            match interface {
                                Interface::Compositor => PsybeamPartial {
                                    base_surface: Some(handle),
                                    ..p
                                },
                                Interface::Output => PsybeamPartial { wl_output: Some(handle), ..p },
                                Interface::Shm => PsybeamPartial { wl_shm: Some(handle), ..p },
                                Interface::LayerShell => PsybeamPartial {
                                    layer_shell: Some(handle),
                                    ..p
                                },
                            },
                        )
                    } else {
                        cur
                    }
                },
                AssemblyEvent::Mode { width } => PsybeamResources::Partial(
                    PsybeamPartial { width: Some(width), ..p },
                ),
            },
            PsybeamResources::Final(f) => match ev {
                AssemblyEvent::Global { .. } => cur,
                AssemblyEvent::Mode { width } => PsybeamResources::Final(
                    PsybeamFinal { width, ..f },
                ),
            },
        };
    }

    /// All five prerequisites are present, so finalization would fire.
    pub fn ready_to_finalize(&self) -> (r: bool)
        ensures
            r == self.resources.spec_complete(),
    {
        match &self.resources {
            PsybeamResources::Partial(p) => {
                p.wl_output.is_some() && p.wl_shm.is_some() && p.base_surface.is_some()
                    && p.layer_shell.is_some() && p.width.is_some()
            },
            PsybeamResources::Final(_) => false,
        }
    }

    /// The one transition to `Final`.  If all five prerequisites are
    /// present, captures the bound handles together with the caller's
    /// fresh layer-surface handle, and returns the one-time construction
    /// plan the process must carry out; otherwise changes nothing and
    /// returns nothing.  Once final, every later call returns nothing, so
    /// the plan's side effects happen at most once.
    pub fn try_finalize(&mut self, layer_surface: u32) -> (r: Option<FinalizePlan>)
        requires
            old(self).wf(),
            old(self).resources.spec_complete() ==> (old(
                self,
            ).resources->Partial_0.width.unwrap() as int) * (old(self).config.height as int) * 4
                <= usize::MAX,
        ensures
            final(self).resources == old(self).resources.spec_finalize(layer_surface),
            final(self).config == old(self).config,
            final(self).running == old(self).running,
            final(self).layout == old(self).layout,
            r is Some <==> old(self).resources.spec_complete(),
            r matches Some(plan) ==> {
                &&& plan.width == old(self).resources->Partial_0.width.unwrap()
                &&& plan.height == old(self).config.height
                &&& plan.pool_size == plan.width * plan.height * 4
                &&& plan.anchor == old(self).config.spec_anchor()
                &&& plan.exclusive_zone == old(self).config.spec_exclusive_zone()
            },
    {
        let cur = self.resources;
        match cur {
            PsybeamResources::Partial(p) => {
                match (p.wl_output, p.wl_shm, p.base_surface, p.layer_shell, p.width) {
                    (Some(output), Some(shm), Some(surface), Some(shell), Some(width)) => {
                        self.resources = PsybeamResources::Final(
                            PsybeamFinal {
                                wl_output: output,
                                wl_shm: shm,
                                base_surface: surface,
                                layer_shell: shell,
                                width,
                                layer_surface,
                                phase: SurfacePhase::AwaitingConfigure,
                            },
                        );
                        let height = self.config.height;
                        Some(
                            FinalizePlan {
                                pool_size: (width as usize) * (height as usize) * 4,
                                anchor: self.config.anchor(),
                                width,
                                height,
                                exclusive_zone: self.config.exclusive_zone(),
                            },
                        )
                    },
                    _ => None,
                }
            },
            PsybeamResources::Final(_) => None,
        }
    }

    /// Handles a configure event for the layer surface: returns the exact
    /// serial received, which the process must acknowledge before it
    /// commits the surface; only then is the surface visible.
    pub fn handle_configure(&mut self, serial: u32) -> (ack: u32)
        requires
            old(self).resources is Final,
        ensures
            ack == serial,
            *final(self) == spec_configure(*old(self)),
    {
        let cur = self.resources;
        if let PsybeamResources::Final(f) = cur {
            let phase = match f.phase {
                SurfacePhase::Closed => SurfacePhase::Closed,
                SurfacePhase::AwaitingConfigure => SurfacePhase::Visible,
                SurfacePhase::Visible => SurfacePhase::Visible,
            };
            self.resources = PsybeamResources::Final(PsybeamFinal { phase, ..f });
        }
        serial
    }

    /// Handles the closed event: clears the running flag, the sole
    /// termination signal of the dispatch loop.
    pub fn handle_closed(&mut self)
        ensures
            *final(self) == spec_close(*old(self)),
    {
        self.running = false;
        let cur = self.resources;
        if let PsybeamResources::Final(f) = cur {
            self.resources = PsybeamResources::Final(
                PsybeamFinal { phase: SurfacePhase::Closed, ..f },
            );
        }
    }

    /// The dispatch loop's guard: keep dispatching while the session runs.
    pub fn keep_running(&self) -> (r: bool)
        ensures
            r == self.running,
    {
        self.running
    }

    /// Handles a frame-completion notification: exactly one render cycle
    /// runs per notification.  Returns the buffer geometry of the frame
    /// the process must now render, attach at the origin, damage in full,
    /// and commit, after requesting the next frame callback — or nothing
    /// while the resources are still partial or the dimensions do not fit
    /// the protocol's signed 32-bit fields.
    pub fn handle_frame_done(&self) -> (r: Option<FramePlan>)
        ensures
            r is Some <==> (self.resources matches PsybeamResources::Final(f) && f.width * 4
                <= i32::MAX && self.config.height <= i32::MAX && f.width * self.config.height * 4
                <= i32::MAX),
            r matches Some(p) ==> {
                &&& p.width == self.resources->Final_0.width
                &&& p.height == self.config.height
                &&& p.pool_size == p.width * p.height * 4
                &&& p.stride == p.width * 4
            },
    {
        match &self.resources {
            PsybeamResources::Final(f) => {
                let width = f.width;
                let height = self.config.height;
                proof {
                    assert(0 <= (width as int) * (height as int) * 4
                        < 0x1_0000_0000_0000_0000_0000) by (nonlinear_arith)
                        requires
                            0 <= width < 0x1_0000_0000,
                            0 <= height < 0x1_0000_0000,
                    ;
                }
                if width <= (i32::MAX as u32) / 4 && height <= i32::MAX as u32 && (width as u128)
                    * (height as u128) * 4 <= i32::MAX as u128 {
                    Some(frame_plan(width, height))
                } else {
                    None
                }
            },
            PsybeamResources::Partial(_) => None,
        }
    }
}

/// Closing is idempotent: the first closed event flips `running` to false,
/// and handling any further closed event changes nothing at all.
pub proof fn lemma_closed_idempotent(s: Psybeam)
    ensures
        !spec_close(s).running,
        spec_close(spec_close(s)) == spec_close(s),
{
}

/// Only the acknowledged configure event makes the surface visible: an
/// assembler update or a finalization never yields a visible surface from
/// a non-visible one, closing never does, and the configure handler —
/// which does — returns exactly the serial it was given, to be
/// acknowledged before the commit.
pub proof fn lemma_visible_only_after_configure(s: Psybeam, ev: AssemblyEvent, ls: u32)
    requires
        !(s.resources matches PsybeamResources::Final(f) && f.phase is Visible),
    ensures
        !(s.resources.spec_apply_update(ev) matches PsybeamResources::Final(f) && f.phase
            is Visible),
        !(s.resources.spec_apply_update(ev).spec_finalize(ls)
            matches PsybeamResources::Final(f) && f.phase is Visible),
        !(spec_close(s).resources matches PsybeamResources::Final(f) && f.phase is Visible),
{
}

} // verus!
