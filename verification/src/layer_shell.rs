//! Bookkeeping for `zwlr_layer_shell_v1` surfaces: the role a surface is
//! created with, the configure events queued for surfaces until they are
//! acknowledged, surface ids, and the decisions of the dispatcher thread.

use vstd::prelude::*;
use vstd::std_specs::ops::BitOrSpec;
use crate::lookup::{last_index, is_last, lemma_last_index_found, lemma_last_index_none};

verus! {

/// The layer a layer-shell surface is stacked in.
#[derive(Copy, Clone, Debug)]
pub enum Layer {
    Background,
    Bottom,
    Top,
    Overlay,
}

/// The edges a layer-shell surface is anchored to, as protocol bits.
#[derive(Copy, Clone, Debug)]
pub struct Anchor(u32);

impl View for Anchor {
    type V = u32;

    closed spec fn view(&self) -> u32 {
        self.0
    }
}

impl Anchor {
    /// Anchored to no edge.
    pub fn none() -> (r: Anchor)
        ensures
            r@ == 0,
    {
        Anchor(0)
    }

    /// Anchored to the top edge.
    pub fn top() -> (r: Anchor)
        ensures
            r@ == 1,
    {
        Anchor(1)
    }

    /// Anchored to the bottom edge.
    pub fn bottom() -> (r: Anchor)
        ensures
            r@ == 2,
    {
        Anchor(2)
    }

    /// Anchored to the left edge.
    pub fn left() -> (r: Anchor)
        ensures
            r@ == 4,
    {
        Anchor(4)
    }

    /// Anchored to the right edge.
    pub fn right() -> (r: Anchor)
        ensures
            r@ == 8,
    {
        Anchor(8)
    }

    /// The protocol bits of the anchor.
    pub fn bits(self) -> (r: u32)
        ensures
            r == self@,
    {
        self.0
    }
}

impl Default for Anchor {
    fn default() -> (r: Anchor)
        ensures
            r@ == 0,
    {
        Anchor(0)
    }
}

impl core::ops::BitOr for Anchor {
    type Output = Anchor;

    fn bitor(self, rhs: Anchor) -> (r: Anchor)
        ensures
            r@ == self@ | rhs@,
    {
        Anchor(self.0 | rhs.0)
    }
}

impl vstd::std_specs::ops::BitOrSpecImpl for Anchor {
    open spec fn obeys_bitor_spec() -> bool {
        true
    }

    open spec fn bitor_req(self, rhs: Anchor) -> bool {
        true
    }

    closed spec fn bitor_spec(self, rhs: Anchor) -> Anchor {
        Anchor(self.0 | rhs.0)
    }
}

/// The `|` of two anchors holds the bits of both.
pub broadcast proof fn lemma_anchor_bitor_view(a: Anchor, b: Anchor)
    ensures
        (#[trigger] vstd::std_specs::ops::BitOrSpec::bitor_spec(a, b))@ == a@ | b@,
{
}

/// How a layer-shell surface takes keyboard focus.
#[derive(Copy, Clone, Debug)]
pub enum KeyboardInteractivity {
    /// The surface never takes keyboard focus.
    NoFocus,
    Exclusive,
    OnDemand,
}

/// Everything a layer-shell surface is created with.
#[derive(Debug)]
pub struct LayerShellRole {
    pub layer: Layer,
    pub anchor: Anchor,
    pub exclusive_zone: i32,
    /// (width, height). 0 for either dimension means "stretch along anchored edges".
    pub size: (u32, u32),
    pub namespace: String,
    pub keyboard_interactivity: KeyboardInteractivity,
}

impl Clone for LayerShellRole {
    fn clone(&self) -> (r: Self)
        ensures
            r == *self,
    {
        LayerShellRole {
            layer: self.layer,
            anchor: self.anchor,
            exclusive_zone: self.exclusive_zone,
            size: self.size,
            namespace: self.namespace.clone(),
            keyboard_interactivity: self.keyboard_interactivity,
        }
    }
}

/// A configure event of the compositor that no surface has acknowledged yet.
#[derive(Copy, Clone, Debug)]
pub struct PendingConfigure {
    pub serial: u32,
    pub width: u32,
    pub height: u32,
    pub surface_id: usize,
}

/// Matches the configures of the surface `id`.
pub open spec fn for_surface(id: usize) -> spec_fn(PendingConfigure) -> bool {
    |c: PendingConfigure| c.surface_id == id
}

/// The configures of `q` that are not for the surface `id`, in order.
pub open spec fn without_surface(q: Seq<PendingConfigure>, id: usize) -> Seq<PendingConfigure>
    decreases q.len(),
{
    if q.len() == 0 {
        seq![]
    } else {
        let rest = without_surface(q.drop_last(), id);
        if q.last().surface_id == id {
            rest
        } else {
            rest.push(q.last())
        }
    }
}

/// The newest configure of `q` for the surface `id`, if any.
pub open spec fn latest_for_surface(q: Seq<PendingConfigure>, id: usize) -> Option<PendingConfigure> {
    match last_index(q, for_surface(id)) {
        Some(i) => Some(q[i]),
        None => None,
    }
}

/// The configure events received for layer surfaces, oldest first.
pub struct PendingConfigures {
    items: Vec<PendingConfigure>,
}

impl View for PendingConfigures {
    type V = Seq<PendingConfigure>;

    closed spec fn view(&self) -> Seq<PendingConfigure> {
        self.items@
    }
}

impl PendingConfigures {
    /// An empty queue.
    pub fn new() -> (q: Self)
        ensures
            q@ == Seq::<PendingConfigure>::empty(),
    {
        PendingConfigures { items: Vec::new() }
    }

    /// Queues a configure event received from the compositor.
    pub fn push(&mut self, c: PendingConfigure)
        ensures
            final(self)@ == old(self)@.push(c),
    {
        self.items.push(c);
    }

    /// Whether a configure is queued for the surface `id`.
    pub fn has_pending_for(&self, id: usize) -> (r: bool)
        ensures
            r == exists|i: int| 0 <= i < self@.len() && (#[trigger] self@[i]).surface_id == id,
    {
        let mut i: usize = 0;
        while i < self.items.len()
            invariant
                i <= self.items@.len(),
                forall|j: int| 0 <= j < i ==> (#[trigger] self.items@[j]).surface_id != id,
            decreases self.items@.len() - i,
        {
            if self.items[i].surface_id == id {
                assert(self@[i as int].surface_id == id);
                return true;
            }
            i = i + 1;
        }
        false
    }

    /// Takes the newest configure queued for the surface `id` and drops the
    /// older ones for it; the configures of other surfaces stay queued in
    /// their order. With none queued for `id`, nothing changes.
    pub fn take_latest_for(&mut self, id: usize) -> (r: Option<PendingConfigure>)
        ensures
            r == latest_for_surface(old(self)@, id),
            r is Some ==> final(self)@ == without_surface(old(self)@, id),
            r is None ==> final(self)@ == old(self)@,
    {
        let ghost q = self.items@;
        let mut k: usize = self.items.len();
        while k > 0
            invariant
                k <= self.items@.len(),
                self.items@ == q,
                self@ == q,
                q == old(self)@,
                forall|j: int| k <= j < q.len() ==> !(#[trigger] for_surface(id)(q[j])),
            decreases k,
        {
            if self.items[k - 1].surface_id == id {
                let latest = self.items[k - 1];
                proof {
                    assert(is_last(q, for_surface(id), k - 1));
                    lemma_last_index_found(q, for_surface(id), k - 1);
                }
                self.drop_surface(id);
                return Some(latest);
            }
            k = k - 1;
        }
        proof {
            lemma_last_index_none(q, for_surface(id));
        }
        None
    }

    /// Drops every configure queued for the surface `id`.
    fn drop_surface(&mut self, id: usize)
        ensures
            final(self)@ == without_surface(old(self)@, id),
    {
        let mut kept: Vec<PendingConfigure> = Vec::new();
        let mut i: usize = 0;
        while i < self.items.len()
            invariant
                i <= self.items@.len(),
                kept@ == without_surface(self.items@.take(i as int), id),
            decreases self.items@.len() - i,
        {
            assert(self.items@.take(i + 1).drop_last() =~= self.items@.take(i as int));
            let c = self.items[i];
            if c.surface_id != id {
                kept.push(c);
            }
            i = i + 1;
        }
        assert(self.items@.take(self.items@.len() as int) =~= self.items@);
        self.items = kept;
    }
}

/// Hands out the ids that tell layer surfaces apart, counting up from 1.
pub struct SurfaceIds {
    next_id: usize,
}

impl SurfaceIds {
    /// The id that the next surface gets.
    pub closed spec fn next(self) -> usize {
        self.next_id
    }

    /// The id that the next surface gets.
    pub fn next_id(&self) -> (r: usize)
        ensures
            r == self.next(),
    {
        self.next_id
    }

    /// A counter whose first id is 1.
    pub fn new() -> (r: Self)
        ensures
            r.next() == 1,
    {
        SurfaceIds { next_id: 1 }
    }

    /// Returns the id for a new surface and moves on to the next one.
    pub fn allocate(&mut self) -> (id: usize)
        requires
            old(self).next() < usize::MAX,
        ensures
            id == old(self).next(),
            final(self).next() == old(self).next() + 1,
    {
        let id = self.next_id;
        self.next_id = id + 1;
        id
    }
}

/// What the compositor tells a layer surface.
#[derive(Copy, Clone, Debug)]
pub enum LayerSurfaceEvent {
    Configure { serial: u32, width: u32, height: u32 },
    Closed,
    Other,
}

/// Handles an event of the surface `surface_id`: a configure is queued until
/// the surface takes it; returns whether the compositor closed the surface.
pub fn handle_surface_event(
    pending: &mut PendingConfigures,
    surface_id: usize,
    event: LayerSurfaceEvent,
) -> (closed: bool)
    ensures
        closed == event is Closed,
        match event {
            LayerSurfaceEvent::Configure { serial, width, height } => final(pending)@ == old(pending)@.push(
                PendingConfigure { serial, width, height, surface_id },
            ),
            _ => final(pending)@ == old(pending)@,
        },
{
    match event {
        LayerSurfaceEvent::Configure { serial, width, height } => {
            pending.push(PendingConfigure { serial, width, height, surface_id });
            false
        },
        LayerSurfaceEvent::Closed => true,
        LayerSurfaceEvent::Other => false,
    }
}

/// What a layer surface knows of itself: its id and its current size.
pub struct SurfaceState {
    id: usize,
    current_size: (u32, u32),
}

impl SurfaceState {
    /// The id of the surface.
    pub closed spec fn spec_id(self) -> usize {
        self.id
    }

    /// The size the surface was created with or last configured to.
    pub closed spec fn spec_size(self) -> (u32, u32) {
        self.current_size
    }

    /// The state of a surface created with the id `id` and the role size.
    pub fn new(id: usize, size: (u32, u32)) -> (r: Self)
        ensures
            r.spec_id() == id,
            r.spec_size() == size,
    {
        SurfaceState { id, current_size: size }
    }

    /// The id of the surface.
    pub fn id(&self) -> (r: usize)
        ensures
            r == self.spec_id(),
    {
        self.id
    }

    /// The size the surface was created with or last configured to.
    pub fn current_size(&self) -> (r: (u32, u32))
        ensures
            r == self.spec_size(),
    {
        self.current_size
    }

    /// Whether a configure is queued for this surface and not yet taken.
    pub fn has_pending_configure(&self, pending: &PendingConfigures) -> (r: bool)
        ensures
            r == exists|i: int| 0 <= i < pending@.len() && (#[trigger] pending@[i]).surface_id == self.spec_id(),
    {
        pending.has_pending_for(self.id)
    }

    /// Takes the newest configure queued for this surface (dropping older
    /// ones for it) and adopts its size. The caller acknowledges the
    /// returned serial to the compositor.
    pub fn take_pending_configure(&mut self, pending: &mut PendingConfigures) -> (r: Option<PendingConfigure>)
        ensures
            r == latest_for_surface(old(pending)@, old(self).spec_id()),
            final(self).spec_id() == old(self).spec_id(),
            match r {
                Some(c) => final(self).spec_size() == (c.width, c.height) && final(pending)@ == without_surface(
                    old(pending)@,
                    old(self).spec_id(),
                ),
                None => final(self).spec_size() == old(self).spec_size() && final(pending)@ == old(pending)@,
            },
    {
        let r = pending.take_latest_for(self.id);
        if let Some(c) = r {
            self.current_size = (c.width, c.height);
        }
        r
    }
}

/// The step the layer-shell dispatcher thread takes next.
#[derive(Copy, Clone, Debug, PartialEq, Eq, Structural)]
pub enum DispatcherAction {
    /// Block until the compositor sends events and dispatch them.
    Dispatch,
    /// Wake the main event loop so it picks up what was dispatched.
    WakeMainLoop,
    /// Leave the thread.
    Exit,
}

/// What came of the dispatcher's last step.
#[derive(Copy, Clone, Debug)]
pub enum DispatcherEvent {
    /// Blocking dispatch succeeded.
    Dispatched,
    /// Blocking dispatch failed.
    DispatchFailed,
    /// The main event loop accepted the wake-up.
    WakeSent,
    /// The main event loop is gone.
    WakeFailed,
}

/// Dispatch while the manager is alive, exit once it is not.
pub open spec fn spec_dispatcher_start(alive: bool) -> DispatcherAction {
    if alive {
        DispatcherAction::Dispatch
    } else {
        DispatcherAction::Exit
    }
}

/// The dispatcher's step after `event`: every successful dispatch is
/// followed by a wake-up of the main loop; after a delivered wake-up it
/// dispatches again while the manager is alive; a failed dispatch or a lost
/// main loop ends the thread.
pub open spec fn spec_dispatcher_next(alive: bool, event: DispatcherEvent) -> DispatcherAction {
    match event {
        DispatcherEvent::Dispatched => DispatcherAction::WakeMainLoop,
        DispatcherEvent::WakeSent => spec_dispatcher_start(alive),
        DispatcherEvent::DispatchFailed => DispatcherAction::Exit,
        DispatcherEvent::WakeFailed => DispatcherAction::Exit,
    }
}

/// The first step of the dispatcher thread: dispatch while the manager is alive.
pub fn dispatcher_start(alive: bool) -> (a: DispatcherAction)
    ensures
        a == spec_dispatcher_start(alive),
{
    if alive {
        DispatcherAction::Dispatch
    } else {
        DispatcherAction::Exit
    }
}

/// The dispatcher's next step: wake the main loop after every successful
/// dispatch; after a delivered wake-up, dispatch again while the manager is
/// alive; on a failed dispatch or a lost main loop, exit.
pub fn dispatcher_next(alive: bool, event: DispatcherEvent) -> (a: DispatcherAction)
    ensures
        a == spec_dispatcher_next(alive, event),
{
    match event {
        DispatcherEvent::Dispatched => DispatcherAction::WakeMainLoop,
        DispatcherEvent::WakeSent => dispatcher_start(alive),
        DispatcherEvent::DispatchFailed => DispatcherAction::Exit,
        DispatcherEvent::WakeFailed => DispatcherAction::Exit,
    }
}

/// Every successful dispatch is followed by exactly one wake-up of the main
/// loop before the next dispatch: the step after a dispatch is a wake-up,
/// and the step after a delivered wake-up is a dispatch or the end, never a
/// second wake-up. A failed wake-up or a failed dispatch ends the thread.
pub proof fn law_one_wake_per_dispatch(alive: bool, later_alive: bool)
    ensures
        spec_dispatcher_next(alive, DispatcherEvent::Dispatched) == DispatcherAction::WakeMainLoop,
        spec_dispatcher_next(later_alive, DispatcherEvent::WakeSent) != DispatcherAction::WakeMainLoop,
        spec_dispatcher_next(later_alive, DispatcherEvent::WakeSent) == DispatcherAction::Dispatch <==> later_alive,
        spec_dispatcher_next(later_alive, DispatcherEvent::WakeFailed) == DispatcherAction::Exit,
        spec_dispatcher_next(later_alive, DispatcherEvent::DispatchFailed) == DispatcherAction::Exit,
{
}

/// After the configures of a surface are dropped, none for it is left.
pub proof fn law_without_surface_has_none(q: Seq<PendingConfigure>, id: usize)
    ensures
        forall|i: int| 0 <= i < without_surface(q, id).len() ==> (#[trigger] without_surface(q, id)[i]).surface_id != id,
        without_surface(q, id).len() <= q.len(),
    decreases q.len(),
{
    if q.len() > 0 {
        law_without_surface_has_none(q.drop_last(), id);
    }
}

/// The configures of `q` for the surface `id`, in order.
pub open spec fn only_surface(q: Seq<PendingConfigure>, id: usize) -> Seq<PendingConfigure>
    decreases q.len(),
{
    if q.len() == 0 {
        seq![]
    } else {
        let rest = only_surface(q.drop_last(), id);
        if q.last().surface_id == id {
            rest.push(q.last())
        } else {
            rest
        }
    }
}

/// Taking the configures of one surface leaves those of every other surface
/// queued as they were, in the same order.
pub proof fn law_take_keeps_other_surfaces(q: Seq<PendingConfigure>, id: usize, other: usize)
    requires
        other != id,
    ensures
        only_surface(without_surface(q, id), other) == only_surface(q, other),
    decreases q.len(),
{
    if q.len() > 0 {
        law_take_keeps_other_surfaces(q.drop_last(), id, other);
        let rest = without_surface(q.drop_last(), id);
        if q.last().surface_id != id {
            assert(without_surface(q, id).drop_last() =~= rest);
        }
    }
}

/// A configure is pending for a surface exactly when there is a newest one
/// to take.
pub proof fn law_pending_iff_latest(q: Seq<PendingConfigure>, id: usize)
    ensures
        (exists|i: int| 0 <= i < q.len() && (#[trigger] q[i]).surface_id == id) <==> latest_for_surface(q, id) is Some,
{
    if exists|i: int| 0 <= i < q.len() && (#[trigger] q[i]).surface_id == id {
        let i = choose|i: int| 0 <= i < q.len() && (#[trigger] q[i]).surface_id == id;
        lemma_last_exists(q, id, i);
    } else {
        lemma_last_index_none(q, for_surface(id));
    }
}

/// Where some configure for `id` is queued, a newest one exists.
proof fn lemma_last_exists(q: Seq<PendingConfigure>, id: usize, i: int)
    requires
        0 <= i < q.len(),
        q[i].surface_id == id,
    ensures
        last_index(q, for_surface(id)) is Some,
    decreases q.len() - i,
{
    if forall|j: int| i < j < q.len() ==> !(#[trigger] for_surface(id)(q[j])) {
        assert(is_last(q, for_surface(id), i));
    } else {
        let j = choose|j: int| i < j < q.len() && #[trigger] for_surface(id)(q[j]);
        lemma_last_exists(q, id, j);
    }
}

/// Once the configures of a surface are taken, taking again finds none.
pub proof fn law_take_twice_finds_none(q: Seq<PendingConfigure>, id: usize)
    ensures
        latest_for_surface(without_surface(q, id), id) is None,
{
    law_without_surface_has_none(q, id);
    lemma_last_index_none(without_surface(q, id), for_surface(id));
}

/// The configure queued last for a surface is the one it takes, and the
/// older ones for it are dropped with it.
pub proof fn law_take_after_push(q: Seq<PendingConfigure>, c: PendingConfigure)
    ensures
        latest_for_surface(q.push(c), c.surface_id) == Some(c),
        without_surface(q.push(c), c.surface_id) == without_surface(q, c.surface_id),
{
    let q2 = q.push(c);
    assert(q2.drop_last() =~= q);
    assert(is_last(q2, for_surface(c.surface_id), q.len() as int));
    lemma_last_index_found(q2, for_surface(c.surface_id), q.len() as int);
}

/// Combining anchors with `|` is commutative and associative; an anchor
/// combined with itself, or with an anchor of no edge, keeps its edges.
pub proof fn law_anchor_combination(a: Anchor, b: Anchor, c: Anchor, no_edge: Anchor)
    requires
        no_edge@ == 0,
    ensures
        a.bitor_spec(b)@ == b.bitor_spec(a)@,
        a.bitor_spec(b).bitor_spec(c)@ == a.bitor_spec(b.bitor_spec(c))@,
        a.bitor_spec(a)@ == a@,
        a.bitor_spec(no_edge)@ == a@,
{
    let (x, y, z) = (a@, b@, c@);
    assert(x | y == y | x) by (bit_vector);
    assert((x | y) | z == x | (y | z)) by (bit_vector);
    assert(x | x == x) by (bit_vector);
    assert(x | 0 == x) by (bit_vector);
}

/// The newest configure taken for a surface is one of that surface, and a
/// configure queued for another surface changes neither what this surface
/// takes nor whether it has one pending.
pub proof fn law_configures_reach_only_their_surface(q: Seq<PendingConfigure>, c: PendingConfigure, id: usize)
    requires
        c.surface_id != id,
    ensures
        latest_for_surface(q, id) matches Some(x) ==> x.surface_id == id,
        latest_for_surface(q.push(c), id) == latest_for_surface(q, id),
        (exists|i: int| 0 <= i < q.push(c).len() && (#[trigger] q.push(c)[i]).surface_id == id) <==> (exists|i: int|
            0 <= i < q.len() && (#[trigger] q[i]).surface_id == id),
{
    let pred = for_surface(id);
    let t = q.push(c);
    match last_index(q, pred) {
        Some(i) => {
            assert(is_last(q, pred, i));
            assert(is_last(t, pred, i)) by {
                assert forall|j: int| i < j < t.len() implies !(#[trigger] pred(t[j])) by {
                    if j < q.len() {
                        assert(t[j] == q[j]);
                    }
                }
            }
            lemma_last_index_found(t, pred, i);
        },
        None => {
            law_pending_iff_latest(q, id);
            assert forall|j: int| 0 <= j < t.len() implies !(#[trigger] pred(t[j])) by {
                if j < q.len() {
                    assert(t[j] == q[j]);
                    if pred(q[j]) {
                        assert(q[j].surface_id == id);
                    }
                }
            }
            lemma_last_index_none(t, pred);
        },
    }
    if exists|i: int| 0 <= i < t.len() && (#[trigger] t[i]).surface_id == id {
        let i = choose|i: int| 0 <= i < t.len() && (#[trigger] t[i]).surface_id == id;
        assert(q[i] == t[i]);
    }
    if exists|i: int| 0 <= i < q.len() && (#[trigger] q[i]).surface_id == id {
        let i = choose|i: int| 0 <= i < q.len() && (#[trigger] q[i]).surface_id == id;
        assert(t[i] == q[i]);
    }
}

/// Ids handed out one after another by the same counter are all different:
/// the `i`-th of them is the first plus `i`.
pub proof fn law_surface_ids_distinct(counters: Seq<SurfaceIds>, ids: Seq<usize>)
    requires
        counters.len() == ids.len() + 1,
        forall|i: int| 0 <= i < ids.len() ==> (#[trigger] ids[i]) == counters[i].next(),
        forall|i: int| 0 <= i < ids.len() ==> (#[trigger] counters[i + 1]).next() == counters[i].next() + 1,
    ensures
        forall|i: int| 0 <= i < ids.len() ==> (#[trigger] ids[i]) == counters[0].next() + i,
        forall|i: int, j: int| 0 <= i < j < ids.len() ==> (#[trigger] ids[i]) < (#[trigger] ids[j]),
{
    lemma_counter_offsets(counters, ids.len() as int);
    assert forall|i: int| 0 <= i < ids.len() implies (#[trigger] ids[i]) == counters[0].next() + i by {
        assert(counters[i].next() == counters[0].next() + i);
    }
}

/// Each counter is the first plus its position.
proof fn lemma_counter_offsets(counters: Seq<SurfaceIds>, n: int)
    requires
        0 <= n < counters.len(),
        forall|i: int| 0 <= i < counters.len() - 1 ==> (#[trigger] counters[i + 1]).next() == counters[i].next() + 1,
    ensures
        forall|i: int| 0 <= i <= n ==> (#[trigger] counters[i]).next() == counters[0].next() + i,
    decreases n,
{
    if n > 0 {
        lemma_counter_offsets(counters, n - 1);
        assert(counters[(n - 1) + 1].next() == counters[n - 1].next() + 1);
    }
}

/// The size a surface reports after takes whose results are `taken`,
/// starting from `size`: the size of the newest configure taken, if any.
pub open spec fn size_after_takes(size: (u32, u32), taken: Seq<Option<PendingConfigure>>) -> (u32, u32)
    decreases taken.len(),
{
    if taken.len() == 0 {
        size
    } else {
        match taken.last() {
            Some(c) => (c.width, c.height),
            None => size_after_takes(size, taken.drop_last()),
        }
    }
}

/// How one `take_pending_configure` relates the surface before and after,
/// given what it returned.
pub open spec fn take_step(before: SurfaceState, after: SurfaceState, r: Option<PendingConfigure>) -> bool {
    &&& after.spec_id() == before.spec_id()
    &&& match r {
        Some(c) => after.spec_size() == (c.width, c.height),
        None => after.spec_size() == before.spec_size(),
    }
}

/// After any sequence of takes, a surface reports the size of the newest
/// configure it took, or the size it was created with when it took none.
pub proof fn law_current_size_after_takes(states: Seq<SurfaceState>, taken: Seq<Option<PendingConfigure>>)
    requires
        states.len() == taken.len() + 1,
        forall|i: int| 0 <= i < taken.len() ==> take_step(states[i], #[trigger] states[i + 1], taken[i]),
    ensures
        states.last().spec_size() == size_after_takes(states[0].spec_size(), taken),
        states.last().spec_id() == states[0].spec_id(),
    decreases taken.len(),
{
    if taken.len() > 0 {
        let s0 = states.drop_last();
        let t0 = taken.drop_last();
        assert forall|i: int| 0 <= i < t0.len() implies take_step(s0[i], #[trigger] s0[i + 1], t0[i]) by {
            assert(take_step(states[i], states[i + 1], taken[i]));
        }
        law_current_size_after_takes(s0, t0);
        let n = taken.len() - 1;
        assert(take_step(states[n], states[n + 1], taken[n]));
        assert(s0.last() == states[n]);
    }
}

} // verus!
