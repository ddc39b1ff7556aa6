//! The sweep of the rings: which sockets the hand of a ring passes in a
//! tick, when a cycle is over, and the handling of all that follows from
//! it within the same tick.

use crate::cycle::{
    event_valid, lemma_triggered_wf, on_socket_triggered, same_shape, triggered,
    triggered_cascade, triggered_firing, Firing, FiringView, SocketTriggered, TriggerOutcome,
};
use crate::color::SocketColor;
use crate::game::{Game, GameView};
use crate::ring::{Ring, RingView, MAX_TIME_MICROS};
use crate::settle::{
    completion_valid, lemma_settled_wf, on_cycle_complete, settled, settlement_of, CycleComplete,
    CycleSettlement, CycleSettlementView,
};
use vstd::prelude::*;

verus! {

/// Something that happens to a ring in a tick.
#[derive(PartialEq, Eq, Clone, Copy, Debug, Structural)]
pub enum RingEvent {
    CycleComplete(CycleComplete),
    SocketTriggered(SocketTriggered),
}

/// How far into its cycle a ring is at `now`.
pub open spec fn elapsed_micros(ring: RingView, now: int) -> int {
    now - ring.cycle_start_micros
}

/// Whether the cycle of a ring has run out at `now`.
pub open spec fn cycle_over(ring: RingView, now: int) -> bool {
    elapsed_micros(ring, now) > ring.cycle_duration_micros
}

/// Whether the hand of a ring passes socket `socket` in the tick that ends
/// at `now`. Socket `i` of `n` sits at the fraction `(n - i) / n` of the
/// sweep. The hand passes it when that fraction lies between the progress
/// at the last tick and the progress now, both included. Socket zero sits
/// at the very end of the sweep and is passed when the progress falls
/// back, that is, when a new cycle has begun.
pub open spec fn crossed(ring: RingView, socket: int, now: int) -> bool {
    let count = ring.sockets.len() as int;
    let mark = (count - socket) * ring.cycle_duration_micros;
    if socket == 0 {
        ring.previous_elapsed_micros > elapsed_micros(ring, now)
    } else {
        ring.previous_elapsed_micros * count <= mark && mark <= elapsed_micros(ring, now) * count
    }
}

/// The requests for the sockets below `upto` that the hand of a ring
/// passes, in index order.
pub open spec fn crossings(ring: RingView, now: int, upto: int) -> Seq<RingEvent>
    decreases upto,
{
    if upto <= 0 {
        Seq::empty()
    } else {
        let before = crossings(ring, now, upto - 1);
        if crossed(ring, upto - 1, now) {
            before.push(
                RingEvent::SocketTriggered(
                    SocketTriggered { socket: (upto - 1) as usize, ring: ring.index as usize },
                ),
            )
        } else {
            before
        }
    }
}

/// The end of the cycle of a ring, if it has run out. The next cycle
/// starts where this one should have ended, so that no time is lost.
pub open spec fn completion(ring: RingView, now: int) -> Seq<RingEvent> {
    if cycle_over(ring, now) {
        seq![
            RingEvent::CycleComplete(
                CycleComplete {
                    ring: ring.index as usize,
                    new_cycle_start_micros: (ring.cycle_start_micros
                        + ring.cycle_duration_micros) as i64,
                },
            ),
        ]
    } else {
        Seq::empty()
    }
}

/// What happens to a ring in the tick that ends at `now`: first the end
/// of its cycle, then the sockets that its hand passes.
pub open spec fn ring_events(ring: RingView, now: int) -> Seq<RingEvent> {
    completion(ring, now) + crossings(ring, now, ring.sockets.len() as int)
}

/// A ring that remembers how far into its cycle it was at `now`.
pub open spec fn progressed_ring(ring: RingView, now: int) -> RingView {
    RingView { previous_elapsed_micros: elapsed_micros(ring, now), ..ring }
}

/// What happens to the rings below `upto` in the tick that ends at `now`,
/// ring by ring.
pub open spec fn progress_events(rings: Seq<RingView>, now: int, upto: int) -> Seq<RingEvent>
    decreases upto,
{
    if upto <= 0 {
        Seq::empty()
    } else {
        progress_events(rings, now, upto - 1) + ring_events(rings[upto - 1], now)
    }
}

/// The game after all its rings were advanced to `now`.
pub open spec fn progressed(game: GameView, now: int) -> GameView {
    GameView {
        rings: Seq::new(game.rings.len(), |i: int| progressed_ring(game.rings[i], now)),
        ..game
    }
}

/// Whether an event names a ring, and a socket or a start of the next
/// cycle, that exist.
pub open spec fn ring_event_valid(rings: Seq<RingView>, event: RingEvent) -> bool {
    match event {
        RingEvent::CycleComplete(complete) => completion_valid(rings, complete),
        RingEvent::SocketTriggered(trigger) => event_valid(rings, trigger),
    }
}

/// Whether every event of a list is valid.
pub open spec fn ring_events_valid(rings: Seq<RingView>, events: Seq<RingEvent>) -> bool {
    forall|i: int| 0 <= i < events.len() ==> ring_event_valid(rings, #[trigger] events[i])
}

/// The events of a well-formed ring are valid for any list of rings that
/// has that ring.
proof fn lemma_ring_events_valid(rings: Seq<RingView>, ring: int, now: int, upto: int)
    requires
        0 <= ring < rings.len(),
        rings[ring].wf(),
        rings[ring].index == ring,
        0 <= now <= MAX_TIME_MICROS,
        0 <= upto <= rings[ring].sockets.len(),
        rings.len() <= usize::MAX,
        rings[ring].sockets.len() <= usize::MAX,
    ensures
        ring_events_valid(rings, crossings(rings[ring], now, upto)),
        ring_events_valid(rings, completion(rings[ring], now)),
    decreases upto,
{
    if upto > 0 {
        lemma_ring_events_valid(rings, ring, now, upto - 1);
        let before = crossings(rings[ring], now, upto - 1);
        let all = crossings(rings[ring], now, upto);
        assert forall|i: int| 0 <= i < all.len() implies ring_event_valid(
            rings,
            #[trigger] all[i],
        ) by {
            if i < before.len() {
                assert(all[i] == before[i]);
            }
        }
    }
}

/// Advances one ring to `now` and appends what happens to it.
fn progress_ring(ring: &mut Ring, now: i64, events: &mut Vec<RingEvent>)
    requires
        old(ring).wf(),
        0 <= now <= MAX_TIME_MICROS,
    ensures
        final(ring)@ == progressed_ring(old(ring)@, now as int),
        final(ring).wf(),
        final(events)@ == old(events)@ + ring_events(old(ring)@, now as int),
{
    let seconds_since_cycle_start = now - ring.cycle_start_micros;
    let cycle_time_remaining = ring.cycle_duration_micros - seconds_since_cycle_start;

    if cycle_time_remaining < 0 {
        let new_cycle_start_micros = now + cycle_time_remaining;
        events.push(
            RingEvent::CycleComplete(CycleComplete { ring: ring.index, new_cycle_start_micros }),
        );
    }
    assert(events@ =~= old(events)@ + completion(ring@, now as int));

    let count = ring.sockets.len();
    let wide_count = count as i128;
    let old_progress = ring.previous_elapsed_micros as i128;
    let progress = seconds_since_cycle_start as i128;
    let duration = ring.cycle_duration_micros as i128;
    proof {
        let limit = MAX_TIME_MICROS as int;
        let most = 0x1_0000_0000_0000_0000int;
        assert(-limit * most <= old_progress * wide_count <= limit * most) by (nonlinear_arith)
            requires
                -limit <= old_progress <= limit,
                0 <= wide_count <= most,
                limit >= 0,
        ;
        assert(-limit * most <= progress * wide_count <= limit * most) by (nonlinear_arith)
            requires
                -limit <= progress <= limit,
                0 <= wide_count <= most,
                limit >= 0,
        ;
    }
    let old_sweep = old_progress * wide_count;
    let sweep = progress * wide_count;

    let mut j: usize = 0;
    while j < count
        invariant
            j <= count,
            count == ring.sockets.len(),
            *ring == *old(ring),
            ring.wf(),
            wide_count == count,
            duration == ring.cycle_duration_micros,
            old_sweep == ring.previous_elapsed_micros * count,
            sweep == elapsed_micros(ring@, now as int) * count,
            progress == elapsed_micros(ring@, now as int),
            old_progress == ring.previous_elapsed_micros,
            events@ == old(events)@ + completion(ring@, now as int) + crossings(
                ring@,
                now as int,
                j as int,
            ),
        decreases count - j,
    {
        let socket_index = ring.sockets[j].index;
        assert(ring@.sockets[j as int].index == j);
        let steps_left = (count - socket_index) as i128;
        proof {
            let limit = MAX_TIME_MICROS as int;
            let most = 0x1_0000_0000_0000_0000int;
            assert(0 <= steps_left * duration <= most * limit) by (nonlinear_arith)
                requires
                    0 <= steps_left <= most,
                    0 <= duration <= limit,
            ;
        }
        let mark = steps_left * duration;
        let zeroth_socket_triggered = socket_index == 0 && old_progress > progress;
        let other_socket_triggered = socket_index != 0 && old_sweep <= mark && mark <= sweep;

        if zeroth_socket_triggered || other_socket_triggered {
            events.push(
                RingEvent::SocketTriggered(SocketTriggered { socket: socket_index, ring: ring.index }),
            );
        }
        j += 1;
    }

    ring.previous_elapsed_micros = seconds_since_cycle_start;
    proof {
        assert(events@ =~= old(events)@ + ring_events(old(ring)@, now as int));
        assert(ring@.previous_bonuses =~= old(ring)@.previous_bonuses);
    }
}

/// Advances every ring to `now` and tells what happens in this tick: for
/// each ring in turn, the end of its cycle if it has run out, then a
/// request for every socket that its hand passed since the last tick.
pub fn progress_cycle(game: &mut Game, now: i64) -> (events: Vec<RingEvent>)
    requires
        old(game).wf(),
        0 <= now <= MAX_TIME_MICROS,
    ensures
        final(game)@ == progressed(old(game)@, now as int),
        final(game).wf(),
        events@ == progress_events(old(game)@.rings, now as int, old(game)@.rings.len() as int),
        ring_events_valid(final(game)@.rings, events@),
{
    let mut events: Vec<RingEvent> = Vec::new();
    let ring_count = game.rings.len();
    let mut i: usize = 0;
    while i < ring_count
        invariant
            i <= ring_count,
            ring_count == game.rings.len(),
            ring_count == old(game).rings.len(),
            0 <= now <= MAX_TIME_MICROS,
            old(game).wf(),
            game.ring_index == old(game).ring_index,
            game.currency == old(game).currency,
            game.upgrade_history == old(game).upgrade_history,
            game.unlocks == old(game).unlocks,
            game.hotbar == old(game).hotbar,
            forall|k: int|
                0 <= k < i ==> (#[trigger] game.rings[k])@ == progressed_ring(
                    old(game).rings[k]@,
                    now as int,
                ),
            forall|k: int| i <= k < ring_count ==> game.rings[k] == old(game).rings[k],
            events@ == progress_events(old(game)@.rings, now as int, i as int),
            ring_events_valid(old(game)@.rings, events@),
        decreases ring_count - i,
    {
        let ghost before = events@;
        proof {
            assert(old(game)@.rings[i as int].wf());
            assert(old(game)@.rings[i as int].sockets.len() == old(game).rings[i as int].sockets.len());
            lemma_ring_events_valid(
                old(game)@.rings,
                i as int,
                now as int,
                old(game)@.rings[i as int].sockets.len() as int,
            );
        }
        progress_ring(&mut game.rings[i], now, &mut events);
        proof {
            let added = ring_events(old(game)@.rings[i as int], now as int);
            assert forall|k: int| 0 <= k < events@.len() implies ring_event_valid(
                old(game)@.rings,
                #[trigger] events@[k],
            ) by {
                if k < before.len() {
                    assert(events@[k] == before[k]);
                } else {
                    assert(events@[k] == added[k - before.len()]);
                }
            }
        }
        i += 1;
    }
    proof {
        let after = progressed(old(game)@, now as int);
        assert(game@.rings =~= after.rings);
        assert forall|k: int| 0 <= k < after.rings.len() implies (#[trigger] after.rings[k]).wf()
            && after.rings[k].index == k by {
            assert(old(game)@.rings[k].wf());
        }
        assert forall|k: int| 0 <= k < events@.len() implies ring_event_valid(
            game@.rings,
            #[trigger] events@[k],
        ) by {
            assert(ring_event_valid(old(game)@.rings, events@[k]));
        }
    }
    events
}

/// What the presentation is told about a tick, one item for each thing
/// that happened.
pub enum Feedback {
    /// A socket fired; the flag says whether the firing is to be heard.
    Fired(Firing, bool),
    /// The cycle of a ring was settled.
    Settled(CycleSettlement),
}

/// The mathematical content of a [`Feedback`].
pub enum FeedbackView {
    Fired(FiringView, bool),
    Settled(CycleSettlementView),
}

impl View for Feedback {
    type V = FeedbackView;

    open spec fn view(&self) -> FeedbackView {
        match self {
            Feedback::Fired(firing, play_click) => FeedbackView::Fired(firing@, *play_click),
            Feedback::Settled(settlement) => FeedbackView::Settled(settlement@),
        }
    }
}

/// The views of a list of feedback, in order.
pub open spec fn feedback_views(feedback: Seq<Feedback>) -> Seq<FeedbackView> {
    Seq::new(feedback.len(), |i: int| feedback[i]@)
}

/// Requests to fire sockets, as events.
pub open spec fn as_ring_events(triggers: Seq<SocketTriggered>) -> Seq<RingEvent> {
    Seq::new(triggers.len(), |i: int| RingEvent::SocketTriggered(triggers[i]))
}

/// The game after one event was handled at `now`.
pub open spec fn handled(game: GameView, event: RingEvent, now: int) -> GameView {
    match event {
        RingEvent::CycleComplete(complete) => settled(game, complete),
        RingEvent::SocketTriggered(trigger) => triggered(game, trigger, now),
    }
}

/// The events that the handling of one event sets off, in order.
pub open spec fn set_off(game: GameView, event: RingEvent, now: int) -> Seq<RingEvent> {
    match event {
        RingEvent::CycleComplete(complete) => Seq::empty(),
        RingEvent::SocketTriggered(trigger) => as_ring_events(
            triggered_cascade(game, trigger, now),
        ),
    }
}

/// What the handling of one event reports: a settling always, a request
/// to fire only if the socket fired. A firing is heard while there is
/// only one ring.
pub open spec fn reported(game: GameView, event: RingEvent, now: int) -> Seq<FeedbackView> {
    match event {
        RingEvent::CycleComplete(complete) => seq![
            FeedbackView::Settled(settlement_of(game.rings[complete.ring as int])),
        ],
        RingEvent::SocketTriggered(trigger) => match triggered_firing(game, trigger, now) {
            Some(firing) => seq![FeedbackView::Fired(firing, game.rings.len() == 1)],
            None => Seq::empty(),
        },
    }
}

/// The outcome of handling a list of events.
pub struct Resolution {
    pub game: GameView,
    pub feedback: Seq<FeedbackView>,
    /// Whether events were left unhandled because the budget ran out.
    pub cut_short: bool,
}

/// Handles the events of `worklist` at `now`, first to last. The events
/// that an event sets off are handled right after it, before the events
/// that were waiting behind it. Every handled event takes one from
/// `budget`; when the budget is used up, what is left of the worklist is
/// dropped and the outcome says so.
pub open spec fn resolved(game: GameView, worklist: Seq<RingEvent>, now: int, budget: nat) -> Resolution
    decreases budget,
{
    if worklist.len() == 0 {
        Resolution { game, feedback: Seq::empty(), cut_short: false }
    } else if budget == 0 {
        Resolution { game, feedback: Seq::empty(), cut_short: true }
    } else {
        let event = worklist[0];
        let rest = resolved(
            handled(game, event, now),
            set_off(game, event, now) + worklist.skip(1),
            now,
            (budget - 1) as nat,
        );
        Resolution { feedback: reported(game, event, now) + rest.feedback, ..rest }
    }
}

/// An outcome with more feedback in front of its own.
pub open spec fn after_feedback(feedback: Seq<FeedbackView>, rest: Resolution) -> Resolution {
    Resolution { feedback: feedback + rest.feedback, ..rest }
}

/// Handling an event keeps the game well formed, and the events that were
/// waiting, and those that it sets off, stay valid.
pub proof fn lemma_handled_wf(
    game: GameView,
    event: RingEvent,
    now: int,
    waiting: Seq<RingEvent>,
)
    requires
        game.wf(),
        ring_event_valid(game.rings, event),
        ring_events_valid(game.rings, waiting),
        0 <= now <= MAX_TIME_MICROS,
    ensures
        handled(game, event, now).wf(),
        ring_events_valid(handled(game, event, now).rings, waiting),
        ring_events_valid(handled(game, event, now).rings, set_off(game, event, now)),
{
    let after = handled(game, event, now);
    match event {
        RingEvent::CycleComplete(complete) => {
            lemma_settled_wf(game, complete);
        },
        RingEvent::SocketTriggered(trigger) => {
            lemma_triggered_wf(game, trigger, now);
            let cascade = triggered_cascade(game, trigger, now);
            let following = set_off(game, event, now);
            assert forall|i: int| 0 <= i < following.len() implies ring_event_valid(
                after.rings,
                #[trigger] following[i],
            ) by {
                assert(event_valid(after.rings, cascade[i]));
            }
        },
    }
    assert(same_shape(game.rings, after.rings));
    assert forall|i: int| 0 <= i < waiting.len() implies ring_event_valid(
        after.rings,
        #[trigger] waiting[i],
    ) by {
        assert(ring_event_valid(game.rings, waiting[i]));
    }
}

/// Whether no socket of any ring holds a red orb.
pub open spec fn without_red(rings: Seq<RingView>) -> bool {
    forall|i: int, j: int|
        0 <= i < rings.len() && 0 <= j < rings[i].sockets.len() ==> (
        #[trigger] rings[i].sockets[j]).color != SocketColor::RED
}

/// Handling an event changes the colour of no socket.
pub proof fn lemma_handled_keeps_colors(game: GameView, event: RingEvent, now: int)
    requires
        game.wf(),
        ring_event_valid(game.rings, event),
        0 <= now <= MAX_TIME_MICROS,
    ensures
        same_shape(game.rings, handled(game, event, now).rings),
        forall|i: int, j: int|
            0 <= i < game.rings.len() && 0 <= j < game.rings[i].sockets.len() ==> (
            #[trigger] handled(game, event, now).rings[i].sockets[j]).color
                == game.rings[i].sockets[j].color,
{
    match event {
        RingEvent::CycleComplete(complete) => {
            lemma_settled_wf(game, complete);
        },
        RingEvent::SocketTriggered(trigger) => {
            lemma_triggered_wf(game, trigger, now);
        },
    }
}

/// Only red orbs set anything off. While no socket holds one, a budget of
/// as many events as the worklist holds handles them all: nothing is cut
/// short.
pub proof fn lemma_budget_suffices_without_red(
    game: GameView,
    worklist: Seq<RingEvent>,
    now: int,
    budget: nat,
)
    requires
        game.wf(),
        ring_events_valid(game.rings, worklist),
        0 <= now <= MAX_TIME_MICROS,
        without_red(game.rings),
        budget >= worklist.len(),
    ensures
        !resolved(game, worklist, now, budget).cut_short,
    decreases worklist.len(),
{
    if worklist.len() > 0 {
        let event = worklist[0];
        let rest = worklist.skip(1);
        let after = handled(game, event, now);
        assert(ring_event_valid(game.rings, event));
        assert forall|i: int| 0 <= i < rest.len() implies ring_event_valid(
            game.rings,
            #[trigger] rest[i],
        ) by {
            assert(rest[i] == worklist[i + 1]);
        }
        lemma_handled_wf(game, event, now, rest);
        lemma_handled_keeps_colors(game, event, now);
        assert(set_off(game, event, now) =~= Seq::<RingEvent>::empty()) by {
            match event {
                RingEvent::CycleComplete(complete) => {},
                RingEvent::SocketTriggered(trigger) => {
                    assert(game.rings[trigger.ring as int].sockets[trigger.socket as int].color
                        != SocketColor::RED);
                },
            }
        }
        assert(set_off(game, event, now) + rest =~= rest);
        assert forall|i: int, j: int|
            0 <= i < after.rings.len() && 0 <= j < after.rings[i].sockets.len() implies (
        #[trigger] after.rings[i].sockets[j]).color != SocketColor::RED by {
            assert(game.rings[i].sockets[j].color != SocketColor::RED);
        }
        lemma_budget_suffices_without_red(after, rest, now, (budget - 1) as nat);
    }
}

/// The events of a list, last to first.
fn reversed_events(events: &Vec<RingEvent>) -> (stack: Vec<RingEvent>)
    ensures
        stack@ == events@.reverse(),
{
    let mut stack: Vec<RingEvent> = Vec::new();
    let mut i: usize = events.len();
    while i > 0
        invariant
            i <= events.len(),
            stack.len() == events.len() - i,
            forall|k: int| 0 <= k < stack.len() ==> stack[k] == events[events.len() - 1 - k],
        decreases i,
    {
        i -= 1;
        stack.push(events[i]);
    }
    assert(stack@ =~= events@.reverse());
    stack
}

/// Puts requests to fire sockets on a stack, the first request on top.
fn push_reversed(stack: &mut Vec<RingEvent>, triggers: &Vec<SocketTriggered>)
    ensures
        final(stack)@ == old(stack)@ + as_ring_events(triggers@).reverse(),
{
    let mut i: usize = triggers.len();
    while i > 0
        invariant
            i <= triggers.len(),
            stack.len() == old(stack).len() + triggers.len() - i,
            forall|k: int| 0 <= k < old(stack).len() ==> stack[k] == old(stack)[k],
            forall|k: int|
                old(stack).len() <= k < stack.len() ==> stack[k] == RingEvent::SocketTriggered(
                    triggers[triggers.len() - 1 - (k - old(stack).len())],
                ),
        decreases i,
    {
        i -= 1;
        stack.push(RingEvent::SocketTriggered(triggers[i]));
    }
    assert(stack@ =~= old(stack)@ + as_ring_events(triggers@).reverse());
}

/// What a tick did.
pub struct TickReport {
    /// What happened, in the order in which it happened.
    pub feedback: Vec<Feedback>,
    /// Whether events were left unhandled because the budget ran out.
    pub cut_short: bool,
}

/// Handles a list of events at `now`, and everything that they set off,
/// to the end within this call. The events that an event sets off are
/// handled right after it. At most `budget` events are handled, so that a
/// chain of sockets that keep firing each other comes to an end; the
/// report says whether that cut anything short.
pub fn resolve_events(game: &mut Game, events: Vec<RingEvent>, now: i64, budget: usize) -> (report:
    TickReport)
    requires
        old(game).wf(),
        ring_events_valid(old(game)@.rings, events@),
        0 <= now <= MAX_TIME_MICROS,
    ensures
        final(game).wf(),
        final(game)@ == resolved(old(game)@, events@, now as int, budget as nat).game,
        feedback_views(report.feedback@) == resolved(
            old(game)@,
            events@,
            now as int,
            budget as nat,
        ).feedback,
        report.cut_short == resolved(old(game)@, events@, now as int, budget as nat).cut_short,
{
    let mut stack = reversed_events(&events);
    let mut feedback: Vec<Feedback> = Vec::new();
    let mut remaining: usize = budget;
    proof {
        assert(stack@.reverse() =~= events@);
        assert(feedback_views(feedback@) =~= Seq::<FeedbackView>::empty());
        let whole = resolved(old(game)@, events@, now as int, budget as nat);
        assert(after_feedback(feedback_views(feedback@), whole).feedback =~= whole.feedback);
        assert forall|i: int| 0 <= i < stack@.len() implies ring_event_valid(
            game@.rings,
            #[trigger] stack@[i],
        ) by {
            assert(stack@[i] == events@[events@.len() - 1 - i]);
        }
    }
    while stack.len() > 0 && remaining > 0
        invariant
            game.wf(),
            ring_events_valid(game@.rings, stack@),
            0 <= now <= MAX_TIME_MICROS,
            resolved(old(game)@, events@, now as int, budget as nat) == after_feedback(
                feedback_views(feedback@),
                resolved(game@, stack@.reverse(), now as int, remaining as nat),
            ),
        decreases remaining,
    {
        let ghost before = game@;
        let ghost worklist = stack@.reverse();
        let ghost log = feedback_views(feedback@);
        let event = stack.pop().unwrap();
        let ghost waiting = stack@;
        proof {
            assert(worklist[0] == event);
            assert(worklist.skip(1) =~= waiting.reverse());
            assert(ring_event_valid(before.rings, event));
            assert(ring_events_valid(before.rings, waiting));
            lemma_handled_wf(before, event, now as int, waiting);
        }
        match event {
            RingEvent::CycleComplete(complete) => {
                let settlement = on_cycle_complete(game, complete);
                feedback.push(Feedback::Settled(settlement));
                proof {
                    assert(feedback_views(feedback@) =~= log + reported(before, event, now as int));
                    assert((set_off(before, event, now as int) + waiting.reverse())
                        =~= stack@.reverse());
                }
            },
            RingEvent::SocketTriggered(trigger) => {
                let outcome = on_socket_triggered(game, trigger, now);
                let TriggerOutcome { firing, cascade, play_click } = outcome;
                match firing {
                    Some(firing) => {
                        feedback.push(Feedback::Fired(firing, play_click));
                    },
                    None => {},
                }
                push_reversed(&mut stack, &cascade);
                proof {
                    assert(feedback_views(feedback@) =~= log + reported(before, event, now as int));
                    let following = set_off(before, event, now as int);
                    assert(stack@.reverse() =~= following + waiting.reverse());
                    assert forall|i: int| 0 <= i < stack@.len() implies ring_event_valid(
                        game@.rings,
                        #[trigger] stack@[i],
                    ) by {
                        if i < waiting.len() {
                            assert(stack@[i] == waiting[i]);
                        } else {
                            assert(stack@[i] == following[following.len() - 1 - (i
                                - waiting.len())]);
                        }
                    }
                }
            },
        }
        remaining -= 1;
        proof {
            let rest = resolved(game@, stack@.reverse(), now as int, remaining as nat);
            let step = resolved(before, worklist, now as int, (remaining + 1) as nat);
            assert(step == after_feedback(reported(before, event, now as int), rest));
            assert(after_feedback(log, step).feedback =~= after_feedback(
                feedback_views(feedback@),
                rest,
            ).feedback);
        }
    }
    let cut_short = stack.len() > 0;
    proof {
        let rest = resolved(game@, stack@.reverse(), now as int, remaining as nat);
        assert(stack@.reverse().len() == stack@.len());
        assert(rest.feedback =~= Seq::<FeedbackView>::empty());
        assert(feedback_views(feedback@) + rest.feedback =~= feedback_views(feedback@));
    }
    TickReport { feedback, cut_short }
}

/// The outcome of one tick: the rings are advanced to `now`, and what
/// happens to them is handled in order.
pub open spec fn ticked(game: GameView, now: int, budget: nat) -> Resolution {
    resolved(
        progressed(game, now),
        progress_events(game.rings, now, game.rings.len() as int),
        now,
        budget,
    )
}

/// Runs one tick of the simulation at `now`: advances every ring, fires
/// the sockets that the hands passed, settles the cycles that ran out,
/// and handles everything that this sets off, up to `budget` events.
pub fn tick(game: &mut Game, now: i64, budget: usize) -> (report: TickReport)
    requires
        old(game).wf(),
        0 <= now <= MAX_TIME_MICROS,
    ensures
        final(game).wf(),
        final(game)@ == ticked(old(game)@, now as int, budget as nat).game,
        feedback_views(report.feedback@) == ticked(old(game)@, now as int, budget as nat).feedback,
        report.cut_short == ticked(old(game)@, now as int, budget as nat).cut_short,
{
    let events = progress_cycle(game, now);
    resolve_events(game, events, now, budget)
}

} // verus!
