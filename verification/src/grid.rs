//! The square spiral on which the rings are laid out, and the index that
//! finds the ring at a grid cell.

use crate::ring::{fresh_ring, ring_views, rings_wf, Ring, RingView, MAX_TIME_MICROS};
use bevy::utils::hashbrown::HashMap;
use vstd::prelude::*;

verus! {

/// A cell of the grid of rings.
#[derive(PartialEq, Eq, Hash, Clone, Copy, Debug, Structural)]
pub struct GridCoordinates {
    pub x: i64,
    pub y: i64,
}

/// The spiral is a chain of straight legs of 1, 1, 2, 2, 3, 3, ... steps.
pub open spec fn leg_length(leg: nat) -> nat {
    leg / 2 + 1
}

/// The ordinal of the cell at which a leg starts.
pub open spec fn leg_start(leg: nat) -> nat
    decreases leg,
{
    if leg == 0 {
        0
    } else {
        leg_start((leg - 1) as nat) + leg_length((leg - 1) as nat)
    }
}

/// The step that a leg moves by: the legs turn through the four
/// directions (1, 0), (0, -1), (-1, 0), (0, 1), in that order.
pub open spec fn leg_heading(leg: nat) -> (int, int) {
    if leg % 4 == 0 {
        (1, 0)
    } else if leg % 4 == 1 {
        (0, -1)
    } else if leg % 4 == 2 {
        (-1, 0)
    } else {
        (0, 1)
    }
}

/// The leg on which the cell of an ordinal lies, as the leg that the
/// spiral leaves that cell by.
pub open spec fn spiral_leg(ordinal: nat) -> nat
    decreases ordinal,
{
    if ordinal == 0 {
        0
    } else {
        let before = spiral_leg((ordinal - 1) as nat);
        if ordinal >= leg_start(before + 1) {
            before + 1
        } else {
            before
        }
    }
}

/// The cell of an ordinal: the spiral starts at the origin, and each step
/// follows the heading of the leg that it belongs to.
pub open spec fn grid_cell(ordinal: nat) -> (int, int)
    decreases ordinal,
{
    if ordinal == 0 {
        (0, 0)
    } else {
        let before = grid_cell((ordinal - 1) as nat);
        let heading = leg_heading(spiral_leg((ordinal - 1) as nat));
        (before.0 + heading.0, before.1 + heading.1)
    }
}

/// Where a leg of the spiral stands after some of its steps, told from
/// its heading and length alone.
spec fn on_leg(leg: nat, steps: int, x: int, y: int) -> bool {
    let length = leg_length(leg) as int;
    if leg % 4 == 0 {
        2 * x == 2 * steps - (length - 1) && 2 * y == length - 1
    } else if leg % 4 == 1 {
        2 * x == length + 1 && 2 * y == (length - 1) - 2 * steps
    } else if leg % 4 == 2 {
        2 * x == length - 2 * steps && 2 * y == -length
    } else {
        2 * x == -length && 2 * y == 2 * steps - length
    }
}

/// The farthest that the spiral gets from the origin along either axis
/// within the ordinals that the machine can count.
pub const GRID_LIMIT: i64 = 0x4000_0000_0000_0000;

/// The grid cell of the ring with the given ordinal.
pub fn get_grid_coordinates(index: usize) -> (coordinates: GridCoordinates)
    ensures
        (coordinates.x as int, coordinates.y as int) == grid_cell(index as nat),
        -GRID_LIMIT <= coordinates.x <= GRID_LIMIT,
        -GRID_LIMIT <= coordinates.y <= GRID_LIMIT,
{
    let mut x: i64 = 0;
    let mut y: i64 = 0;
    let mut dx: i64 = 1;
    let mut dy: i64 = 0;
    let mut steps_in_current_layer: usize = 1;
    let mut current_steps: usize = 0;
    let mut turn_count: u8 = 0;
    let mut current_index: usize = 0;
    let ghost mut leg: nat = 0;

    while current_index < index
        invariant
            current_index <= index,
            leg == spiral_leg(current_index as nat),
            current_index - current_steps == leg_start(leg),
            steps_in_current_layer == leg_length(leg),
            current_steps < steps_in_current_layer,
            turn_count == leg % 2,
            (dx as int, dy as int) == leg_heading(leg),
            (x as int, y as int) == grid_cell(current_index as nat),
            on_leg(leg, current_steps as int, x as int, y as int),
            current_index - current_steps + 2 >= 2 * leg,
        decreases index - current_index,
    {
        proof {
            assert(leg_start(leg + 1) == leg_start(leg) + leg_length(leg));
        }
        x += dx;
        y += dy;
        current_steps += 1;
        current_index += 1;

        if current_steps == steps_in_current_layer {
            // Turn: right, then up, then left, then down.
            if dx == 1 && dy == 0 {
                dx = 0;
                dy = -1;
            } else if dx == 0 && dy == -1 {
                dx = -1;
                dy = 0;
            } else if dx == -1 && dy == 0 {
                dx = 0;
                dy = 1;
            } else if dx == 0 && dy == 1 {
                dx = 1;
                dy = 0;
            }
            turn_count += 1;
            current_steps = 0;
            proof {
                leg = leg + 1;
            }
            // Every second turn the legs grow by one step.
            if turn_count == 2 {
                turn_count = 0;
                steps_in_current_layer += 1;
            }
        }
    }

    GridCoordinates { x, y }
}

/// The leg of an ordinal holds the ordinal, and the cell of the ordinal
/// lies on that leg at as many steps as the ordinal is past its start.
proof fn lemma_cell_on_leg(ordinal: nat)
    ensures
        leg_start(spiral_leg(ordinal)) <= ordinal < leg_start(spiral_leg(ordinal) + 1),
        on_leg(
            spiral_leg(ordinal),
            ordinal - leg_start(spiral_leg(ordinal)),
            grid_cell(ordinal).0,
            grid_cell(ordinal).1,
        ),
    decreases ordinal,
{
    if ordinal == 0 {
        assert(leg_start(1) == leg_start(0) + leg_length(0));
    } else {
        let before = (ordinal - 1) as nat;
        lemma_cell_on_leg(before);
        let leg = spiral_leg(before);
        assert(leg_start(leg + 1) == leg_start(leg) + leg_length(leg));
        assert(leg_start(leg + 2) == leg_start(leg + 1) + leg_length(leg + 1));
    }
}

/// A cell lies on one leg only, and at one number of steps along it.
proof fn lemma_leg_of_cell(leg: nat, steps: int, other_leg: nat, other_steps: int, x: int, y: int)
    requires
        0 <= steps < leg_length(leg),
        0 <= other_steps < leg_length(other_leg),
        on_leg(leg, steps, x, y),
        on_leg(other_leg, other_steps, x, y),
    ensures
        leg == other_leg,
        steps == other_steps,
{
}

/// Every leg starts at least two ordinals after the leg before the one
/// before it, so that the legs are at most half as many as the ordinals.
proof fn lemma_leg_start_grows(leg: nat)
    ensures
        leg_start(leg) + 2 >= 2 * leg,
    decreases leg,
{
    if leg > 0 {
        lemma_leg_start_grows((leg - 1) as nat);
    }
}

/// The spiral stays within the grid limit for every ordinal that the
/// machine can count.
pub proof fn lemma_spiral_in_range(ordinal: nat)
    requires
        ordinal <= usize::MAX,
    ensures
        -GRID_LIMIT <= grid_cell(ordinal).0 <= GRID_LIMIT,
        -GRID_LIMIT <= grid_cell(ordinal).1 <= GRID_LIMIT,
{
    lemma_cell_on_leg(ordinal);
    lemma_leg_start_grows(spiral_leg(ordinal));
}

/// The spiral never comes back to a cell: two ordinals with the same cell
/// are the same ordinal.
pub proof fn lemma_spiral_visits_once(a: nat, b: nat)
    requires
        grid_cell(a) == grid_cell(b),
    ensures
        a == b,
{
    lemma_cell_on_leg(a);
    lemma_cell_on_leg(b);
    lemma_leg_of_cell(
        spiral_leg(a),
        a - leg_start(spiral_leg(a)),
        spiral_leg(b),
        b - leg_start(spiral_leg(b)),
        grid_cell(a).0,
        grid_cell(a).1,
    );
    assert(leg_start(spiral_leg(a) + 1) == leg_start(spiral_leg(a)) + leg_length(spiral_leg(a)));
    assert(leg_start(spiral_leg(b) + 1) == leg_start(spiral_leg(b)) + leg_length(spiral_leg(b)));
}

/// Two rings that the machine can count do not share a key of the index.
pub proof fn lemma_grid_key_visits_once(a: nat, b: nat)
    requires
        a <= usize::MAX,
        b <= usize::MAX,
        grid_key(a) == grid_key(b),
    ensures
        a == b,
{
    lemma_spiral_in_range(a);
    lemma_spiral_in_range(b);
    lemma_spiral_visits_once(a, b);
}

/// Finds the ring at a grid cell.
///
/// The cells are kept in a `hashbrown::HashMap`, a type that cannot be
/// declared to the verifier; what it holds is known as
/// [`ring_index_contents`], on the word of the four trusted functions
/// below.
#[verifier::external_body]
pub struct RingIndex {
    rings: HashMap<(i64, i64), usize>,
}

/// The cells that an index knows, each with the ordinal of its ring.
pub uninterp spec fn ring_index_contents(index: RingIndex) -> Map<(i64, i64), usize>;

/// The index that knows no cell.
pub open spec fn no_cells() -> Map<(i64, i64), usize> {
    Map::empty()
}

/// `HashMap::default`: trusted to make a map that holds nothing.
#[verifier::external_body]
pub(crate) fn ring_index_empty() -> (index: RingIndex)
    ensures
        ring_index_contents(index) == no_cells(),
{
    RingIndex { rings: HashMap::default() }
}

/// `HashMap::insert`: trusted to bind the key to the value, in place of
/// what the key was bound to before, and to leave every other key alone.
#[verifier::external_body]
pub(crate) fn ring_index_insert(index: &mut RingIndex, x: i64, y: i64, ring: usize)
    ensures
        ring_index_contents(*final(index)) == ring_index_contents(*old(index)).insert(
            (x, y),
            ring,
        ),
{
    index.rings.insert((x, y), ring);
}

/// `HashMap::get`: trusted to give the value that the key is bound to, and
/// nothing for a key that is not bound.
#[verifier::external_body]
pub(crate) fn ring_index_get(index: &RingIndex, x: i64, y: i64) -> (ring: Option<usize>)
    ensures
        ring == ring_at(ring_index_contents(*index), x, y),
{
    index.rings.get(&(x, y)).copied()
}

/// Whether a map of cells binds finitely many cells, `count` of them.
pub open spec fn binds_cells(cells: Map<(i64, i64), usize>, count: nat) -> bool {
    cells.dom().finite() && cells.dom().len() == count
}

/// `HashMap::len`: trusted to count the keys that are bound, of which
/// there are finitely many.
#[verifier::external_body]
pub(crate) fn ring_index_len(index: &RingIndex) -> (count: usize)
    ensures
        binds_cells(ring_index_contents(*index), count as nat),
{
    index.rings.len()
}

/// The ring that a map of cells has at a cell, if it has one there.
pub open spec fn ring_at(cells: Map<(i64, i64), usize>, x: i64, y: i64) -> Option<usize> {
    if cells.contains_key((x, y)) {
        Some(cells[(x, y)])
    } else {
        None
    }
}

/// The index knows the cells of the rings that exist and no others, each
/// with the ring that lies there.
pub open spec fn index_wf(cells: Map<(i64, i64), usize>, ring_count: nat) -> bool {
    &&& forall|cell: (i64, i64)|
        cells.contains_key(cell) ==> (#[trigger] cells[cell]) < ring_count && grid_key(
            cells[cell] as nat,
        ) == cell
    &&& forall|ring: nat|
        ring < ring_count ==> cells.contains_key(#[trigger] grid_key(ring)) && cells[grid_key(
            ring,
        )] == ring
}

impl View for RingIndex {
    type V = Map<(i64, i64), usize>;

    open spec fn view(&self) -> Map<(i64, i64), usize> {
        ring_index_contents(*self)
    }
}

impl RingIndex {
    /// An index that knows no ring.
    pub fn new() -> (index: RingIndex)
        ensures
            index@ == no_cells(),
    {
        ring_index_empty()
    }

    /// Enters a ring at a cell.
    pub fn register(&mut self, coordinates: GridCoordinates, ring: usize)
        ensures
            final(self)@ == old(self)@.insert((coordinates.x, coordinates.y), ring),
    {
        ring_index_insert(self, coordinates.x, coordinates.y, ring)
    }

    /// The ring at a cell, if there is one.
    pub fn lookup(&self, coordinates: GridCoordinates) -> (ring: Option<usize>)
        ensures
            ring == ring_at(self@, coordinates.x, coordinates.y),
    {
        ring_index_get(self, coordinates.x, coordinates.y)
    }
}

/// What the index finds at a cell is the ring whose cell it is, and it
/// finds nothing only where no ring lies.
pub proof fn lemma_lookup_finds_the_ring(
    cells: Map<(i64, i64), usize>,
    ring_count: nat,
    x: i64,
    y: i64,
)
    requires
        index_wf(cells, ring_count),
    ensures
        match ring_at(cells, x, y) {
            Some(ring) => ring < ring_count && grid_key(ring as nat) == (x, y),
            None => forall|ring: nat| ring < ring_count ==> #[trigger] grid_key(ring) != (x, y),
        },
{
    if cells.contains_key((x, y)) {
        assert(cells[(x, y)] < ring_count);
    }
}

/// The cells of the rings below a count.
pub open spec fn ring_cells(ring_count: nat) -> Set<(i64, i64)> {
    Set::new(|cell: (i64, i64)| exists|ring: nat| ring < ring_count && #[trigger] grid_key(ring) == cell)
}

/// The rings below a count lie at as many cells as they are.
pub proof fn lemma_ring_cells_count(ring_count: nat)
    requires
        ring_count <= usize::MAX,
    ensures
        ring_cells(ring_count).finite(),
        ring_cells(ring_count).len() == ring_count,
    decreases ring_count,
{
    if ring_count == 0 {
        assert(ring_cells(0) =~= Set::<(i64, i64)>::empty());
    } else {
        let before = (ring_count - 1) as nat;
        lemma_ring_cells_count(before);
        let newest = grid_key(before);
        assert(!ring_cells(before).contains(newest)) by {
            if ring_cells(before).contains(newest) {
                let ring = choose|ring: nat| ring < before && #[trigger] grid_key(ring) == newest;
                lemma_grid_key_visits_once(ring, before);
            }
        }
        assert(ring_cells(ring_count) =~= ring_cells(before).insert(newest)) by {
            assert forall|cell: (i64, i64)|
                ring_cells(before).insert(newest).contains(cell) implies ring_cells(
                ring_count,
            ).contains(cell) by {
                if cell == newest {
                    assert(grid_key(before) == cell);
                } else {
                    let ring = choose|ring: nat| ring < before && #[trigger] grid_key(ring) == cell;
                    assert(ring < ring_count && grid_key(ring) == cell);
                }
            }
        }
    }
}

/// A well-formed index knows exactly the cells of the rings.
pub proof fn lemma_index_cells(cells: Map<(i64, i64), usize>, ring_count: nat)
    requires
        index_wf(cells, ring_count),
    ensures
        cells.dom() =~= ring_cells(ring_count),
{
    assert forall|cell: (i64, i64)| cells.dom().contains(cell) implies ring_cells(
        ring_count,
    ).contains(cell) by {
        let ring = cells[cell] as nat;
        assert(ring < ring_count && grid_key(ring) == cell);
    }
}

impl RingIndex {
    /// Tells whether the index is well formed for a number of rings.
    pub fn check(&self, ring_count: usize) -> (ok: bool)
        ensures
            ok == index_wf(self@, ring_count as nat),
    {
        proof {
            lemma_ring_cells_count(ring_count as nat);
        }
        if ring_index_len(self) != ring_count {
            proof {
                if index_wf(self@, ring_count as nat) {
                    lemma_index_cells(self@, ring_count as nat);
                }
            }
            return false;
        }
        let mut i: usize = 0;
        while i < ring_count
            invariant
                i <= ring_count,
                forall|ring: nat|
                    ring < i ==> self@.contains_key(#[trigger] grid_key(ring)) && self@[grid_key(
                        ring,
                    )] == ring,
            decreases ring_count - i,
        {
            let coordinates = get_grid_coordinates(i);
            assert(grid_key(i as nat) == (coordinates.x, coordinates.y));
            match self.lookup(coordinates) {
                Some(ring) => {
                    if ring != i {
                        assert(!index_wf(self@, ring_count as nat)) by {
                            assert(self@[grid_key(i as nat)] != i);
                        }
                        return false;
                    }
                },
                None => {
                    assert(!index_wf(self@, ring_count as nat)) by {
                        assert(!self@.contains_key(grid_key(i as nat)));
                    }
                    return false;
                },
            }
            i += 1;
        }
        proof {
            let known = ring_cells(ring_count as nat);
            assert(known.subset_of(self@.dom())) by {
                assert forall|cell: (i64, i64)| known.contains(cell) implies self@.dom().contains(
                    cell,
                ) by {
                    let ring = choose|ring: nat|
                        ring < ring_count && #[trigger] grid_key(ring) == cell;
                    assert(self@.contains_key(grid_key(ring)));
                }
            }
            vstd::set_lib::lemma_subset_equality(known, self@.dom());
            assert forall|cell: (i64, i64)| self@.contains_key(cell) implies (
            #[trigger] self@[cell]) < ring_count && grid_key(self@[cell] as nat) == cell by {
                assert(known.contains(cell));
                let ring = choose|ring: nat| ring < ring_count && #[trigger] grid_key(ring) == cell;
                assert(self@[grid_key(ring)] == ring);
            }
        }
        true
    }
}

/// The cell of an ordinal as a key of the index.
pub open spec fn grid_key(ordinal: nat) -> (i64, i64) {
    (grid_cell(ordinal).0 as i64, grid_cell(ordinal).1 as i64)
}

/// Makes the next ring, with `num_sockets` sockets and its first cycle
/// starting at `now`, enters it in the index at the cell of its ordinal,
/// and returns that ordinal. `index` is the ordinal of the new ring: the
/// number of rings there were.
pub fn spawn_ring(
    rings: &mut Vec<Ring>,
    ring_index: &mut RingIndex,
    num_sockets: usize,
    now: i64,
    index: usize,
) -> (ring: usize)
    requires
        index == old(rings).len(),
        rings_wf(ring_views(old(rings)@)),
        index_wf(old(ring_index)@, old(rings).len() as nat),
        0 <= now <= MAX_TIME_MICROS,
    ensures
        ring == index,
        ring_views(final(rings)@) == ring_views(old(rings)@).push(
            fresh_ring(num_sockets, now as int, index),
        ),
        final(ring_index)@ == old(ring_index)@.insert(grid_key(index as nat), index),
        rings_wf(ring_views(final(rings)@)),
        index_wf(final(ring_index)@, final(rings).len() as nat),
{
    let coordinates = get_grid_coordinates(index);
    ring_index.register(coordinates, index);
    let ring = Ring::new(num_sockets, now, index);
    rings.push(ring);
    proof {
        assert(ring_views(rings@) =~= ring_views(old(rings)@).push(
            fresh_ring(num_sockets, now as int, index),
        ));
        lemma_views_push_wf(
            ring_views(old(rings)@),
            fresh_ring(num_sockets, now as int, index),
        );
        assert(grid_key(index as nat) == (coordinates.x, coordinates.y));
        assert forall|ring: nat| ring < rings.len() implies ring_index@.contains_key(
            #[trigger] grid_key(ring),
        ) && ring_index@[grid_key(ring)] == ring by {
            if ring < index {
                assert(old(ring_index)@.contains_key(grid_key(ring)));
                if grid_key(ring) == grid_key(index as nat) {
                    lemma_grid_key_visits_once(ring, index as nat);
                }
            }
        }
    }
    index
}

/// A well-formed list of rings stays so when a well-formed ring with the
/// next index is added.
pub proof fn lemma_views_push_wf(rings: Seq<RingView>, ring: RingView)
    requires
        rings_wf(rings),
        ring.wf(),
        ring.index == rings.len(),
    ensures
        rings_wf(rings.push(ring)),
{
    let grown = rings.push(ring);
    assert forall|i: int| 0 <= i < grown.len() implies (#[trigger] grown[i]).wf() && grown[i].index
        == i by {
        if i < rings.len() {
            assert(grown[i] == rings[i]);
        }
    }
}

} // verus!
