//! What the presentation shows: the totals of the scoreboard, the texts
//! that float up from the rings, and where the panels of a cycle go.

use crate::bignum::{big_add, big_clone, big_from_u64, big_gt, biguint_value};
use crate::color::{color_name, SocketColor, Swatch};
use crate::game::{Currency, Game, GameView};
use crate::notation::{big_to_decimal, decimal_digits, format_scientific, scientific};
use crate::ring::{CycleBonus, CycleBonusView, Ring, RingView};
use crate::settle::{bonus_value, score_bonus};
use crate::upgrade::{Upgrade, UpgradeKind};
use num_bigint::BigUint;
use vstd::prelude::*;
use vstd::string::*;

verus! {

/// What the running cycles of the rings below `upto` would pay together.
pub open spec fn total_pending(rings: Seq<RingView>, upto: int) -> nat
    decreases upto,
{
    if upto <= 0 {
        0
    } else {
        total_pending(rings, upto - 1) + rings[upto - 1].pending_amount
    }
}

/// How many cycles the rings below `upto` have finished together.
pub open spec fn total_cycles(rings: Seq<RingView>, upto: int) -> nat
    decreases upto,
{
    if upto <= 0 {
        0
    } else {
        total_cycles(rings, upto - 1) + rings[upto - 1].cycle_count
    }
}

/// The game with the pending amount of the wallet brought up to date.
pub open spec fn currency_updated(game: GameView) -> GameView {
    GameView { pending_amount: total_pending(game.rings, game.rings.len() as int), ..game }
}

/// Brings the pending amount of the wallet up to date: it is what the
/// running cycles of all rings would pay together. Returns that amount.
pub fn update_currency(game: &mut Game) -> (total_pending_amount: BigUint)
    ensures
        final(game)@ == currency_updated(old(game)@),
        biguint_value(total_pending_amount) == final(game)@.pending_amount,
        old(game).wf() ==> final(game).wf(),
{
    let mut total = big_from_u64(0);
    let mut i: usize = 0;
    while i < game.rings.len()
        invariant
            i <= game.rings.len(),
            *game == *old(game),
            biguint_value(total) == total_pending(game@.rings, i as int),
        decreases game.rings.len() - i,
    {
        total = big_add(&total, &game.rings[i].pending_amount);
        i += 1;
    }
    let shown = big_clone(&total);
    game.currency.pending_amount = total;
    shown
}

/// How many cycles all rings have finished together.
pub fn update_cycles(rings: &Vec<Ring>) -> (total: BigUint)
    ensures
        biguint_value(total) == total_cycles(crate::ring::ring_views(rings@), rings.len() as int),
{
    let mut total = big_from_u64(0);
    let mut i: usize = 0;
    while i < rings.len()
        invariant
            i <= rings.len(),
            biguint_value(total) == total_cycles(crate::ring::ring_views(rings@), i as int),
        decreases rings.len() - i,
    {
        total = big_add(&total, &rings[i].cycle_count);
        i += 1;
    }
    total
}

/// Whether the wallet holds a price, so that what costs it is on offer
/// and not faded.
pub fn can_afford(currency: &Currency, price: &BigUint) -> (affordable: bool)
    ensures
        affordable == (biguint_value(*price) <= biguint_value(currency.amount)),
{
    !big_gt(price, &currency.amount)
}

/// The text of a gain: `+$` and the amount in its short form.
pub open spec fn gain_text(amount: nat) -> Seq<char> {
    "+$"@ + scientific(decimal_digits(amount))
}

/// The text of a gain of score or of a payout.
pub fn score_text(amount: &BigUint) -> (text: String)
    ensures
        text@ == gain_text(biguint_value(*amount)),
{
    let mut text = String::from_str("+$");
    let short = format_scientific(amount);
    text.append(short.as_str());
    text
}

/// The text of a gain of the multiplier: `+`, the gain and `x`.
pub open spec fn multiplier_gain_text(gain: nat) -> Seq<char> {
    "+"@ + decimal_digits(gain) + "x"@
}

/// The text of a gain of the multiplier.
pub fn multiplier_text(gain: &BigUint) -> (text: String)
    ensures
        text@ == multiplier_gain_text(biguint_value(*gain)),
{
    let mut text = String::from_str("+");
    let digits = big_to_decimal(gain);
    text.append(digits.as_str());
    text.append("x");
    text
}

/// The text that tells how a payout came about: `$`, the score, `x` and
/// the multiplier.
pub open spec fn product_text(score: nat, multiplier: nat) -> Seq<char> {
    "$"@ + decimal_digits(score) + "x"@ + decimal_digits(multiplier)
}

/// The text that tells how a payout came about.
pub fn multiplied_text(score: &BigUint, multiplier: &BigUint) -> (text: String)
    ensures
        text@ == product_text(biguint_value(*score), biguint_value(*multiplier)),
{
    let mut text = String::from_str("$");
    let score_digits = big_to_decimal(score);
    text.append(score_digits.as_str());
    text.append("x");
    let multiplier_digits = big_to_decimal(multiplier);
    text.append(multiplier_digits.as_str());
    text
}

/// The text of the wallet on the scoreboard: `$`, the amount in its short
/// form and a space.
pub open spec fn wallet_text(amount: nat) -> Seq<char> {
    "$"@ + scientific(decimal_digits(amount)) + " "@
}

/// The text of the wallet on the scoreboard.
pub fn currency_text(amount: &BigUint) -> (text: String)
    ensures
        text@ == wallet_text(biguint_value(*amount)),
{
    let mut text = String::from_str("$");
    let short = format_scientific(amount);
    text.append(short.as_str());
    text.append(" ");
    text
}

/// The text of the pending amount on the scoreboard: a space, `$` and the
/// amount in its short form.
pub open spec fn pending_text(amount: nat) -> Seq<char> {
    " $"@ + scientific(decimal_digits(amount))
}

/// The text of the pending amount on the scoreboard.
pub fn pending_currency_text(amount: &BigUint) -> (text: String)
    ensures
        text@ == pending_text(biguint_value(*amount)),
{
    let mut text = String::from_str(" $");
    let short = format_scientific(amount);
    text.append(short.as_str());
    text
}

/// What a bonus says of itself: its kind, its size and what it pays.
pub open spec fn bonus_description(bonus: CycleBonusView) -> Seq<char> {
    match bonus {
        CycleBonusView::Overflow(size) => "Overflow ("@ + decimal_digits(size) + ") +$"@
            + decimal_digits(bonus_value(bonus)),
    }
}

/// What a bonus says of itself.
pub fn bonus_text(bonus: &CycleBonus) -> (text: String)
    ensures
        text@ == bonus_description(bonus@),
{
    match bonus {
        CycleBonus::Overflow(oversized_amount) => {
            let mut text = String::from_str("Overflow (");
            let size = big_to_decimal(oversized_amount);
            text.append(size.as_str());
            text.append(") +$");
            let score = score_bonus(bonus);
            let paid = big_to_decimal(&score);
            text.append(paid.as_str());
            text
        },
    }
}

/// The palette entry that a bonus is written in.
pub fn bonus_color(bonus: &CycleBonus) -> (swatch: Swatch)
    ensures
        swatch == Swatch::Cyan400,
{
    match bonus {
        CycleBonus::Overflow(_) => Swatch::Cyan400,
    }
}

/// What the shop says of an upgrade.
pub open spec fn upgrade_text(kind: UpgradeKind) -> Seq<char> {
    match kind {
        UpgradeKind::Nothing => "Errmm.. This shouldn't be for sale"@,
        UpgradeKind::AddSocket(_) => "Add a socket"@,
        UpgradeKind::AddColor(upgrade) => "Add "@ + color_name(upgrade.color) + " orbs"@,
        UpgradeKind::AddRing(_) => "Add a ring"@,
        UpgradeKind::EnhanceColor(upgrade) => if upgrade.color == SocketColor::BLUE && upgrade.tier
            == 1 {
            "BLUE orbs new behavior"@
        } else if upgrade.color == SocketColor::BLUE && upgrade.tier == 2 {
            "BLUE orbs more effective"@
        } else if upgrade.color == SocketColor::BLUE && upgrade.tier == 3 {
            "BLUE orbs new behavior"@
        } else if upgrade.color == SocketColor::RED && upgrade.tier == 1 {
            "RED orbs new behavior"@
        } else if upgrade.color == SocketColor::GREEN && upgrade.tier == 1 {
            "GREEN orbs new behavior"@
        } else if upgrade.color == SocketColor::ORANGE && upgrade.tier == 1 {
            "ORANGE orbs more effective"@
        } else {
            "You are seeing this message because I made a mistake."@
        },
    }
}

/// What the shop says of an upgrade.
pub fn upgrade_description(upgrade: &Upgrade) -> (text: String)
    ensures
        text@ == upgrade_text(upgrade.upgrade_kind),
{
    match upgrade.upgrade_kind {
        UpgradeKind::Nothing => String::from_str("Errmm.. This shouldn't be for sale"),
        UpgradeKind::AddSocket(_) => String::from_str("Add a socket"),
        UpgradeKind::AddColor(color_upgrade) => {
            let mut text = String::from_str("Add ");
            text.append(color_upgrade.color.as_str());
            text.append(" orbs");
            text
        },
        UpgradeKind::AddRing(_) => String::from_str("Add a ring"),
        UpgradeKind::EnhanceColor(enhancement) => {
            let text = if enhancement.color == SocketColor::BLUE && enhancement.tier == 1 {
                "BLUE orbs new behavior"
            } else if enhancement.color == SocketColor::BLUE && enhancement.tier == 2 {
                "BLUE orbs more effective"
            } else if enhancement.color == SocketColor::BLUE && enhancement.tier == 3 {
                "BLUE orbs new behavior"
            } else if enhancement.color == SocketColor::RED && enhancement.tier == 1 {
                "RED orbs new behavior"
            } else if enhancement.color == SocketColor::GREEN && enhancement.tier == 1 {
                "GREEN orbs new behavior"
            } else if enhancement.color == SocketColor::ORANGE && enhancement.tier == 1 {
                "ORANGE orbs more effective"
            } else {
                "You are seeing this message because I made a mistake."
            };
            String::from_str(text)
        },
    }
}

/// Where the panel of one firing goes among the panels of a cycle, which
/// stand in rows of a fixed width, the last row holding what is left.
#[derive(PartialEq, Eq, Clone, Copy, Debug, Structural)]
pub struct PanelCell {
    pub row: usize,
    pub column: usize,
    /// How many panels the row of this panel holds.
    pub row_length: usize,
    /// How many rows there are.
    pub total_rows: usize,
}

/// The cell of panel `index` of `orb_count` panels in rows of `row_size`.
pub open spec fn panel_cell(index: usize, row_size: usize, orb_count: usize) -> PanelCell {
    let left_over = orb_count % row_size;
    PanelCell {
        row: index / row_size,
        column: index % row_size,
        row_length: if index < orb_count - left_over || left_over == 0 {
            row_size
        } else {
            left_over
        },
        total_rows: (orb_count / row_size + if left_over == 0 {
            0int
        } else {
            1int
        }) as usize,
    }
}

/// The cell of the panel of firing `index` of the `orb_count` firings of a
/// cycle, in rows of `row_size` panels.
pub fn ring_cycle_display_panel_position(index: usize, row_size: usize, orb_count: usize) -> (cell:
    PanelCell)
    requires
        row_size > 0,
        index < orb_count,
    ensures
        cell == panel_cell(index, row_size, orb_count),
        cell.column < cell.row_length <= row_size,
        cell.row < cell.total_rows,
{
    let left_over = orb_count % row_size;
    let full_rows = orb_count / row_size;
    proof {
        let n = orb_count as int;
        let w = row_size as int;
        vstd::arithmetic::div_mod::lemma_fundamental_div_mod(n, w);
        assert(0 <= n % w < w);
        assert(0 <= n / w);
        assert(n / w <= w * (n / w)) by (nonlinear_arith)
            requires
                0 <= n / w,
                w >= 1,
        ;
    }
    let current_row_size = if index < orb_count - left_over {
        row_size
    } else {
        if left_over == 0 {
            row_size
        } else {
            left_over
        }
    };
    let total_rows = if left_over == 0 {
        full_rows
    } else {
        full_rows + 1
    };
    proof {
        let i = index as int;
        let n = orb_count as int;
        let w = row_size as int;
        vstd::arithmetic::div_mod::lemma_fundamental_div_mod(n, w);
        vstd::arithmetic::div_mod::lemma_fundamental_div_mod(i, w);
        assert(n == w * (n / w) + n % w);
        assert(i == w * (i / w) + i % w);
        assert(0 <= i % w < w && 0 <= n % w < w);
        if i / w >= n / w + 1 {
            assert(w * (i / w) >= w * (n / w + 1)) by (nonlinear_arith)
                requires
                    i / w >= n / w + 1,
                    w > 0,
            ;
            assert(w * (n / w + 1) == w * (n / w) + w) by (nonlinear_arith);
        }
        if i < n - n % w {
            if i / w >= n / w {
                assert(w * (i / w) >= w * (n / w)) by (nonlinear_arith)
                    requires
                        i / w >= n / w,
                        w > 0,
                ;
            }
        } else if n % w != 0 {
            if i / w < n / w {
                assert(w * (i / w) + w <= w * (n / w)) by (nonlinear_arith)
                    requires
                        i / w + 1 <= n / w,
                        w > 0,
                ;
            }
            assert(i / w == n / w);
        } else {
            if i / w >= n / w {
                assert(w * (i / w) >= w * (n / w)) by (nonlinear_arith)
                    requires
                        i / w >= n / w,
                        w > 0,
                ;
            }
        }
    }
    PanelCell {
        row: index / row_size,
        column: index % row_size,
        row_length: current_row_size,
        total_rows,
    }
}

/// Whether the panels of a ring have fallen behind its cycle: more
/// sockets have fired than there are panels.
pub fn panels_outdated(ring: &Ring, panel_count: usize) -> (outdated: bool)
    ensures
        outdated == (ring@.cycle.len() > panel_count),
{
    ring.cycle.len() > panel_count
}

/// The cells of all panels of a cycle of `orb_count` firings.
pub open spec fn panel_cells(row_size: usize, orb_count: usize) -> Seq<PanelCell> {
    Seq::new(orb_count as nat, |i: int| panel_cell(i as usize, row_size, orb_count))
}

/// The cells of the panels of the running cycle of a ring, one for each
/// firing, in rows of `row_size`.
pub fn ring_cycle_display(ring: &Ring, row_size: usize) -> (cells: Vec<PanelCell>)
    requires
        row_size > 0,
    ensures
        cells@ == panel_cells(row_size, ring.cycle.len()),
{
    let orb_count = ring.cycle.len();
    let mut cells: Vec<PanelCell> = Vec::new();
    let mut i: usize = 0;
    while i < orb_count
        invariant
            i <= orb_count,
            row_size > 0,
            cells@ =~= panel_cells(row_size, orb_count).take(i as int),
        decreases orb_count - i,
    {
        cells.push(ring_cycle_display_panel_position(i, row_size, orb_count));
        i += 1;
    }
    assert(cells@ =~= panel_cells(row_size, orb_count));
    cells
}

} // verus!
