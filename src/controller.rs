use vstd::prelude::*;
use crate::board::{
    Gem, Move, Spawn, BoardEvent, BoardCommand, Motion, Effect, ViewError, occupied, gem_at,
    swap_cells, cells_wf, move_ok, move_error, dropped, drops_ok, drops_error, drop_effects, spawned,
    spawns_ok, spawns_error, spawn_effects, shuffle_ok, shuffled, shuffle_effects, dedup, is_target, lemma_drops_prefix, lemma_spawns_prefix, lemma_swap_wf, lemma_place_wf,
    lemma_clear_wf, lemma_shuffled_wf, lemma_swap_permutes,
};
use crate::gem::{GemType, GEM_KINDS, type_index, pays_resource};
use crate::ledger::{
    Ledger, Participant, other, credited, paid, can_pay, empty_balances,
};
use crate::position::{Pos, adjacent, on_board, cell_index, SLOT_COUNT, lemma_cell_index_injective};

verus! {

/// Whether the controller takes a move, or waits for the board to settle.
#[derive(Clone, Copy, Debug, PartialEq, Eq, Structural)]
pub enum Phase {
    AwaitingMove,
    Resolving,
}

/// A skill a participant may use on their turn.
#[derive(Clone, Copy, Debug, PartialEq, Eq, Structural)]
pub enum Skill {
    /// Free: reshuffles the board.
    Bamboozle,
    /// Costs `HEAL_COST` units of `HEAL_KIND`.
    Heal,
}

/// Units the heal skill costs.
pub const HEAL_COST: u32 = 3;

/// Kind the heal skill is paid in.
pub const HEAL_KIND: GemType = GemType::Amethyst;

/// Everything the controller keeps, as mathematical values.
pub struct ControllerState {
    /// Contents of the cells, in row-major order.
    pub cells: Seq<Option<Gem>>,
    /// Handle the next new gem gets.
    pub next_gem: nat,
    /// The cell the player has selected, if any.
    pub selected: Option<Pos>,
    pub turn: Participant,
    pub phase: Phase,
    pub player: Seq<u32>,
    pub opponent: Seq<u32>,
    /// The current cascade has reached its last step.
    pub end_of_sequence: bool,
    /// The current cascade began with a swap, so the turn passes when it
    /// ends.
    pub change_turns: bool,
}

/// The controller's invariant.
pub open spec fn state_wf(s: ControllerState) -> bool {
    &&& cells_wf(s.cells, s.next_gem)
    &&& s.player.len() == GEM_KINDS
    &&& s.opponent.len() == GEM_KINDS
    &&& s.next_gem <= u64::MAX
    &&& (s.selected.is_some() ==> on_board(s.selected.unwrap()))
}

/// State of a new game: an empty board, the player to move.
pub open spec fn initial_state() -> ControllerState {
    ControllerState {
        cells: Seq::new(SLOT_COUNT as nat, |i: int| None),
        next_gem: 0,
        selected: None,
        turn: Participant::Player,
        phase: Phase::AwaitingMove,
        player: empty_balances(),
        opponent: empty_balances(),
        end_of_sequence: false,
        change_turns: false,
    }
}

/// Balances of participant `p`.
pub open spec fn balances(s: ControllerState, p: Participant) -> Seq<u32> {
    match p {
        Participant::Player => s.player,
        Participant::Opponent => s.opponent,
    }
}

/// `s` with the balances of `p` replaced by `m`.
pub open spec fn with_balances(s: ControllerState, p: Participant, m: Seq<u32>) -> ControllerState {
    match p {
        Participant::Player => ControllerState { player: m, ..s },
        Participant::Opponent => ControllerState { opponent: m, ..s },
    }
}

/// The event fits the controller's view of the board.
pub open spec fn event_ok(s: ControllerState, ev: BoardEvent) -> bool {
    match ev {
        BoardEvent::Swapped(a, b) => occupied(s.cells, a) && occupied(s.cells, b),
        BoardEvent::FailedSwap(a, b) => occupied(s.cells, a) && occupied(s.cells, b),
        BoardEvent::Dropped(m) => drops_ok(s.cells, m@),
        BoardEvent::Popped(p) => occupied(s.cells, p),
        BoardEvent::Spawned(sp) => s.next_gem + sp@.len() <= u64::MAX && spawns_ok(
            s.cells,
            s.next_gem,
            sp@,
        ),
        BoardEvent::Matched(_) => true,
        BoardEvent::Shuffled(m) => shuffle_ok(m@),
    }
}

/// What is wrong with a pair of cells that must both hold a gem.
pub open spec fn pair_error(c: Seq<Option<Gem>>, a: Pos, b: Pos) -> ViewError {
    if !on_board(a) {
        ViewError::OffBoard(a)
    } else if !on_board(b) {
        ViewError::OffBoard(b)
    } else if !occupied(c, a) {
        ViewError::Vacant(a)
    } else {
        ViewError::Vacant(b)
    }
}

/// The error reported for an event that does not fit. (A match event
/// always fits; its entry here is never reported.)
pub open spec fn event_error(s: ControllerState, ev: BoardEvent) -> ViewError {
    match ev {
        BoardEvent::Swapped(a, b) => pair_error(s.cells, a, b),
        BoardEvent::FailedSwap(a, b) => pair_error(s.cells, a, b),
        BoardEvent::Dropped(m) => drops_error(s.cells, m@),
        BoardEvent::Popped(p) => if !on_board(p) {
            ViewError::OffBoard(p)
        } else {
            ViewError::Vacant(p)
        },
        BoardEvent::Spawned(sp) => if s.next_gem + sp@.len() > u64::MAX {
            ViewError::HandlesExhausted
        } else {
            spawns_error(s.cells, s.next_gem, sp@)
        },
        BoardEvent::Matched(_) => ViewError::BadShuffle,
        BoardEvent::Shuffled(_) => ViewError::BadShuffle,
    }
}

/// State after an event that fits.
///
/// A swap marks that the turn passes when the cascade ends; a refused swap
/// gives input back at once; a pop credits the gem's kind to the side whose
/// turn it is; spawns and shuffles end the cascade.
pub open spec fn after_event(s: ControllerState, ev: BoardEvent) -> ControllerState {
    match ev {
        BoardEvent::Swapped(a, b) => ControllerState {
            cells: swap_cells(s.cells, a, b),
            change_turns: true,
            ..s
        },
        BoardEvent::FailedSwap(_, _) => ControllerState { phase: Phase::AwaitingMove, ..s },
        BoardEvent::Dropped(m) => ControllerState { cells: dropped(s.cells, m@), ..s },
        BoardEvent::Popped(p) => {
            let t = gem_at(s.cells, p).typ;
            let s2 = with_balances(s, s.turn, credited(balances(s, s.turn), t));
            ControllerState { cells: s.cells.update(cell_index(p), None), ..s2 }
        },
        BoardEvent::Spawned(sp) => ControllerState {
            cells: spawned(s.cells, s.next_gem, sp@),
            next_gem: s.next_gem + sp@.len(),
            end_of_sequence: true,
            ..s
        },
        BoardEvent::Matched(_) => s,
        BoardEvent::Shuffled(m) => ControllerState {
            cells: shuffled(s.cells, m@),
            end_of_sequence: true,
            ..s
        },
    }
}

/// The effects handed back for an event that fits.
pub open spec fn event_effects(s: ControllerState, ev: BoardEvent, fx: Seq<Effect>) -> bool {
    match ev {
        BoardEvent::Swapped(a, b) => fx == seq![
            Effect::Travel { gem: gem_at(s.cells, a).id, from: a, to: b, motion: Motion::Swap },
            Effect::Travel { gem: gem_at(s.cells, b).id, from: b, to: a, motion: Motion::Swap },
        ],
        BoardEvent::FailedSwap(a, b) => fx == seq![
            Effect::Travel { gem: gem_at(s.cells, a).id, from: a, to: b, motion: Motion::Bounce },
            Effect::Travel { gem: gem_at(s.cells, b).id, from: b, to: a, motion: Motion::Bounce },
        ],
        BoardEvent::Dropped(m) => fx == drop_effects(s.cells, m@),
        BoardEvent::Popped(p) => fx == seq![Effect::Vanish { gem: gem_at(s.cells, p).id }],
        BoardEvent::Spawned(sp) => fx == spawn_effects(s.next_gem, sp@, true),
        BoardEvent::Matched(ps) => fx.len() == 1 && match fx[0] {
            Effect::Send(BoardCommand::Pop(v)) => v@ == dedup(ps@),
            _ => false,
        },
        BoardEvent::Shuffled(m) => fx == shuffle_effects(s.cells, m@),
    }
}

/// State after each event of `evs` in turn; an event that does not fit
/// changes nothing.
pub open spec fn after_events(s: ControllerState, evs: Seq<BoardEvent>) -> ControllerState
    decreases evs.len(),
{
    if evs.len() == 0 {
        s
    } else {
        let before = after_events(s, evs.drop_last());
        if event_ok(before, evs.last()) {
            after_event(before, evs.last())
        } else {
            before
        }
    }
}

/// State after the end-of-tick step: at the end of a cascade input comes
/// back, and if the cascade began with a swap the turn passes; when the
/// board then has no matching move, both ledgers are emptied and the board
/// is reshuffled.
pub open spec fn after_settle(s: ControllerState, has_moves: bool) -> ControllerState {
    if !s.end_of_sequence {
        s
    } else if !s.change_turns {
        ControllerState { end_of_sequence: false, phase: Phase::AwaitingMove, ..s }
    } else if has_moves {
        ControllerState {
            end_of_sequence: false,
            change_turns: false,
            phase: Phase::AwaitingMove,
            turn: other(s.turn),
            ..s
        }
    } else {
        ControllerState {
            end_of_sequence: false,
            change_turns: false,
            phase: Phase::Resolving,
            turn: other(s.turn),
            player: empty_balances(),
            opponent: empty_balances(),
            ..s
        }
    }
}

/// Command sent by the end-of-tick step.
pub open spec fn settle_command(s: ControllerState, has_moves: bool) -> Option<BoardCommand> {
    if s.end_of_sequence && s.change_turns && !has_moves {
        Some(BoardCommand::Shuffle)
    } else {
        None
    }
}

/// Handle of the gem in the selected cell.
pub open spec fn selected_gem(s: ControllerState) -> Option<u64> {
    match s.selected {
        Some(p) => if occupied(s.cells, p) {
            Some(gem_at(s.cells, p).id)
        } else {
            None
        },
        None => None,
    }
}

/// The player may act.
pub open spec fn accepts_input(s: ControllerState) -> bool {
    s.phase == Phase::AwaitingMove && s.turn == Participant::Player
}

/// Some gem other than the selected one is still moving.
pub open spec fn input_blocked(s: ControllerState, moving: Seq<u64>) -> bool {
    exists|k: int| 0 <= k < moving.len() && Some(#[trigger] moving[k]) != selected_gem(s)
}

/// State after a click on cell `hit` (`None`: on no cell) while the gems
/// `moving` are animated.
pub open spec fn after_click(s: ControllerState, hit: Option<Pos>, moving: Seq<u64>) -> ControllerState {
    if !accepts_input(s) || input_blocked(s, moving) {
        s
    } else {
        match hit {
            Some(h) => if on_board(h) && s.selected.is_none() {
                ControllerState { selected: Some(h), ..s }
            } else if on_board(h) && adjacent(s.selected.unwrap(), h) {
                ControllerState { selected: None, phase: Phase::Resolving, ..s }
            } else {
                ControllerState { selected: None, ..s }
            },
            None => ControllerState { selected: None, ..s },
        }
    }
}

/// Command sent by a click: a swap when a cell is selected and the click
/// hits an adjacent one.
pub open spec fn click_command(s: ControllerState, hit: Option<Pos>, moving: Seq<u64>) -> Option<
    BoardCommand,
> {
    if accepts_input(s) && !input_blocked(s, moving) && hit.is_some() && on_board(hit.unwrap())
        && s.selected.is_some() && adjacent(s.selected.unwrap(), hit.unwrap()) {
        Some(BoardCommand::Swap(s.selected.unwrap(), hit.unwrap()))
    } else {
        None
    }
}

/// The opponent may act.
pub open spec fn opponent_ready(s: ControllerState) -> bool {
    s.phase == Phase::AwaitingMove && s.turn == Participant::Opponent
}

/// State after a skill is used by the side whose turn it is.
pub open spec fn after_skill(s: ControllerState, skill: Skill) -> ControllerState {
    if s.phase != Phase::AwaitingMove {
        s
    } else {
        match skill {
            Skill::Bamboozle => ControllerState { phase: Phase::Resolving, ..s },
            Skill::Heal => with_balances(
                s,
                s.turn,
                paid(balances(s, s.turn), HEAL_KIND, HEAL_COST),
            ),
        }
    }
}

/// Command sent by a skill.
pub open spec fn skill_command(s: ControllerState, skill: Skill) -> Option<BoardCommand> {
    if s.phase == Phase::AwaitingMove && skill == Skill::Bamboozle {
        Some(BoardCommand::Shuffle)
    } else {
        None
    }
}

/// The turn controller: the view of the board, the selection, the turn and
/// both ledgers.
pub struct TurnController {
    cells: Vec<Option<Gem>>,
    next_gem: u64,
    selected: Option<Pos>,
    turn: Participant,
    phase: Phase,
    player: Ledger,
    opponent: Ledger,
    end_of_sequence: bool,
    change_turns: bool,
}

impl View for TurnController {
    type V = ControllerState;

    closed spec fn view(&self) -> ControllerState {
        ControllerState {
            cells: self.cells@,
            next_gem: self.next_gem as nat,
            selected: self.selected,
            turn: self.turn,
            phase: self.phase,
            player: self.player@,
            opponent: self.opponent@,
            end_of_sequence: self.end_of_sequence,
            change_turns: self.change_turns,
        }
    }
}

impl TurnController {
    /// The controller's invariant holds of its state.
    pub open spec fn wf(&self) -> bool {
        state_wf(self@)
    }

    /// A new game: every cell empty, the player to move, both ledgers empty.
    pub fn new() -> (r: TurnController)
        ensures
            r.wf(),
            r@ == initial_state(),
    {
        let mut cells: Vec<Option<Gem>> = Vec::new();
        let mut i: usize = 0;
        while i < SLOT_COUNT
            invariant
                i <= SLOT_COUNT,
                cells@ == Seq::new(i as nat, |k: int| None::<Gem>),
            decreases SLOT_COUNT - i,
        {
            cells.push(None);
            i = i + 1;
        }
        let r = TurnController {
            cells,
            next_gem: 0,
            selected: None,
            turn: Participant::Player,
            phase: Phase::AwaitingMove,
            player: Ledger::new(),
            opponent: Ledger::new(),
            end_of_sequence: false,
            change_turns: false,
        };
        assert(r@.cells =~= initial_state().cells);
        r
    }

    /// Whose turn it is.
    pub fn turn(&self) -> (r: Participant)
        ensures
            r == self@.turn,
    {
        self.turn
    }

    /// Whether a move is awaited or the board is settling.
    pub fn phase(&self) -> (r: Phase)
        ensures
            r == self@.phase,
    {
        self.phase
    }

    /// The selected cell.
    pub fn selected(&self) -> (r: Option<Pos>)
        ensures
            r == self@.selected,
    {
        self.selected
    }

    /// Contents of the on-board cell `p`: its gem, or `None` while it is
    /// empty.
    pub fn gem_at(&self, p: Pos) -> (r: Option<Gem>)
        requires
            self.wf(),
            on_board(p),
        ensures
            r == self@.cells[cell_index(p)],
    {
        self.cells[p.index()]
    }

    /// The gem in cell `p`, which must hold one.
    pub fn gem_in(&self, p: Pos) -> (r: Gem)
        requires
            self.wf(),
            occupied(self@.cells, p),
        ensures
            r == gem_at(self@.cells, p),
    {
        self.cells[p.index()].unwrap()
    }

    /// Handle of the gem in the selected cell.
    pub fn selected_gem(&self) -> (r: Option<u64>)
        requires
            self.wf(),
        ensures
            r == selected_gem(self@),
    {
        match self.selected {
            Some(p) => match self.cells[p.index()] {
                Some(g) => Some(g.id),
                None => None,
            },
            None => None,
        }
    }

    /// Balance of kind `t` held by `who`.
    pub fn balance(&self, who: Participant, t: GemType) -> (r: u32)
        requires
            self.wf(),
        ensures
            r == balances(self@, who)[crate::gem::type_index(t) as int],
    {
        match who {
            Participant::Player => self.player.balance(t),
            Participant::Opponent => self.opponent.balance(t),
        }
    }
}

/// Exchanges the contents of two on-board cells.
fn swap_in(cells: &mut Vec<Option<Gem>>, a: Pos, b: Pos)
    requires
        old(cells)@.len() == SLOT_COUNT,
        on_board(a),
        on_board(b),
    ensures
        final(cells)@ == swap_cells(old(cells)@, a, b),
{
    let ia = a.index();
    let ib = b.index();
    let ga = cells[ia];
    let gb = cells[ib];
    cells.set(ia, gb);
    cells.set(ib, ga);
}

/// A copy of a table of cells.
fn copy_cells(cells: &Vec<Option<Gem>>) -> (r: Vec<Option<Gem>>)
    ensures
        r@ == cells@,
{
    let mut r: Vec<Option<Gem>> = Vec::new();
    let mut i: usize = 0;
    while i < cells.len()
        invariant
            i <= cells.len(),
            r@ == cells@.take(i as int),
        decreases cells.len() - i,
    {
        r.push(cells[i]);
        i = i + 1;
        assert(r@ =~= cells@.take(i as int));
    }
    assert(cells@.take(cells.len() as int) =~= cells@);
    r
}

/// The gems of two cells that must both hold one.
fn gems_of_pair(cells: &Vec<Option<Gem>>, a: Pos, b: Pos) -> (r: Result<(Gem, Gem), ViewError>)
    requires
        cells@.len() == SLOT_COUNT,
    ensures
        match r {
            Ok((ga, gb)) => occupied(cells@, a) && occupied(cells@, b) && ga == gem_at(cells@, a)
                && gb == gem_at(cells@, b),
            Err(e) => !(occupied(cells@, a) && occupied(cells@, b)) && e == pair_error(cells@, a, b),
        },
{
    if !a.is_on_board() {
        return Err(ViewError::OffBoard(a));
    }
    if !b.is_on_board() {
        return Err(ViewError::OffBoard(b));
    }
    match cells[a.index()] {
        None => Err(ViewError::Vacant(a)),
        Some(ga) => match cells[b.index()] {
            None => Err(ViewError::Vacant(b)),
            Some(gb) => Ok((ga, gb)),
        },
    }
}

/// `ps` in order of first occurrence, each position once.
fn dedup_positions(ps: &Vec<Pos>) -> (r: Vec<Pos>)
    ensures
        r@ == dedup(ps@),
{
    let mut out: Vec<Pos> = Vec::new();
    let mut k: usize = 0;
    while k < ps.len()
        invariant
            k <= ps.len(),
            out@ == dedup(ps@.take(k as int)),
        decreases ps.len() - k,
    {
        let p = ps[k];
        let mut found = false;
        let mut j: usize = 0;
        while j < out.len() && !found
            invariant
                j <= out.len(),
                found == (exists|l: int| 0 <= l < j && out@[l] == p),
            decreases out.len() - j,
        {
            if out[j] == p {
                found = true;
            }
            j = j + 1;
        }
        assert(found == out@.contains(p));
        assert(ps@.take(k + 1).drop_last() =~= ps@.take(k as int));
        if !found {
            out.push(p);
        }
        k = k + 1;
    }
    assert(ps@.take(ps.len() as int) =~= ps@);
    out
}

/// Whether the moves rearrange a set of on-board cells.
fn shuffle_valid(m: &Vec<Move>) -> (r: bool)
    ensures
        r == shuffle_ok(m@),
{
    let n = m.len();
    let mut k: usize = 0;
    while k < n
        invariant
            k <= n == m@.len(),
            forall|l: int| 0 <= l < k ==> on_board((#[trigger] m@[l]).from) && on_board(m@[l].to),
        decreases n - k,
    {
        if !m[k].from.is_on_board() || !m[k].to.is_on_board() {
            return false;
        }
        k = k + 1;
    }
    let mut seen_to: Vec<bool> = Vec::new();
    let mut seen_from: Vec<bool> = Vec::new();
    let mut i: usize = 0;
    while i < SLOT_COUNT
        invariant
            i <= SLOT_COUNT,
            seen_to@ == Seq::new(i as nat, |c: int| false),
            seen_from@ == Seq::new(i as nat, |c: int| false),
        decreases SLOT_COUNT - i,
    {
        seen_to.push(false);
        seen_from.push(false);
        i = i + 1;
    }
    k = 0;
    while k < n
        invariant
            k <= n == m@.len(),
            forall|l: int| 0 <= l < n ==> on_board((#[trigger] m@[l]).from) && on_board(m@[l].to),
            seen_to@.len() == SLOT_COUNT,
            seen_from@.len() == SLOT_COUNT,
            forall|c: int|
                0 <= c < SLOT_COUNT ==> (#[trigger] seen_to@[c] <==> exists|l: int|
                    0 <= l < k && cell_index(#[trigger] m@[l].to) == c),
            forall|c: int|
                0 <= c < SLOT_COUNT ==> (#[trigger] seen_from@[c] <==> exists|l: int|
                    0 <= l < k && cell_index(#[trigger] m@[l].from) == c),
            forall|a: int, b: int|
                0 <= a < k && 0 <= b < k && a != b ==> (#[trigger] m@[a]).to != (#[trigger] m@[b]).to
                    && m@[a].from != m@[b].from,
        decreases n - k,
    {
        let mv = m[k];
        let ti = mv.to.index();
        let fi = mv.from.index();
        if seen_to[ti] {
            proof {
                let l = choose|l: int| 0 <= l < k && cell_index(#[trigger] m@[l].to) == ti;
                lemma_cell_index_injective(m@[l].to, mv.to);
                assert(m@[l].to == m@[k as int].to);
            }
            return false;
        }
        if seen_from[fi] {
            proof {
                let l = choose|l: int| 0 <= l < k && cell_index(#[trigger] m@[l].from) == fi;
                lemma_cell_index_injective(m@[l].from, mv.from);
                assert(m@[l].from == m@[k as int].from);
            }
            return false;
        }
        proof {
            assert forall|l: int| 0 <= l < k implies (#[trigger] m@[l]).to != mv.to && m@[l].from
                != mv.from by {
                if m@[l].to == mv.to {
                    assert(cell_index(m@[l].to) == ti);
                }
                if m@[l].from == mv.from {
                    assert(cell_index(m@[l].from) == fi);
                }
            }
        }
        seen_to.set(ti, true);
        seen_from.set(fi, true);
        proof {
            assert forall|c: int| 0 <= c < SLOT_COUNT implies (#[trigger] seen_to@[c] <==> exists|l: int|
                0 <= l < k + 1 && cell_index(#[trigger] m@[l].to) == c) by {
                if c == ti {
                    assert(cell_index(m@[k as int].to) == c);
                }
            }
            assert forall|c: int| 0 <= c < SLOT_COUNT implies (#[trigger] seen_from@[c] <==> exists|l: int|
                0 <= l < k + 1 && cell_index(#[trigger] m@[l].from) == c) by {
                if c == fi {
                    assert(cell_index(m@[k as int].from) == c);
                }
            }
        }
        k = k + 1;
    }
    k = 0;
    while k < n
        invariant
            k <= n == m@.len(),
            forall|l: int| 0 <= l < n ==> on_board((#[trigger] m@[l]).from) && on_board(m@[l].to),
            seen_to@.len() == SLOT_COUNT,
            forall|c: int|
                0 <= c < SLOT_COUNT ==> (#[trigger] seen_to@[c] <==> exists|l: int|
                    0 <= l < n && cell_index(#[trigger] m@[l].to) == c),
            forall|a: int| 0 <= a < k ==> is_target(m@, (#[trigger] m@[a]).from),
            forall|a: int, b: int|
                0 <= a < n && 0 <= b < n && a != b ==> (#[trigger] m@[a]).to != (#[trigger] m@[b]).to
                    && m@[a].from != m@[b].from,
        decreases n - k,
    {
        let fi = m[k].from.index();
        if !seen_to[fi] {
            proof {
                assert forall|l: int| 0 <= l < n implies #[trigger] m@[l].to != m@[k as int].from by {
                    if m@[l].to == m@[k as int].from {
                        assert(cell_index(m@[l].to) == fi);
                    }
                }
            }
            return false;
        }
        proof {
            let l = choose|l: int| 0 <= l < n && cell_index(#[trigger] m@[l].to) == fi;
            lemma_cell_index_injective(m@[l].to, m@[k as int].from);
        }
        k = k + 1;
    }
    true
}

impl TurnController {
    /// Makes the falls `m` one after the other on a copy of the cells, and
    /// keeps the copy only if every fall could be made.
    fn apply_drops(&mut self, m: &Vec<Move>) -> (r: Result<Vec<Effect>, ViewError>)
        requires
            old(self).wf(),
        ensures
            final(self).wf(),
            match r {
                Ok(fx) => drops_ok(old(self)@.cells, m@) && final(self)@ == ControllerState {
                    cells: dropped(old(self)@.cells, m@),
                    ..old(self)@
                } && fx@ == drop_effects(old(self)@.cells, m@),
                Err(e) => !drops_ok(old(self)@.cells, m@) && e == drops_error(old(self)@.cells, m@)
                    && final(self)@ == old(self)@,
            },
    {
        let ghost c0 = self@.cells;
        let mut work = copy_cells(&self.cells);
        let mut fx: Vec<Effect> = Vec::new();
        let mut k: usize = 0;
        while k < m.len()
            invariant
                self.wf(),
                self@ == old(self)@,
                c0 == self@.cells,
                k <= m@.len(),
                cells_wf(work@, self@.next_gem),
                drops_ok(c0, m@.take(k as int)),
                work@ == dropped(c0, m@.take(k as int)),
                fx@ == drop_effects(c0, m@.take(k as int)),
            decreases m.len() - k,
        {
            let mv = m[k];
            proof {
                assert(m@.take(k + 1).drop_last() =~= m@.take(k as int));
                assert(m@.take(k + 1).last() == mv);
            }
            if !mv.from.is_on_board() {
                proof {
                    lemma_drops_prefix(c0, m@, k + 1);
                }
                return Err(ViewError::OffBoard(mv.from));
            }
            if !mv.to.is_on_board() {
                proof {
                    lemma_drops_prefix(c0, m@, k + 1);
                }
                return Err(ViewError::OffBoard(mv.to));
            }
            let g = match work[mv.from.index()] {
                Some(g) => g,
                None => {
                    proof {
                        lemma_drops_prefix(c0, m@, k + 1);
                    }
                    return Err(ViewError::Vacant(mv.from));
                },
            };
            proof {
                lemma_swap_wf(work@, self@.next_gem, mv.from, mv.to);
            }
            swap_in(&mut work, mv.from, mv.to);
            fx.push(Effect::Travel { gem: g.id, from: mv.from, to: mv.to, motion: Motion::Fall });
            k = k + 1;
        }
        assert(m@.take(m@.len() as int) =~= m@);
        self.cells = work;
        Ok(fx)
    }

    /// Puts a new gem in each cell of `sp` in turn, the `k`-th with handle
    /// `next_gem + k`; keeps the result only if every cell was empty.
    fn place_gems(&mut self, sp: &Vec<Spawn>, falling: bool) -> (r: Result<Vec<Effect>, ViewError>)
        requires
            old(self).wf(),
        ensures
            final(self).wf(),
            match r {
                Ok(fx) => old(self)@.next_gem + sp@.len() <= u64::MAX && spawns_ok(
                    old(self)@.cells,
                    old(self)@.next_gem,
                    sp@,
                ) && final(self)@ == ControllerState {
                    cells: spawned(old(self)@.cells, old(self)@.next_gem, sp@),
                    next_gem: old(self)@.next_gem + sp@.len(),
                    ..old(self)@
                } && fx@ == spawn_effects(old(self)@.next_gem, sp@, falling),
                Err(e) => !(old(self)@.next_gem + sp@.len() <= u64::MAX && spawns_ok(
                    old(self)@.cells,
                    old(self)@.next_gem,
                    sp@,
                )) && e == (if old(self)@.next_gem + sp@.len() > u64::MAX {
                    ViewError::HandlesExhausted
                } else {
                    spawns_error(old(self)@.cells, old(self)@.next_gem, sp@)
                }) && final(self)@ == old(self)@,
            },
    {
        if sp.len() as u64 > u64::MAX - self.next_gem {
            return Err(ViewError::HandlesExhausted);
        }
        let ghost c0 = self@.cells;
        let ghost n0 = self@.next_gem;
        let mut work = copy_cells(&self.cells);
        let mut fx: Vec<Effect> = Vec::new();
        let mut k: usize = 0;
        while k < sp.len()
            invariant
                self.wf(),
                self@ == old(self)@,
                c0 == self@.cells,
                n0 == self@.next_gem,
                n0 + sp@.len() <= u64::MAX,
                k <= sp@.len(),
                cells_wf(work@, (n0 + k) as nat),
                spawns_ok(c0, n0, sp@.take(k as int)),
                work@ == spawned(c0, n0, sp@.take(k as int)),
                fx@ == spawn_effects(n0, sp@.take(k as int), falling),
            decreases sp.len() - k,
        {
            let s = sp[k];
            proof {
                assert(sp@.take(k + 1).drop_last() =~= sp@.take(k as int));
                assert(sp@.take(k + 1).last() == s);
            }
            if !s.pos.is_on_board() {
                proof {
                    lemma_spawns_prefix(c0, n0, sp@, k + 1);
                }
                return Err(ViewError::OffBoard(s.pos));
            }
            if work[s.pos.index()].is_some() {
                proof {
                    lemma_spawns_prefix(c0, n0, sp@, k + 1);
                }
                return Err(ViewError::Occupied(s.pos));
            }
            let id = self.next_gem + k as u64;
            proof {
                lemma_place_wf(work@, (n0 + k) as nat, s.pos, s.typ);
            }
            work.set(s.pos.index(), Some(Gem { id, typ: s.typ }));
            fx.push(Effect::Appear { gem: id, typ: s.typ, at: s.pos, falling });
            k = k + 1;
            proof {
                assert(fx@ =~= spawn_effects(n0, sp@.take(k as int), falling));
            }
        }
        assert(sp@.take(sp@.len() as int) =~= sp@);
        self.cells = work;
        self.next_gem = self.next_gem + sp.len() as u64;
        Ok(fx)
    }

    /// Rearranges the cells by the moves `m`, if they form a valid shuffle.
    fn apply_shuffle(&mut self, m: &Vec<Move>) -> (r: Result<Vec<Effect>, ViewError>)
        requires
            old(self).wf(),
        ensures
            final(self).wf(),
            match r {
                Ok(fx) => shuffle_ok(m@) && final(self)@ == ControllerState {
                    cells: shuffled(old(self)@.cells, m@),
                    end_of_sequence: true,
                    ..old(self)@
                } && fx@ == shuffle_effects(old(self)@.cells, m@),
                Err(e) => !shuffle_ok(m@) && e == ViewError::BadShuffle && final(self)@ == old(self)@,
            },
    {
        if !shuffle_valid(m) {
            return Err(ViewError::BadShuffle);
        }
        let ghost c0 = self@.cells;
        let mut work = copy_cells(&self.cells);
        let mut fx: Vec<Effect> = Vec::new();
        let mut k: usize = 0;
        while k < m.len()
            invariant
                self.wf(),
                self@ == old(self)@,
                c0 == self@.cells,
                shuffle_ok(m@),
                k <= m@.len(),
                work@ == shuffled(c0, m@.take(k as int)),
                work@.len() == SLOT_COUNT,
                fx@ == shuffle_effects(c0, m@.take(k as int)),
            decreases m.len() - k,
        {
            let mv = m[k];
            proof {
                assert(m@.take(k + 1).drop_last() =~= m@.take(k as int));
                assert(m@.take(k + 1).last() == mv);
                assert(on_board(m@[k as int].from) && on_board(m@[k as int].to));
            }
            let g = self.cells[mv.from.index()];
            if mv.from != mv.to && g.is_some() && self.cells[mv.to.index()].is_some() {
                fx.push(
                    Effect::Travel {
                        gem: g.unwrap().id,
                        from: mv.from,
                        to: mv.to,
                        motion: Motion::Shuffle,
                    },
                );
            }
            work.set(mv.to.index(), g);
            k = k + 1;
        }
        assert(m@.take(m@.len() as int) =~= m@);
        proof {
            lemma_shuffled_wf(c0, self@.next_gem, m@);
        }
        self.cells = work;
        self.end_of_sequence = true;
        Ok(fx)
    }

    /// Applies one board event to the view of the board, and says what the
    /// presentation has to do. An event that does not fit the view changes
    /// nothing and is reported.
    pub fn apply_event(&mut self, ev: BoardEvent) -> (r: Result<Vec<Effect>, ViewError>)
        requires
            old(self).wf(),
        ensures
            final(self).wf(),
            match r {
                Ok(fx) => event_ok(old(self)@, ev) && final(self)@ == after_event(old(self)@, ev)
                    && event_effects(old(self)@, ev, fx@),
                Err(e) => !event_ok(old(self)@, ev) && e == event_error(old(self)@, ev)
                    && final(self)@ == old(self)@,
            },
    {
        match ev {
            BoardEvent::Swapped(a, b) => {
                let (ga, gb) = gems_of_pair(&self.cells, a, b)?;
                proof {
                    lemma_swap_wf(self@.cells, self@.next_gem, a, b);
                }
                swap_in(&mut self.cells, a, b);
                self.change_turns = true;
                Ok(
                    vec![
                        Effect::Travel { gem: ga.id, from: a, to: b, motion: Motion::Swap },
                        Effect::Travel { gem: gb.id, from: b, to: a, motion: Motion::Swap },
                    ],
                )
            },
            BoardEvent::FailedSwap(a, b) => {
                let (ga, gb) = gems_of_pair(&self.cells, a, b)?;
                self.phase = Phase::AwaitingMove;
                Ok(
                    vec![
                        Effect::Travel { gem: ga.id, from: a, to: b, motion: Motion::Bounce },
                        Effect::Travel { gem: gb.id, from: b, to: a, motion: Motion::Bounce },
                    ],
                )
            },
            BoardEvent::Dropped(m) => self.apply_drops(&m),
            BoardEvent::Popped(p) => {
                if !p.is_on_board() {
                    return Err(ViewError::OffBoard(p));
                }
                let g = match self.cells[p.index()] {
                    Some(g) => g,
                    None => {
                        return Err(ViewError::Vacant(p));
                    },
                };
                if self.turn == Participant::Player {
                    self.player.credit(g.typ);
                } else {
                    self.opponent.credit(g.typ);
                }
                proof {
                    lemma_clear_wf(self@.cells, self@.next_gem, p);
                }
                self.cells.set(p.index(), None);
                let fx = vec![Effect::Vanish { gem: g.id }];
                assert(fx@ =~= seq![Effect::Vanish { gem: g.id }]);
                Ok(fx)
            },
            BoardEvent::Spawned(sp) => {
                let fx = self.place_gems(&sp, true)?;
                self.end_of_sequence = true;
                Ok(fx)
            },
            BoardEvent::Matched(ps) => {
                let cells = dedup_positions(&ps);
                Ok(vec![Effect::Send(BoardCommand::Pop(cells))])
            },
            BoardEvent::Shuffled(m) => self.apply_shuffle(&m),
        }
    }

    /// Places the gems of a board's starting layout, each in its cell with
    /// no animation; an entry that does not fit is reported and nothing is
    /// placed.
    pub fn populate(&mut self, layout: &Vec<Spawn>) -> (r: Result<Vec<Effect>, ViewError>)
        requires
            old(self).wf(),
        ensures
            final(self).wf(),
            match r {
                Ok(fx) => old(self)@.next_gem + layout@.len() <= u64::MAX && spawns_ok(
                    old(self)@.cells,
                    old(self)@.next_gem,
                    layout@,
                ) && final(self)@ == ControllerState {
                    cells: spawned(old(self)@.cells, old(self)@.next_gem, layout@),
                    next_gem: old(self)@.next_gem + layout@.len(),
                    ..old(self)@
                } && fx@ == spawn_effects(old(self)@.next_gem, layout@, false),
                Err(e) => !(old(self)@.next_gem + layout@.len() <= u64::MAX && spawns_ok(
                    old(self)@.cells,
                    old(self)@.next_gem,
                    layout@,
                )) && e == (if old(self)@.next_gem + layout@.len() > u64::MAX {
                    ViewError::HandlesExhausted
                } else {
                    spawns_error(old(self)@.cells, old(self)@.next_gem, layout@)
                }) && final(self)@ == old(self)@,
            },
    {
        self.place_gems(layout, false)
    }
}

impl TurnController {
    /// End-of-tick step, once the board has been drained and nothing moves.
    /// `has_moves` says whether the board has a matching move; it matters
    /// only when the turn passes.
    pub fn settle(&mut self, has_moves: bool) -> (r: Option<BoardCommand>)
        requires
            old(self).wf(),
        ensures
            final(self).wf(),
            final(self)@ == after_settle(old(self)@, has_moves),
            r == settle_command(old(self)@, has_moves),
    {
        if !self.end_of_sequence {
            return None;
        }
        self.end_of_sequence = false;
        self.phase = Phase::AwaitingMove;
        if !self.change_turns {
            return None;
        }
        self.change_turns = false;
        self.turn = self.turn.other();
        if has_moves {
            None
        } else {
            self.player.clear();
            self.opponent.clear();
            self.phase = Phase::Resolving;
            Some(BoardCommand::Shuffle)
        }
    }

    /// Whether a gem other than the selected one is among `moving`.
    fn blocked_by(&self, moving: &Vec<u64>) -> (r: bool)
        requires
            self.wf(),
        ensures
            r == input_blocked(self@, moving@),
    {
        let sel = self.selected_gem();
        let mut k: usize = 0;
        while k < moving.len()
            invariant
                self.wf(),
                sel == selected_gem(self@),
                k <= moving@.len(),
                forall|l: int| 0 <= l < k ==> Some(#[trigger] moving@[l]) == sel,
            decreases moving.len() - k,
        {
            let blocked = match sel {
                Some(g) => moving[k] != g,
                None => true,
            };
            if blocked {
                assert(Some(moving@[k as int]) != selected_gem(self@));
                return true;
            }
            k = k + 1;
        }
        false
    }

    /// A press of the primary button on cell `hit` (`None`: on no cell),
    /// while the gems `moving` are still animated.
    ///
    /// Nothing happens unless the player may act and no gem but the selected
    /// one moves. A click on no cell, or on the selected cell, clears the
    /// selection; with nothing selected the cell becomes selected; with
    /// another cell selected the selection clears, and if the two cells are
    /// adjacent a swap is requested and the board starts resolving.
    pub fn click(&mut self, hit: Option<Pos>, moving: &Vec<u64>) -> (r: Option<BoardCommand>)
        requires
            old(self).wf(),
        ensures
            final(self).wf(),
            final(self)@ == after_click(old(self)@, hit, moving@),
            r == click_command(old(self)@, hit, moving@),
    {
        if self.phase != Phase::AwaitingMove || self.turn != Participant::Player || self.blocked_by(
            moving,
        ) {
            return None;
        }
        match hit {
            None => {
                self.selected = None;
                None
            },
            Some(h) => {
                if !h.is_on_board() {
                    self.selected = None;
                    return None;
                }
                match self.selected {
                    None => {
                        self.selected = Some(h);
                        None
                    },
                    Some(p) => {
                        self.selected = None;
                        if p.cardinally_adjacent(&h) {
                            self.phase = Phase::Resolving;
                            Some(BoardCommand::Swap(p, h))
                        } else {
                            None
                        }
                    },
                }
            },
        }
    }

    /// The opponent's move: when it is the opponent's turn and a move is
    /// awaited, the swap `moves[pick % moves.len()]` is requested and the
    /// board starts resolving. `moves` are the board's matching moves and
    /// `pick` a random number.
    pub fn opponent_move(&mut self, moves: &Vec<Move>, pick: usize) -> (r: Option<BoardCommand>)
        requires
            old(self).wf(),
        ensures
            final(self).wf(),
            opponent_ready(old(self)@) && moves@.len() > 0 ==> {
                let m = moves@[pick as int % moves@.len() as int];
                &&& final(self)@ == ControllerState { phase: Phase::Resolving, ..old(self)@ }
                &&& r == Some(BoardCommand::Swap(m.from, m.to))
            },
            !(opponent_ready(old(self)@) && moves@.len() > 0) ==> final(self)@ == old(self)@
                && r.is_none(),
    {
        if self.phase != Phase::AwaitingMove || self.turn != Participant::Opponent || moves.len()
            == 0 {
            return None;
        }
        let m = moves[pick % moves.len()];
        self.phase = Phase::Resolving;
        Some(BoardCommand::Swap(m.from, m.to))
    }

    /// The side whose turn it is uses a skill. Only while a move is awaited:
    /// the bamboozle requests a shuffle and the board starts resolving; the
    /// heal pays its cost if the balance allows and has no other effect.
    pub fn use_skill(&mut self, skill: Skill) -> (r: Option<BoardCommand>)
        requires
            old(self).wf(),
        ensures
            final(self).wf(),
            final(self)@ == after_skill(old(self)@, skill),
            r == skill_command(old(self)@, skill),
    {
        if self.phase != Phase::AwaitingMove {
            return None;
        }
        match skill {
            Skill::Bamboozle => {
                self.phase = Phase::Resolving;
                Some(BoardCommand::Shuffle)
            },
            Skill::Heal => {
                if self.turn == Participant::Player {
                    self.player.pay(HEAL_KIND, HEAL_COST);
                } else {
                    self.opponent.pay(HEAL_KIND, HEAL_COST);
                }
                None
            },
        }
    }
}

/// A run of swap events only rearranges the gems among the cells: the
/// multiset of cell contents is the same before and after.
pub proof fn lemma_swap_events_permute(s: ControllerState, evs: Seq<BoardEvent>)
    requires
        state_wf(s),
        forall|k: int| 0 <= k < evs.len() ==> (#[trigger] evs[k]) is Swapped,
    ensures
        after_events(s, evs).cells.len() == s.cells.len(),
        after_events(s, evs).cells.to_multiset() == s.cells.to_multiset(),
    decreases evs.len(),
{
    if evs.len() > 0 {
        let w = evs.drop_last();
        assert forall|k: int| 0 <= k < w.len() implies (#[trigger] w[k]) is Swapped by {
            assert(w[k] == evs[k]);
        }
        lemma_swap_events_permute(s, w);
        let before = after_events(s, w);
        assert(evs[evs.len() - 1] is Swapped);
        if event_ok(before, evs.last()) {
            match evs.last() {
                BoardEvent::Swapped(a, b) => {
                    lemma_swap_permutes(before.cells, a, b);
                },
                _ => {},
            }
        }
    }
}

/// Events never change whose turn it is; the turn-passing mark is only set
/// by a swap event, and the end-of-cascade mark only by a spawn or a
/// shuffle event.
pub proof fn lemma_events_keep_turn(s: ControllerState, evs: Seq<BoardEvent>)
    ensures
        after_events(s, evs).turn == s.turn,
        after_events(s, evs).change_turns ==> s.change_turns || exists|k: int|
            0 <= k < evs.len() && (#[trigger] evs[k]) is Swapped,
        after_events(s, evs).end_of_sequence ==> s.end_of_sequence || exists|k: int|
            0 <= k < evs.len() && ((#[trigger] evs[k]) is Spawned || evs[k] is Shuffled),
    decreases evs.len(),
{
    if evs.len() > 0 {
        let w = evs.drop_last();
        lemma_events_keep_turn(s, w);
        let before = after_events(s, w);
        if before.change_turns && !s.change_turns {
            let k = choose|k: int| 0 <= k < w.len() && (#[trigger] w[k]) is Swapped;
            assert(evs[k] == w[k]);
        }
        if before.end_of_sequence && !s.end_of_sequence {
            let k = choose|k: int| 0 <= k < w.len() && ((#[trigger] w[k]) is Spawned || w[k] is Shuffled);
            assert(evs[k] == w[k]);
        }
        let last = evs.len() - 1;
        assert(evs[last] == evs.last());
    }
}

/// The turn passes only at a sequence boundary after a genuine swap: from a
/// state with no cascade under way, if the end-of-tick step after a run of
/// events hands the turn over, then the run held a swap event and a spawn or
/// shuffle event. It passes once: a second end-of-tick step keeps it.
pub proof fn lemma_turn_passes_after_swap(
    s: ControllerState,
    evs: Seq<BoardEvent>,
    has_moves: bool,
    has_moves_later: bool,
)
    requires
        !s.change_turns,
        !s.end_of_sequence,
    ensures
        after_events(s, evs).turn == s.turn,
        after_settle(after_events(s, evs), has_moves).turn != s.turn ==> {
            &&& exists|k: int| 0 <= k < evs.len() && (#[trigger] evs[k]) is Swapped
            &&& exists|k: int| 0 <= k < evs.len() && ((#[trigger] evs[k]) is Spawned || evs[k] is Shuffled)
        },
        after_settle(after_settle(after_events(s, evs), has_moves), has_moves_later).turn
            == after_settle(after_events(s, evs), has_moves).turn,
{
    lemma_events_keep_turn(s, evs);
}

/// A click on the cell that is already selected clears the selection,
/// requests nothing and changes nothing else.
pub proof fn lemma_click_selected_clears(s: ControllerState, h: Pos, moving: Seq<u64>)
    requires
        state_wf(s),
        accepts_input(s),
        !input_blocked(s, moving),
        s.selected == Some(h),
    ensures
        after_click(s, Some(h), moving) == (ControllerState { selected: None, ..s }),
        click_command(s, Some(h), moving).is_none(),
{
}

/// From no selection, two clicks on the same cell with nothing moving come
/// back to the starting state, and neither requests anything.
pub proof fn lemma_click_twice_round_trip(s: ControllerState, h: Pos)
    requires
        state_wf(s),
        accepts_input(s),
        s.selected.is_none(),
        on_board(h),
    ensures
        after_click(s, Some(h), Seq::empty()).selected == Some(h),
        after_click(after_click(s, Some(h), Seq::empty()), Some(h), Seq::empty()) == s,
        click_command(s, Some(h), Seq::empty()).is_none(),
        click_command(after_click(s, Some(h), Seq::empty()), Some(h), Seq::empty()).is_none(),
{
}

/// When the turn passes and the board has no matching move, both ledgers
/// are emptied and exactly one shuffle is requested.
pub proof fn lemma_stalemate_reshuffles(s: ControllerState)
    requires
        s.end_of_sequence,
        s.change_turns,
    ensures
        after_settle(s, false).turn == other(s.turn),
        after_settle(s, false).player == empty_balances(),
        after_settle(s, false).opponent == empty_balances(),
        settle_command(s, false) == Some(BoardCommand::Shuffle),
{
}

/// A refused swap consumes no turn: it keeps the cells and the turn, gives
/// input back at once, and the end-of-tick step after it does not pass the
/// turn.
pub proof fn lemma_failed_swap_keeps_turn(s: ControllerState, a: Pos, b: Pos, has_moves: bool)
    requires
        !s.change_turns,
        event_ok(s, BoardEvent::FailedSwap(a, b)),
    ensures
        after_event(s, BoardEvent::FailedSwap(a, b)).cells == s.cells,
        after_event(s, BoardEvent::FailedSwap(a, b)).turn == s.turn,
        after_event(s, BoardEvent::FailedSwap(a, b)).phase == Phase::AwaitingMove,
        after_settle(after_event(s, BoardEvent::FailedSwap(a, b)), has_moves).turn == s.turn,
{
}

/// Popping a gem of a paying kind credits exactly one unit of it to the
/// side to move (while its balance has room), and changes no other balance.
pub proof fn lemma_pop_credits_mover(s: ControllerState, p: Pos)
    requires
        state_wf(s),
        occupied(s.cells, p),
        pays_resource(gem_at(s.cells, p).typ),
        balances(s, s.turn)[type_index(gem_at(s.cells, p).typ) as int] < u32::MAX,
    ensures
        ({
            let t = type_index(gem_at(s.cells, p).typ) as int;
            let after = after_event(s, BoardEvent::Popped(p));
            &&& after.cells[cell_index(p)].is_none()
            &&& balances(after, s.turn)[t] == balances(s, s.turn)[t] + 1
            &&& forall|k: int| 0 <= k < GEM_KINDS && k != t ==> #[trigger] balances(after, s.turn)[k]
                == balances(s, s.turn)[k]
            &&& balances(after, other(s.turn)) == balances(s, other(s.turn))
        }),
{
}

/// When a cascade begun by a swap ends with a spawn, the next end-of-tick
/// step passes the turn and awaits a move (the board having a matching
/// move).
pub proof fn lemma_spawn_after_swap_passes_turn(s: ControllerState, ev: BoardEvent)
    requires
        s.change_turns,
        ev is Spawned,
        event_ok(s, ev),
    ensures
        after_event(s, ev).turn == s.turn,
        after_settle(after_event(s, ev), true).turn == other(s.turn),
        after_settle(after_event(s, ev), true).phase == Phase::AwaitingMove,
{
}

/// A click on a cell that is not adjacent to the selected one requests
/// nothing, clears the selection and keeps a move awaited.
pub proof fn lemma_click_far_clears(s: ControllerState, a: Pos, b: Pos, moving: Seq<u64>)
    requires
        accepts_input(s),
        !input_blocked(s, moving),
        s.selected == Some(a),
        !adjacent(a, b),
    ensures
        after_click(s, Some(b), moving) == (ControllerState { selected: None, ..s }),
        click_command(s, Some(b), moving).is_none(),
{
}

} // verus!
