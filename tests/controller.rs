use match3_rpg::board::{neighbour_swaps, BoardCommand, BoardEvent, Effect, Motion, Move, Spawn, ViewError};
use match3_rpg::controller::{Phase, Skill, TurnController};
use match3_rpg::gem::GemType;
use match3_rpg::ledger::Participant;
use match3_rpg::position::Pos;

fn p(x: u32, y: u32) -> Pos {
    Pos::new(x, y)
}

/// A fixed 8x8 layout in which cells (0,0), (1,0) and (2,1) hold rubies and
/// cell (2,0) an emerald.
fn layout() -> Vec<Spawn> {
    let mut v = Vec::new();
    for y in 0..8u32 {
        for x in 0..8u32 {
            let mut i = (x + 2 * y) % 6;
            if (x, y) == (0, 0) || (x, y) == (1, 0) || (x, y) == (2, 1) {
                i = 0;
            } else if i == 0 {
                i = 3;
            }
            if (x, y) == (2, 0) {
                i = 1;
            }
            v.push(Spawn { pos: p(x, y), typ: GemType::from_index(i) });
        }
    }
    v
}

fn game() -> TurnController {
    let mut c = TurnController::new();
    let fx = c.populate(&layout()).unwrap();
    assert_eq!(fx.len(), 64);
    c
}

fn no_moving() -> Vec<u64> {
    Vec::new()
}

#[test]
fn populate_places_every_gem_without_animation() {
    let c = game();
    assert_eq!(c.gem_in(p(0, 0)).typ, GemType::Ruby);
    assert_eq!(c.gem_in(p(2, 0)).typ, GemType::Emerald);
    assert_eq!(c.gem_in(p(7, 7)).id, 63);
    let mut again = TurnController::new();
    let fx = again.populate(&layout()).unwrap();
    assert_eq!(fx[9], Effect::Appear { gem: 9, typ: GemType::Topaz, at: p(1, 1), falling: false });
    assert_eq!(c.turn(), Participant::Player);
    assert_eq!(c.phase(), Phase::AwaitingMove);
}

#[test]
fn populate_refuses_a_cell_twice() {
    let mut c = TurnController::new();
    let sp = vec![Spawn { pos: p(1, 1), typ: GemType::Ruby }, Spawn { pos: p(1, 1), typ: GemType::Topaz }];
    assert_eq!(c.populate(&sp), Err(ViewError::Occupied(p(1, 1))));
    assert_eq!(c.gem_at(p(1, 1)), None);
}

#[test]
fn adjacent_swap_resolves_into_a_turn_change() {
    let mut c = game();
    let ruby = c.gem_in(p(2, 1)).id;
    let emerald = c.gem_in(p(2, 0)).id;
    assert_eq!(c.click(Some(p(2, 1)), &no_moving()), None);
    assert_eq!(c.selected(), Some(p(2, 1)));
    assert_eq!(c.click(Some(p(2, 0)), &no_moving()), Some(BoardCommand::Swap(p(2, 1), p(2, 0))));
    assert_eq!(c.phase(), Phase::Resolving);
    assert_eq!(c.selected(), None);

    let fx = c.apply_event(BoardEvent::Swapped(p(2, 1), p(2, 0))).unwrap();
    assert_eq!(
        fx,
        vec![
            Effect::Travel { gem: ruby, from: p(2, 1), to: p(2, 0), motion: Motion::Swap },
            Effect::Travel { gem: emerald, from: p(2, 0), to: p(2, 1), motion: Motion::Swap },
        ]
    );
    assert_eq!(c.settle(true), None);
    assert_eq!(c.turn(), Participant::Player);

    let matched = vec![p(0, 0), p(1, 0), p(2, 0)];
    let fx = c.apply_event(BoardEvent::Matched(matched.clone())).unwrap();
    assert_eq!(fx, vec![Effect::Send(BoardCommand::Pop(matched.clone()))]);

    for cell in matched.iter() {
        let id = c.gem_in(*cell).id;
        let fx = c.apply_event(BoardEvent::Popped(*cell)).unwrap();
        assert_eq!(fx, vec![Effect::Vanish { gem: id }]);
        assert_eq!(c.gem_at(*cell), None);
        assert_eq!(c.settle(true), None);
        assert_eq!(c.turn(), Participant::Player);
    }
    assert_eq!(c.balance(Participant::Player, GemType::Ruby), 3);
    assert_eq!(c.balance(Participant::Opponent, GemType::Ruby), 0);

    let refill = vec![
        Spawn { pos: p(0, 0), typ: GemType::Topaz },
        Spawn { pos: p(1, 0), typ: GemType::Diamond },
        Spawn { pos: p(2, 0), typ: GemType::Sapphire },
    ];
    let fx = c.apply_event(BoardEvent::Spawned(refill)).unwrap();
    assert_eq!(fx.len(), 3);
    assert_eq!(fx[0], Effect::Appear { gem: 64, typ: GemType::Topaz, at: p(0, 0), falling: true });
    assert_eq!(fx[2], Effect::Appear { gem: 66, typ: GemType::Sapphire, at: p(2, 0), falling: true });
    assert_eq!(c.gem_in(p(1, 0)).typ, GemType::Diamond);
    assert_eq!(c.turn(), Participant::Player);
    assert_eq!(c.settle(true), None);
    assert_eq!(c.turn(), Participant::Opponent);
    assert_eq!(c.phase(), Phase::AwaitingMove);
}

#[test]
fn turn_flips_once_after_the_cascade_ends() {
    let mut c = TurnController::new();
    let mut sp = layout();
    sp.retain(|s| s.pos != p(5, 7));
    c.populate(&sp).unwrap();
    let events = vec![
        BoardEvent::Swapped(p(0, 1), p(0, 2)),
        BoardEvent::Dropped(vec![Move { from: p(5, 6), to: p(5, 7) }]),
        BoardEvent::Popped(p(3, 3)),
        BoardEvent::Spawned(vec![
            Spawn { pos: p(5, 6), typ: GemType::Ruby },
            Spawn { pos: p(3, 3), typ: GemType::Ruby },
        ]),
    ];
    let mut flips = 0;
    for (i, ev) in events.into_iter().enumerate() {
        c.apply_event(ev).unwrap();
        let before = c.turn();
        c.settle(true);
        if c.turn() != before {
            flips += 1;
            assert_eq!(i, 3);
        }
    }
    assert_eq!(flips, 1);
    assert_eq!(c.turn(), Participant::Opponent);
    c.settle(true);
    assert_eq!(c.turn(), Participant::Opponent);
}

#[test]
fn failed_swap_gives_input_back_and_keeps_the_turn() {
    let mut c = game();
    let a = c.gem_in(p(4, 4)).id;
    let b = c.gem_in(p(5, 4)).id;
    c.click(Some(p(4, 4)), &no_moving());
    assert!(c.click(Some(p(5, 4)), &no_moving()).is_some());
    assert_eq!(c.phase(), Phase::Resolving);
    let fx = c.apply_event(BoardEvent::FailedSwap(p(4, 4), p(5, 4))).unwrap();
    assert_eq!(
        fx,
        vec![
            Effect::Travel { gem: a, from: p(4, 4), to: p(5, 4), motion: Motion::Bounce },
            Effect::Travel { gem: b, from: p(5, 4), to: p(4, 4), motion: Motion::Bounce },
        ]
    );
    assert_eq!(c.phase(), Phase::AwaitingMove);
    assert_eq!(c.gem_in(p(4, 4)).id, a);
    assert_eq!(c.settle(true), None);
    assert_eq!(c.turn(), Participant::Player);
}

#[test]
fn clicking_the_selected_gem_again_deselects() {
    let mut c = game();
    assert_eq!(c.click(Some(p(3, 3)), &no_moving()), None);
    assert_eq!(c.selected(), Some(p(3, 3)));
    let own = c.selected_gem().unwrap();
    // the selected gem's own animation does not block the click
    assert_eq!(c.click(Some(p(3, 3)), &vec![own]), None);
    assert_eq!(c.selected(), None);
    assert_eq!(c.phase(), Phase::AwaitingMove);
}

#[test]
fn non_adjacent_second_click_only_clears_the_selection() {
    let mut c = game();
    c.click(Some(p(1, 1)), &no_moving());
    assert_eq!(c.click(Some(p(3, 1)), &no_moving()), None);
    assert_eq!(c.selected(), None);
    assert_eq!(c.phase(), Phase::AwaitingMove);
    c.click(Some(p(1, 1)), &no_moving());
    assert_eq!(c.click(Some(p(2, 2)), &no_moving()), None);
    assert_eq!(c.selected(), None);
}

#[test]
fn clicks_are_ignored_while_other_gems_move() {
    let mut c = game();
    let other = c.gem_in(p(6, 6)).id;
    assert_eq!(c.click(Some(p(1, 1)), &vec![other]), None);
    assert_eq!(c.selected(), None);
    c.click(Some(p(1, 1)), &no_moving());
    assert_eq!(c.click(Some(p(1, 2)), &vec![other]), None);
    assert_eq!(c.selected(), Some(p(1, 1)));
}

#[test]
fn a_click_on_no_cell_clears_the_selection() {
    let mut c = game();
    c.click(Some(p(1, 1)), &no_moving());
    assert_eq!(c.click(None, &no_moving()), None);
    assert_eq!(c.selected(), None);
    c.click(Some(p(1, 1)), &no_moving());
    assert_eq!(c.click(Some(p(9, 1)), &no_moving()), None);
    assert_eq!(c.selected(), None);
}

#[test]
fn input_waits_while_resolving_and_on_the_opponents_turn() {
    let mut c = game();
    c.click(Some(p(1, 1)), &no_moving());
    c.click(Some(p(1, 2)), &no_moving());
    assert_eq!(c.click(Some(p(4, 4)), &no_moving()), None);
    assert_eq!(c.selected(), None);
    c.apply_event(BoardEvent::Swapped(p(1, 1), p(1, 2))).unwrap();
    c.apply_event(BoardEvent::Shuffled(Vec::new())).unwrap();
    c.settle(true);
    assert_eq!(c.turn(), Participant::Opponent);
    assert_eq!(c.click(Some(p(4, 4)), &no_moving()), None);
    assert_eq!(c.selected(), None);
}

#[test]
fn drops_move_gems_down_in_order() {
    let mut c = TurnController::new();
    let mut sp = layout();
    sp.retain(|s| s.pos != p(0, 7) && s.pos != p(0, 6));
    c.populate(&sp).unwrap();
    let g5 = c.gem_in(p(0, 5)).id;
    let g4 = c.gem_in(p(0, 4)).id;
    let fx = c
        .apply_event(BoardEvent::Dropped(vec![Move { from: p(0, 5), to: p(0, 7) }, Move { from: p(0, 4), to: p(0, 6) }]))
        .unwrap();
    assert_eq!(
        fx,
        vec![
            Effect::Travel { gem: g5, from: p(0, 5), to: p(0, 7), motion: Motion::Fall },
            Effect::Travel { gem: g4, from: p(0, 4), to: p(0, 6), motion: Motion::Fall },
        ]
    );
    assert_eq!(c.gem_in(p(0, 7)).id, g5);
    assert_eq!(c.gem_in(p(0, 6)).id, g4);
    assert_eq!(c.gem_at(p(0, 5)), None);
    assert_eq!(c.gem_at(p(0, 4)), None);
}

#[test]
fn a_drop_from_an_empty_cell_is_refused_whole() {
    let mut c = TurnController::new();
    let mut sp = layout();
    sp.retain(|s| s.pos != p(0, 7));
    c.populate(&sp).unwrap();
    let g = c.gem_in(p(0, 6)).id;
    let bad = vec![Move { from: p(0, 6), to: p(0, 7) }, Move { from: p(0, 6), to: p(0, 7) }];
    assert_eq!(c.apply_event(BoardEvent::Dropped(bad)), Err(ViewError::Vacant(p(0, 6))));
    assert_eq!(c.gem_in(p(0, 6)).id, g);
    assert_eq!(c.gem_at(p(0, 7)), None);
    let off = vec![Move { from: p(0, 6), to: p(0, 8) }];
    assert_eq!(c.apply_event(BoardEvent::Dropped(off)), Err(ViewError::OffBoard(p(0, 8))));
}

#[test]
fn events_on_missing_gems_are_reported() {
    let mut c = TurnController::new();
    assert_eq!(c.apply_event(BoardEvent::Popped(p(1, 1))), Err(ViewError::Vacant(p(1, 1))));
    assert_eq!(c.apply_event(BoardEvent::Popped(p(1, 9))), Err(ViewError::OffBoard(p(1, 9))));
    assert_eq!(c.apply_event(BoardEvent::Swapped(p(1, 1), p(1, 2))), Err(ViewError::Vacant(p(1, 1))));
    assert_eq!(c.apply_event(BoardEvent::FailedSwap(p(8, 1), p(1, 2))), Err(ViewError::OffBoard(p(8, 1))));
    let mut g = game();
    g.apply_event(BoardEvent::Popped(p(1, 2))).unwrap();
    assert_eq!(g.apply_event(BoardEvent::Swapped(p(1, 1), p(1, 2))), Err(ViewError::Vacant(p(1, 2))));
    assert_eq!(
        g.apply_event(BoardEvent::Spawned(vec![Spawn { pos: p(1, 1), typ: GemType::Ruby }])),
        Err(ViewError::Occupied(p(1, 1)))
    );
}

#[test]
fn pops_credit_the_side_to_move_except_skulls() {
    let mut c = TurnController::new();
    let sp = vec![
        Spawn { pos: p(0, 0), typ: GemType::Skull },
        Spawn { pos: p(1, 0), typ: GemType::Emerald },
        Spawn { pos: p(2, 0), typ: GemType::Emerald },
    ];
    c.populate(&sp).unwrap();
    c.apply_event(BoardEvent::Popped(p(0, 0))).unwrap();
    c.apply_event(BoardEvent::Popped(p(1, 0))).unwrap();
    assert_eq!(c.balance(Participant::Player, GemType::Skull), 0);
    assert_eq!(c.balance(Participant::Player, GemType::Emerald), 1);
    c.apply_event(BoardEvent::Swapped(p(2, 0), p(2, 0))).unwrap();
    c.apply_event(BoardEvent::Spawned(Vec::new())).unwrap();
    c.settle(true);
    assert_eq!(c.turn(), Participant::Opponent);
    c.apply_event(BoardEvent::Popped(p(2, 0))).unwrap();
    assert_eq!(c.balance(Participant::Opponent, GemType::Emerald), 1);
    assert_eq!(c.balance(Participant::Player, GemType::Emerald), 1);
}

#[test]
fn matches_are_sent_back_once_each() {
    let mut c = game();
    let fx = c
        .apply_event(BoardEvent::Matched(vec![p(0, 0), p(1, 0), p(0, 0), p(2, 0), p(1, 0)]))
        .unwrap();
    assert_eq!(fx, vec![Effect::Send(BoardCommand::Pop(vec![p(0, 0), p(1, 0), p(2, 0)]))]);
    let fx = c.apply_event(BoardEvent::Matched(Vec::new())).unwrap();
    assert_eq!(fx, vec![Effect::Send(BoardCommand::Pop(Vec::new()))]);
}

#[test]
fn a_shuffle_rearranges_the_gems() {
    let mut c = game();
    let a = c.gem_in(p(0, 0)).id;
    let b = c.gem_in(p(1, 0)).id;
    let d = c.gem_in(p(2, 0)).id;
    let moves = vec![
        Move { from: p(0, 0), to: p(1, 0) },
        Move { from: p(1, 0), to: p(2, 0) },
        Move { from: p(2, 0), to: p(0, 0) },
        Move { from: p(5, 5), to: p(5, 5) },
    ];
    let fx = c.apply_event(BoardEvent::Shuffled(moves)).unwrap();
    assert_eq!(fx.len(), 3);
    assert_eq!(fx[0], Effect::Travel { gem: a, from: p(0, 0), to: p(1, 0), motion: Motion::Shuffle });
    assert_eq!(c.gem_in(p(1, 0)).id, a);
    assert_eq!(c.gem_in(p(2, 0)).id, b);
    assert_eq!(c.gem_in(p(0, 0)).id, d);
}

#[test]
fn a_shuffle_that_is_no_rearrangement_is_refused() {
    let mut c = game();
    let a = c.gem_in(p(0, 0)).id;
    let dup_target = vec![Move { from: p(0, 0), to: p(1, 0) }, Move { from: p(1, 0), to: p(1, 0) }];
    assert_eq!(c.apply_event(BoardEvent::Shuffled(dup_target)), Err(ViewError::BadShuffle));
    let dup_source = vec![Move { from: p(0, 0), to: p(1, 0) }, Move { from: p(0, 0), to: p(0, 0) }];
    assert_eq!(c.apply_event(BoardEvent::Shuffled(dup_source)), Err(ViewError::BadShuffle));
    let open_chain = vec![Move { from: p(0, 0), to: p(1, 0) }];
    assert_eq!(c.apply_event(BoardEvent::Shuffled(open_chain)), Err(ViewError::BadShuffle));
    let off = vec![Move { from: p(0, 9), to: p(0, 9) }];
    assert_eq!(c.apply_event(BoardEvent::Shuffled(off)), Err(ViewError::BadShuffle));
    assert_eq!(c.gem_in(p(0, 0)).id, a);
}

#[test]
fn stalemate_clears_both_ledgers_and_reshuffles_once() {
    let mut c = game();
    c.apply_event(BoardEvent::Popped(p(0, 0))).unwrap();
    c.apply_event(BoardEvent::Swapped(p(3, 3), p(3, 4))).unwrap();
    c.apply_event(BoardEvent::Spawned(vec![Spawn { pos: p(0, 0), typ: GemType::Ruby }])).unwrap();
    assert_eq!(c.balance(Participant::Player, GemType::Ruby), 1);
    assert_eq!(c.settle(false), Some(BoardCommand::Shuffle));
    assert_eq!(c.turn(), Participant::Opponent);
    assert_eq!(c.balance(Participant::Player, GemType::Ruby), 0);
    assert_eq!(c.phase(), Phase::Resolving);
    c.apply_event(BoardEvent::Shuffled(Vec::new())).unwrap();
    assert_eq!(c.settle(false), None);
    assert_eq!(c.turn(), Participant::Opponent);
    assert_eq!(c.phase(), Phase::AwaitingMove);
}

#[test]
fn the_opponent_plays_the_picked_move() {
    let mut c = game();
    let moves = vec![Move { from: p(0, 0), to: p(0, 1) }, Move { from: p(4, 4), to: p(5, 4) }];
    assert_eq!(c.opponent_move(&moves, 1), None);
    c.apply_event(BoardEvent::Swapped(p(3, 3), p(3, 4))).unwrap();
    c.apply_event(BoardEvent::Shuffled(Vec::new())).unwrap();
    c.settle(true);
    assert_eq!(c.opponent_move(&Vec::new(), 0), None);
    assert_eq!(c.opponent_move(&moves, 3), Some(BoardCommand::Swap(p(4, 4), p(5, 4))));
    assert_eq!(c.phase(), Phase::Resolving);
    assert_eq!(c.opponent_move(&moves, 0), None);
}

#[test]
fn skills_need_an_awaited_move() {
    let mut c = game();
    assert_eq!(c.use_skill(Skill::Bamboozle), Some(BoardCommand::Shuffle));
    assert_eq!(c.phase(), Phase::Resolving);
    assert_eq!(c.use_skill(Skill::Bamboozle), None);
    c.apply_event(BoardEvent::Shuffled(Vec::new())).unwrap();
    c.settle(true);
    assert_eq!(c.turn(), Participant::Player);
    assert_eq!(c.phase(), Phase::AwaitingMove);
}

#[test]
fn heal_pays_three_amethysts_when_it_can() {
    let mut c = TurnController::new();
    let sp: Vec<Spawn> = (0..4u32).map(|x| Spawn { pos: p(x, 0), typ: GemType::Amethyst }).collect();
    c.populate(&sp).unwrap();
    for x in 0..2u32 {
        c.apply_event(BoardEvent::Popped(p(x, 0))).unwrap();
    }
    assert_eq!(c.use_skill(Skill::Heal), None);
    assert_eq!(c.balance(Participant::Player, GemType::Amethyst), 2);
    for x in 2..4u32 {
        c.apply_event(BoardEvent::Popped(p(x, 0))).unwrap();
    }
    assert_eq!(c.use_skill(Skill::Heal), None);
    assert_eq!(c.balance(Participant::Player, GemType::Amethyst), 1);
    assert_eq!(c.phase(), Phase::AwaitingMove);
}

#[test]
fn swaps_only_rearrange_the_gems() {
    let mut c = game();
    let ids = |c: &TurnController| {
        let mut v: Vec<u64> = Vec::new();
        for y in 0..8u32 {
            for x in 0..8u32 {
                v.push(c.gem_in(p(x, y)).id);
            }
        }
        v.sort();
        v
    };
    let before = ids(&c);
    let a = c.gem_in(p(0, 0)).id;
    for (from, to) in [(p(0, 0), p(1, 0)), (p(1, 0), p(1, 1)), (p(6, 6), p(6, 7)), (p(1, 1), p(1, 1))] {
        c.apply_event(BoardEvent::Swapped(from, to)).unwrap();
    }
    assert_eq!(ids(&c), before);
    assert_eq!(c.gem_in(p(1, 1)).id, a);
}

#[test]
fn every_neighbouring_pair_is_a_candidate_once() {
    let all = neighbour_swaps();
    assert_eq!(all.len(), 112);
    assert_eq!(all[0], Move { from: p(0, 0), to: p(1, 0) });
    assert_eq!(all[1], Move { from: p(0, 0), to: p(0, 1) });
    assert!(all.contains(&Move { from: p(6, 7), to: p(7, 7) }));
    assert!(all.contains(&Move { from: p(7, 6), to: p(7, 7) }));
    for (i, m) in all.iter().enumerate() {
        assert!(m.from.cardinally_adjacent(&m.to));
        assert!(m.to.is_on_board());
        assert!(!all[i + 1..].contains(m));
    }
}
