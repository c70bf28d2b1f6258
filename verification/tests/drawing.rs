use std::sync::mpsc::channel;
use tetra_attack::board::Board;
use tetra_attack::cell::Cell;
use tetra_attack::chain::Chain;
use tetra_attack::enemy::Enemy;
use tetra_attack::game::{Game, GameState};
use tetra_attack::render::{DrawCommand, RenderData};

#[test]
fn screen_starts_at_1024_by_768_and_resizes() {
    let mut r = RenderData::new();
    assert_eq!((r.screen_width(), r.screen_height()), (1024, 768));
    r.resize(800, 600);
    assert_eq!((r.screen_width(), r.screen_height()), (800, 600));
}

#[test]
fn intro_frame() {
    let r = RenderData::new();
    let (tx, _rx) = channel();
    let g = Game::new(tx);
    let cmds = r.draw(GameState::Intro(0), &g);
    assert_eq!(
        cmds,
        vec![DrawCommand::ClearScreen, DrawCommand::Borders(64, 64, 448, 768), DrawCommand::Intro]
    );
    let cmds = r.draw(GameState::WaitHighScore, &g);
    assert_eq!(cmds.len(), 2);
}

#[test]
fn name_picker_frame() {
    let r = RenderData::new();
    let (tx, _rx) = channel();
    let mut g = Game::new(tx);
    g.letter_index = 1;
    g.cur_letter = 7;
    let cmds = r.draw(GameState::ShowHighScore(false, false, false), &g);
    assert_eq!(cmds[2], DrawCommand::NamePicker(1, 7));
}

#[test]
fn cursor_position_in_pixels() {
    let r = RenderData::new();
    let mut b = Board::new();
    assert_eq!(r.draw_cursor(&b), DrawCommand::CursorBlocks(192, 768, 64, 0));
    b.delta = 8_000_000;
    b.user_row = 3;
    assert_eq!(r.draw_cursor(&b), DrawCommand::CursorBlocks(192, 544, 64, 64));
    b.user_row = 11;
    assert_eq!(r.draw_cursor(&b), DrawCommand::CursorBlocks(192, 64, 64, 32));
}

#[test]
fn blocks_in_pixels() {
    let r = RenderData::new();
    let mut b = Board::new();
    b.delta = 4_000_000;
    *b.get_cell_mut(0, 0) = Cell::Single(3, None);
    *b.get_cell_mut(1, 2) = Cell::Single(4, Some(500_000));
    *b.get_cell_mut(5, 11) = Cell::Garbage(1000, None);
    let cmds = r.draw_board(&b);
    assert_eq!(
        cmds,
        vec![
            DrawCommand::Sprite(3, 0, 64, 752, 0, 0, 64, 16),
            DrawCommand::Sprite(4, 0, 128, 656, 0, 0, 64, 64),
            DrawCommand::Sprite(99, 0, 384, 48, 0, 16, 64, 48),
        ]
    );
}

#[test]
fn matched_blocks_flash_and_show_the_multiplier_once() {
    let r = RenderData::new();
    let mut b = Board::new();
    let mut ch = Chain::default();
    ch.inc();
    *b.get_cell_mut(0, 1) = Cell::QueuedDelete(2, 1, 0, 20_000, ch);
    *b.get_cell_mut(1, 1) = Cell::QueuedDelete(2, 1, 0, 10_000, ch);
    let cmds = r.draw_board(&b);
    assert_eq!(
        cmds,
        vec![
            DrawCommand::Sprite(2, 0, 64, 704, 0, 0, 64, 64),
            DrawCommand::Block(99, 64, 704, 64, 64),
            DrawCommand::Sprite(2, 0, 128, 704, 0, 0, 64, 64),
            DrawCommand::Multiplier(64, 704, 2),
        ]
    );
}

#[test]
fn counters_show_enemy_seconds_and_chain() {
    let r = RenderData::new();
    let mut b = Board::new();
    let e = Enemy::new();
    assert_eq!(r.draw_ui(&b, &e), vec![DrawCommand::EnemyUi(30)]);
    b.chain.inc();
    let mut e2 = Enemy::new();
    e2.countdown = -5;
    assert_eq!(
        r.draw_ui(&b, &e2),
        vec![DrawCommand::EnemyUi(0), DrawCommand::MultiplierUi(2)]
    );
}
