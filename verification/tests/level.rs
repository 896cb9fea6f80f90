use pacman::game_state::{GameState, Tile, COLS, ROWS};
use pacman::level::{chase_percent_for, count_pellets, place_cells};
use pacman::level_text::{chars_of, contains_part, is_space, level_of, line_codes, token_code};

fn lines(text: &[&str]) -> Vec<String> {
    text.iter().map(|l| l.to_string()).collect()
}

fn code_of(token: &str) -> u8 {
    let chars: Vec<char> = token.chars().collect();
    token_code(&chars, 0, chars.len())
}

#[test]
fn chars_of_gives_the_characters() {
    assert_eq!(chars_of("a1 é"), vec!['a', '1', ' ', 'é']);
    assert_eq!(chars_of(""), Vec::<char>::new());
}

#[test]
fn is_space_agrees_with_unicode_white_space() {
    for u in 0..=0x10ffffu32 {
        if let Some(c) = char::from_u32(u) {
            assert_eq!(is_space(c), c.is_whitespace(), "at {:x}", u);
        }
    }
}

#[test]
fn token_code_reads_one_to_nine() {
    for (token, code) in
        [("1", 1), ("2", 2), ("3", 3), ("4", 4), ("5", 5), ("6", 6), ("7", 7), ("8", 8), ("9", 9), ("0", 0)]
    {
        assert_eq!(code_of(token), code);
    }
}

#[test]
fn token_code_takes_a_plus_and_zeros() {
    assert_eq!(code_of("+7"), 7);
    assert_eq!(code_of("007"), 7);
    assert_eq!(code_of("+0009"), 9);
    assert_eq!(code_of("00000000000000000000000000000000000003"), 3);
}

#[test]
fn token_code_is_zero_for_all_else() {
    for token in [
        "", "+", "-", "-1", "-0", "10", "11", "99", "100", "2147483647", "2147483648", "99999999999999999999",
        "a", "1a", "a1", "1.0", "1e0", "0x1", "++1", "+-1", "1+", "٣", "１", " 1", "1 ",
    ] {
        assert_eq!(code_of(token), 0, "for {:?}", token);
        let parsed: i32 = token.parse().unwrap_or(0);
        assert!(!(1..=9).contains(&parsed), "for {:?}", token);
    }
}

#[test]
fn token_code_agrees_with_parsing_an_i32() {
    let alphabet = ['0', '1', '9', '+', '-', 'x'];
    let mut tokens = vec![String::new()];
    for _ in 0..4 {
        let mut longer = Vec::new();
        for t in tokens.iter() {
            for a in alphabet {
                let mut s = t.clone();
                s.push(a);
                longer.push(s);
            }
        }
        for t in longer.iter() {
            let parsed: i32 = t.parse().unwrap_or(0);
            let expected = if (1..=9).contains(&parsed) { parsed as u8 } else { 0 };
            assert_eq!(code_of(t), expected, "for {:?}", t);
        }
        tokens = longer;
    }
}

#[test]
fn token_code_reads_a_part_of_the_line() {
    let chars: Vec<char> = "12 +3 x".chars().collect();
    assert_eq!(token_code(&chars, 0, 1), 1);
    assert_eq!(token_code(&chars, 1, 2), 2);
    assert_eq!(token_code(&chars, 0, 2), 0);
    assert_eq!(token_code(&chars, 3, 5), 3);
    assert_eq!(token_code(&chars, 4, 5), 3);
    assert_eq!(token_code(&chars, 6, 7), 0);
    assert_eq!(token_code(&chars, 2, 2), 0);
}

#[test]
fn line_codes_reads_cell_by_cell() {
    assert_eq!(line_codes("1 2 3 4 5 6 7 8 9 0"), vec![1, 2, 3, 4, 5, 6, 7, 8, 9, 0]);
    assert_eq!(line_codes(""), Vec::<u8>::new());
    assert_eq!(line_codes("   \t "), Vec::<u8>::new());
    assert_eq!(line_codes("  1\t\t2  \r"), vec![1, 2]);
    assert_eq!(line_codes("x 10 -3 +7 007 ٣ 2"), vec![0, 0, 0, 7, 7, 0, 2]);
    assert_eq!(line_codes("12"), vec![0]);
}

#[test]
fn line_codes_splits_on_any_white_space() {
    assert_eq!(line_codes("1\u{a0}2\u{3000}3\u{2003}4\u{85}5\u{b}6"), vec![1, 2, 3, 4, 5, 6]);
    // a zero width space is no white space
    assert_eq!(line_codes("1\u{200b}2"), vec![0]);
}

#[test]
fn line_codes_agrees_with_split_whitespace() {
    for line in ["1 1 2 3 1", " 9  8\t7 ", "a b c", "1\u{a0}1 +2 -2 02 20", "", "4"] {
        let expected: Vec<u8> = line
            .split_whitespace()
            .map(|s| s.parse::<i32>().unwrap_or(0))
            .map(|v| if (1..=9).contains(&v) { v as u8 } else { 0 })
            .collect();
        assert_eq!(line_codes(line), expected);
    }
}

#[test]
fn line_codes_stops_at_the_width_of_the_grid() {
    let long = "1 ".repeat(COLS + 5);
    assert_eq!(line_codes(&long), vec![1; COLS]);
    let exact = "2 ".repeat(COLS);
    assert_eq!(line_codes(&exact), vec![2; COLS]);
    let short = "3 ".repeat(COLS - 1);
    assert_eq!(line_codes(&short), vec![3; COLS - 1]);
}

#[test]
fn contains_part_finds_parts() {
    let text: Vec<char> = "Levels/level03.dat".chars().collect();
    let part = |s: &str| s.chars().collect::<Vec<char>>();
    assert!(contains_part(&text, &part("level03")));
    assert!(contains_part(&text, &part("Levels")));
    assert!(contains_part(&text, &part(".dat")));
    assert!(contains_part(&text, &part("")));
    assert!(contains_part(&text, &text));
    assert!(!contains_part(&text, &part("level04")));
    assert!(!contains_part(&text, &part("Levels/level03.dat ")));
    assert!(!contains_part(&part(""), &part("a")));
    assert!(contains_part(&part(""), &part("")));
    assert!(contains_part(&part("aab"), &part("ab")));
}

#[test]
fn level_of_reads_the_name() {
    assert_eq!(level_of("Levels/level01.dat"), 1);
    assert_eq!(level_of("Levels/level02.dat"), 2);
    assert_eq!(level_of("Levels/level03.dat"), 3);
    assert_eq!(level_of("Levels/level04.dat"), 4);
    assert_eq!(level_of("Levels/level05.dat"), 5);
    assert_eq!(level_of("Levels/level06.dat"), 6);
    assert_eq!(level_of("Levels/level07.dat"), 7);
    assert_eq!(level_of("Levels/level08.dat"), 8);
    assert_eq!(level_of("Levels/level09.dat"), 9);
}

#[test]
fn level_of_takes_the_highest_and_falls_back_to_one() {
    assert_eq!(level_of(""), 1);
    assert_eq!(level_of("nothing"), 1);
    assert_eq!(level_of("level10"), 1);
    assert_eq!(level_of("level00"), 1);
    assert_eq!(level_of("Level09"), 1);
    assert_eq!(level_of("level0"), 1);
    assert_eq!(level_of("level02level09"), 9);
    assert_eq!(level_of("/home/level05/Levels/level02.dat"), 5);
    assert_eq!(level_of("levellevel07"), 7);
}

#[test]
fn chase_percent_rises_with_the_level() {
    let table = [(1, 50), (2, 50), (3, 55), (4, 60), (5, 65), (6, 70), (7, 75), (8, 85), (9, 95)];
    for (level, percent) in table {
        assert_eq!(chase_percent_for(level), percent);
    }
}

#[test]
fn count_pellets_counts_pellets_only() {
    let mut state = GameState::new();
    assert_eq!(count_pellets(&state.level), 0);
    state.level[0][0] = Tile::Pellet;
    state.level[ROWS - 1][COLS - 1] = Tile::Pellet;
    state.level[3][3] = Tile::PowerUp;
    state.level[4][4] = Tile::Wall;
    assert_eq!(count_pellets(&state.level), 2);
    for row in state.level.iter_mut() {
        for t in row.iter_mut() {
            *t = Tile::Pellet;
        }
    }
    assert_eq!(count_pellets(&state.level), (ROWS * COLS) as i32);
}

#[test]
fn place_cells_lays_out_tiles_and_spawns() {
    let mut state = GameState::new();
    let rows = vec![vec![1, 1, 1, 1], vec![1, 2, 3, 1], vec![4, 0, 9, 7], vec![5, 6, 8]];
    place_cells(&mut state, &rows);
    assert_eq!(state.level[0][..4], [Tile::Wall; 4]);
    assert_eq!(state.level[1][..4], [Tile::Wall, Tile::Pellet, Tile::PowerUp, Tile::Wall]);
    assert_eq!(state.level[2][..4], [Tile::GhostWall, Tile::Empty, Tile::Empty, Tile::Empty]);
    assert_eq!(state.level[3][..4], [Tile::Empty; 4]);
    assert_eq!((state.pac_row, state.pac_col), (2, 2));
    assert_eq!(state.pac_spawn, (2, 2));
    assert_eq!(state.ghost_spawns, [(3, 0), (3, 1), (2, 3), (3, 2)]);
    for (i, g) in state.ghosts.iter().enumerate() {
        assert_eq!((g.row, g.col), state.ghost_spawns[i]);
    }
    // headings stay as they were
    assert_eq!((state.pac_dir_r, state.pac_dir_c), (0, -1));
    assert_eq!((state.ghosts[0].dir_r, state.ghosts[0].dir_c), (1, 0));
    assert_eq!((state.ghosts[1].dir_r, state.ghosts[1].dir_c), (-1, 0));
    assert_eq!((state.ghosts[2].dir_r, state.ghosts[2].dir_c), (0, -1));
    assert_eq!((state.ghosts[3].dir_r, state.ghosts[3].dir_c), (0, 1));
    assert!(state.is_valid());
}

#[test]
fn place_cells_lets_the_last_marker_win() {
    let mut state = GameState::new();
    let rows = vec![vec![9, 5, 9], vec![5, 0, 0, 0, 0, 5], vec![], vec![0, 9]];
    place_cells(&mut state, &rows);
    assert_eq!(state.pac_spawn, (3, 1));
    assert_eq!((state.pac_row, state.pac_col), (3, 1));
    assert_eq!(state.ghost_spawns[0], (1, 5));
    assert_eq!((state.ghosts[0].row, state.ghosts[0].col), (1, 5));
    assert_eq!(state.ghost_spawns[1], (0, 0));
}

#[test]
fn place_cells_stops_at_the_edges_of_the_grid() {
    let mut state = GameState::new();
    let mut rows = vec![vec![1u8; COLS + 3]; ROWS + 2];
    rows[0][COLS] = 9;
    rows[ROWS][0] = 5;
    place_cells(&mut state, &rows);
    for row in state.level.iter() {
        for t in row.iter() {
            assert_eq!(*t, Tile::Wall);
        }
    }
    assert_eq!(state.pac_spawn, (0, 0));
    assert_eq!(state.ghost_spawns[0], (0, 0));
}

#[test]
fn place_cells_keeps_what_it_is_not_told() {
    let mut state = GameState::new();
    state.level[0][5] = Tile::Pellet;
    state.level[7][7] = Tile::Wall;
    state.pac_row = 4;
    state.pac_spawn = (6, 6);
    state.ghosts[2].col = 9;
    state.ghost_spawns[2] = (8, 8);
    state.score = 12;
    let before = state.clone();
    place_cells(&mut state, &vec![vec![3, 3]]);
    assert_eq!(state.level[0][0], Tile::PowerUp);
    assert_eq!(state.level[0][1], Tile::PowerUp);
    state.level[0][0] = Tile::Empty;
    state.level[0][1] = Tile::Empty;
    assert!(state == before);
}

#[test]
fn load_level_reads_a_description() {
    let mut state = GameState::new();
    state.score = 40;
    state.lives = 2;
    let text = lines(&[
        "1 1 1 1 1 1",
        "1 9 2 2 3 1",
        "1 2 1 4 2 1",
        "1 5 6 7 8 1",
        "1 1 1 1 1 1",
    ]);
    state.load_level("Levels/level04.dat", &text);
    assert_eq!(state.level_number, 4);
    assert_eq!(state.chase_percent, 60);
    assert_eq!(state.food_left, 4);
    assert_eq!(state.pac_spawn, (1, 1));
    assert_eq!((state.pac_row, state.pac_col), (1, 1));
    assert_eq!(state.ghost_spawns, [(3, 1), (3, 2), (3, 3), (3, 4)]);
    assert_eq!(
        state.level[1][..6],
        [Tile::Wall, Tile::Empty, Tile::Pellet, Tile::Pellet, Tile::PowerUp, Tile::Wall]
    );
    assert_eq!(
        state.level[2][..6],
        [Tile::Wall, Tile::Pellet, Tile::Wall, Tile::GhostWall, Tile::Pellet, Tile::Wall]
    );
    assert_eq!(state.level[3][..6], [Tile::Wall, Tile::Empty, Tile::Empty, Tile::Empty, Tile::Empty, Tile::Wall]);
    assert_eq!(state.level[5][0], Tile::Empty);
    assert_eq!(state.level[0][6], Tile::Empty);
    assert_eq!(state.score, 40);
    assert_eq!(state.lives, 2);
    assert!(state.is_valid());
}

#[test]
fn load_level_reads_untidy_lines() {
    let mut state = GameState::new();
    let text = lines(&["  2\t2   x 2", "", "+2 02 -2 22 2.0", "\u{a0}2\u{a0}"]);
    state.load_level("level01", &text);
    assert_eq!(state.level[0][..4], [Tile::Pellet, Tile::Pellet, Tile::Empty, Tile::Pellet]);
    assert_eq!(
        state.level[2][..5],
        [Tile::Pellet, Tile::Pellet, Tile::Empty, Tile::Empty, Tile::Empty]
    );
    assert_eq!(state.level[3][0], Tile::Pellet);
    assert_eq!(state.food_left, 6);
    assert_eq!(state.level_number, 1);
    assert_eq!(state.chase_percent, 50);
}

#[test]
fn load_level_reads_no_more_than_the_grid() {
    let mut state = GameState::new();
    let row = "2 ".repeat(COLS + 4);
    let mut text = vec![row; ROWS];
    text.push("9 9 9".to_string());
    state.load_level("level09", &text);
    assert_eq!(state.food_left, (ROWS * COLS) as i32);
    assert_eq!(state.pac_spawn, (0, 0));
    assert_eq!(state.level_number, 9);
    assert_eq!(state.chase_percent, 95);
}

#[test]
fn load_level_counts_the_pellets_that_were_there_before() {
    let mut state = GameState::new();
    state.level[20][20] = Tile::Pellet;
    state.load_level("level02", &lines(&["2 2"]));
    assert_eq!(state.food_left, 3);
    state.load_level("level02", &lines(&["1"]));
    assert_eq!(state.food_left, 2);
}

#[test]
fn load_level_with_nothing_keeps_the_grid() {
    let mut state = GameState::new();
    state.level[2][2] = Tile::Wall;
    state.food_left = 77;
    let before = state.clone();
    state.load_level("level07", &Vec::new());
    assert_eq!(state.level_number, 7);
    assert_eq!(state.chase_percent, 75);
    assert_eq!(state.food_left, 0);
    state.level_number = 1;
    state.chase_percent = 50;
    state.food_left = 77;
    assert!(state == before);
}
