use game_of_life::config::{set_generations, set_infinite_game, set_tick_rate, GameConfig};
use game_of_life::digits::u64_string;
use game_of_life::input::{config_menu, get_u32, get_usize, main_menu, ConfigMenuOpt, MainMenuOpt};

#[test]
fn main_menu_maps_every_selection() {
    assert_eq!(main_menu(1), MainMenuOpt::SetClearCell);
    assert_eq!(main_menu(2), MainMenuOpt::GeneratePattern);
    assert_eq!(main_menu(3), MainMenuOpt::Play);
    assert_eq!(main_menu(4), MainMenuOpt::SaveMap);
    assert_eq!(main_menu(5), MainMenuOpt::LoadMap);
    assert_eq!(main_menu(6), MainMenuOpt::Configuration);
    assert_eq!(main_menu(99), MainMenuOpt::Exit);
    assert_eq!(main_menu(0), MainMenuOpt::Unknown);
    assert_eq!(main_menu(7), MainMenuOpt::Unknown);
    assert_eq!(main_menu(100), MainMenuOpt::Unknown);
}

#[test]
fn config_menu_maps_every_selection() {
    assert_eq!(config_menu(1), ConfigMenuOpt::SetTickRate);
    assert_eq!(config_menu(2), ConfigMenuOpt::InfiniteGame);
    assert_eq!(config_menu(3), ConfigMenuOpt::SetMaxGenerations);
    assert_eq!(config_menu(4), ConfigMenuOpt::SetMapSize);
    assert_eq!(config_menu(99), ConfigMenuOpt::Exit);
    assert_eq!(config_menu(5), ConfigMenuOpt::Unknown);
    assert_eq!(config_menu(0), ConfigMenuOpt::Unknown);
}

#[test]
fn get_u32_parses_decimal_numbers() {
    assert_eq!(get_u32(&b"0".to_vec()), Some(0));
    assert_eq!(get_u32(&b"42".to_vec()), Some(42));
    assert_eq!(get_u32(&b"007".to_vec()), Some(7));
    assert_eq!(get_u32(&b"4294967295".to_vec()), Some(u32::MAX));
}

#[test]
fn get_u32_rejects_bad_input() {
    assert_eq!(get_u32(&b"".to_vec()), None);
    assert_eq!(get_u32(&b"4a".to_vec()), None);
    assert_eq!(get_u32(&b"-1".to_vec()), None);
    assert_eq!(get_u32(&b" 42".to_vec()), None);
    assert_eq!(get_u32(&b"4294967296".to_vec()), None);
    assert_eq!(get_u32(&b"99999999999999999999999999".to_vec()), None);
}

#[test]
fn get_usize_parses_values_and_quit() {
    assert_eq!(get_usize(&b"123".to_vec(), true), Some((123, false)));
    assert_eq!(get_usize(&b"0".to_vec(), true), Some((0, false)));
    assert_eq!(get_usize(&b"q".to_vec(), true), Some((0, true)));
    // Without the abort feature `q` is just a bad number.
    assert_eq!(get_usize(&b"q".to_vec(), false), None);
    assert_eq!(get_usize(&b"".to_vec(), true), None);
    assert_eq!(get_usize(&b"12x".to_vec(), true), None);
    assert_eq!(get_usize(&b"qq".to_vec(), true), None);
    assert_eq!(get_usize(&b"99999999999999999999999999".to_vec(), true), None);
}

#[test]
fn default_config_values() {
    let config = GameConfig::get_config();
    assert_eq!(config.tick_rate, 75);
    assert!(config.infinite_game);
    assert_eq!(config.max_generations, 9999);
    assert_eq!(config.map_size, (10, 10));
}

#[test]
fn set_generations_reports_the_value() {
    let (n, msg) = set_generations(50);
    assert_eq!(n, 50);
    assert_eq!(msg, "Generations = 50");
}

#[test]
fn set_tick_rate_reports_the_value() {
    let (n, msg) = set_tick_rate(250);
    assert_eq!(n, 250);
    assert_eq!(msg, "Tick rate = 250 ms");
}

#[test]
fn set_infinite_game_toggles() {
    let (on, msg) = set_infinite_game(&false);
    assert!(on);
    assert_eq!(msg, "Infinite game Enabled");
    let (off, msg) = set_infinite_game(&true);
    assert!(!off);
    assert_eq!(msg, "Infinite game Disabled");
}

#[test]
fn decimal_rendering_is_exact() {
    assert_eq!(u64_string(0), "0");
    assert_eq!(u64_string(9), "9");
    assert_eq!(u64_string(10), "10");
    assert_eq!(u64_string(12345), "12345");
    assert_eq!(u64_string(u64::MAX), "18446744073709551615");
}
