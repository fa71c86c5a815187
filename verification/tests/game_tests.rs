use rustcraft::game::menu::{
    parse_u64, valid_slot_name, JobOutcome, MenuAction, MenuCommand, MenuError, MenuField,
    MenuKey, MenuModel, MenuPage, SeedChoice,
};
use rustcraft::game::{
    departure, escape, pause_click, sanitize_render_distance, Departure, Destination, GameState,
    PauseAction, PauseEffect, PauseModel,
};
use rustcraft::persistence::valid_world_name;

#[test]
fn game_state_starts_in_main_menu() {
    assert_eq!(GameState::default(), GameState::MainMenu);
}

#[test]
fn lifecycle_states_are_distinct() {
    assert_ne!(GameState::Loading, GameState::Playing);
    assert_ne!(GameState::Playing, GameState::Paused);
}

#[test]
fn slot_names_preserve_persistence_path_contract() {
    for valid in ["World", "my-world_12"] {
        assert!(valid_world_name(valid));
        assert!(valid_slot_name(&valid.chars().collect()));
    }
    for invalid in ["", "..", "a/b", "../test"] {
        assert!(!valid_world_name(invalid));
        assert!(!valid_slot_name(&invalid.chars().collect()));
    }
}

#[test]
fn departure_waits_and_refuses_to_leave_after_save_error() {
    let mut pause = PauseModel {
        waiting: true,
        destination: Some(Destination::Menu),
        ..PauseModel::new()
    };
    assert_eq!(departure(&mut pause, true, &None), Departure::Stay);
    assert!(pause.waiting);

    let error = Some("disk full".to_string());
    assert_eq!(departure(&mut pause, false, &error), Departure::Stay);
    assert!(!pause.waiting);
    assert!(pause.save_error.as_ref().unwrap().contains("disk full"));
    assert_eq!(pause.destination, None);

    pause.waiting = true;
    pause.destination = Some(Destination::Menu);
    assert_eq!(departure(&mut pause, false, &None), Departure::ToMenu);
    assert!(!pause.waiting);
    assert_eq!(departure(&mut pause, false, &None), Departure::Stay);
}

#[test]
fn quitting_after_a_successful_save_closes_the_application() {
    let mut pause = PauseModel::new();
    assert_eq!(pause_click(&mut pause, PauseAction::Quit, 8), PauseEffect::RequestSave);
    assert!(pause.waiting);
    assert_eq!(pause_click(&mut pause, PauseAction::Resume, 8), PauseEffect::Nothing);
    assert_eq!(departure(&mut pause, false, &None), Departure::Quit);
}

#[test]
fn escape_pauses_closes_settings_and_resumes() {
    let mut pause = PauseModel::new();
    assert_eq!(escape(GameState::Playing, false, &mut pause), Some(GameState::Paused));
    assert_eq!(escape(GameState::Playing, true, &mut pause), None);
    pause.settings = true;
    assert_eq!(escape(GameState::Paused, false, &mut pause), None);
    assert!(!pause.settings);
    assert_eq!(escape(GameState::Paused, false, &mut pause), Some(GameState::Playing));
    pause.waiting = true;
    assert_eq!(escape(GameState::Paused, false, &mut pause), None);
    assert_eq!(escape(GameState::MainMenu, false, &mut pause), None);
}

#[test]
fn render_distance_is_clamped_between_two_and_sixteen() {
    assert_eq!(sanitize_render_distance(999), 16);
    assert_eq!(sanitize_render_distance(-3), 2);
    assert_eq!(sanitize_render_distance(8), 8);
    let mut pause = PauseModel::new();
    assert_eq!(
        pause_click(&mut pause, PauseAction::Distance(1), 16),
        PauseEffect::SetRenderDistance(16)
    );
    assert_eq!(
        pause_click(&mut pause, PauseAction::Distance(-1), 8),
        PauseEffect::SetRenderDistance(7)
    );
    assert_eq!(pause_click(&mut pause, PauseAction::Settings, 8), PauseEffect::Nothing);
    assert!(pause.settings);
    assert_eq!(pause_click(&mut pause, PauseAction::Back, 8), PauseEffect::Nothing);
    assert!(!pause.settings);
    assert_eq!(pause_click(&mut pause, PauseAction::Vsync, 8), PauseEffect::ToggleVsync);
}

fn chars(text: &str) -> Vec<char> {
    text.chars().collect()
}

#[test]
fn creating_a_world_trims_the_name_and_reads_the_seed() {
    let mut menu = MenuModel::new();
    assert!(matches!(menu.click(MenuAction::New), MenuCommand::Nothing));
    assert_eq!(menu.page(), MenuPage::Create);
    assert_eq!(menu.focus(), Some(MenuField::Name));
    menu.key(MenuKey::Text(chars("  my-world ")));
    menu.key(MenuKey::Tab);
    assert_eq!(menu.focus(), Some(MenuField::Seed));
    menu.key(MenuKey::Text(chars("+42\u{7}")));
    assert_eq!(menu.seed(), &chars("+42"));
    match menu.click(MenuAction::Create) {
        MenuCommand::CreateWorld(name, seed) => {
            assert_eq!(name, chars("my-world"));
            assert_eq!(seed, SeedChoice::Given(42));
        }
        other => panic!("unexpected command {other:?}"),
    }
    assert!(menu.is_busy());
    assert!(matches!(menu.click(MenuAction::Quit), MenuCommand::Nothing));
    match menu.job_finished(JobOutcome::Created("my-world".to_string(), 42)) {
        MenuCommand::Start(name, seed) => {
            assert_eq!(name, "my-world");
            assert_eq!(seed, 42);
        }
        other => panic!("unexpected command {other:?}"),
    }
    assert!(!menu.is_busy());
}

#[test]
fn invalid_names_and_seeds_are_reported() {
    let mut menu = MenuModel::new();
    menu.click(MenuAction::New);
    menu.key(MenuKey::Text(chars("a/b")));
    assert!(matches!(menu.click(MenuAction::Create), MenuCommand::Nothing));
    assert_eq!(menu.error(), &Some(MenuError::InvalidName));
    menu.key(MenuKey::Backspace);
    menu.key(MenuKey::Backspace);
    assert_eq!(menu.name(), &chars("a"));
    menu.key(MenuKey::Tab);
    menu.key(MenuKey::Text(chars("-5")));
    assert!(matches!(menu.click(MenuAction::Create), MenuCommand::Nothing));
    assert_eq!(menu.error(), &Some(MenuError::InvalidSeed));
    menu.key(MenuKey::Backspace);
    menu.key(MenuKey::Backspace);
    match menu.click(MenuAction::Create) {
        MenuCommand::CreateWorld(_, seed) => assert_eq!(seed, SeedChoice::Random),
        other => panic!("unexpected command {other:?}"),
    }
}

#[test]
fn fields_hold_at_most_128_bytes() {
    let mut menu = MenuModel::new();
    menu.click(MenuAction::New);
    menu.key(MenuKey::Text(vec!['x'; 200]));
    assert_eq!(menu.name().len(), 128);
    menu.key(MenuKey::Backspace);
    menu.key(MenuKey::Text(vec!['é']));
    assert_eq!(menu.name().len(), 127);
    menu.key(MenuKey::Backspace);
    menu.key(MenuKey::Backspace);
    menu.key(MenuKey::Text(vec!['é']));
    assert_eq!(menu.name().len(), 126);
    assert_eq!(menu.name().last(), Some(&'é'));
}

#[test]
fn loading_needs_a_selected_world_and_listing_clears_the_selection() {
    let mut menu = MenuModel::new();
    assert!(matches!(menu.click(MenuAction::Play), MenuCommand::ListWorlds));
    assert_eq!(menu.page(), MenuPage::Worlds);
    menu.job_finished(JobOutcome::Worlds(vec!["alpha".to_string(), "beta".to_string()]));
    assert_eq!(menu.worlds().len(), 2);
    assert!(matches!(menu.click(MenuAction::Load), MenuCommand::Nothing));
    assert_eq!(menu.error(), &Some(MenuError::NoWorldSelected));
    menu.click(MenuAction::Select("beta".to_string()));
    assert_eq!(menu.error(), &None);
    match menu.click(MenuAction::Load) {
        MenuCommand::Load(name) => assert_eq!(name, "beta"),
        other => panic!("unexpected command {other:?}"),
    }
    menu.click(MenuAction::Play);
    menu.job_finished(JobOutcome::Failed("permission denied".to_string()));
    assert_eq!(menu.error(), &Some(MenuError::Failed("permission denied".to_string())));
    menu.enter(None);
    assert_eq!(menu.page(), MenuPage::Title);
    assert_eq!(menu.error(), &None);
    assert_eq!(menu.selected(), &Some("beta".to_string()));
    menu.click(MenuAction::Play);
    menu.job_finished(JobOutcome::Worlds(Vec::new()));
    assert_eq!(menu.selected(), &None);
}

#[test]
fn seeds_parse_like_unsigned_integers() {
    assert_eq!(parse_u64(&chars("0")), Some(0));
    assert_eq!(parse_u64(&chars("18446744073709551615")), Some(u64::MAX));
    assert_eq!(parse_u64(&chars("18446744073709551616")), None);
    assert_eq!(parse_u64(&chars("+7")), Some(7));
    assert_eq!(parse_u64(&chars("+")), None);
    assert_eq!(parse_u64(&chars("")), None);
    assert_eq!(parse_u64(&chars("1 2")), None);
    assert_eq!(parse_u64(&chars("-0")), None);
}
